//! How the ledger of a session is rebuilt from the parts that were published and the rows that
//! were left.
use crate::lifecycle_backfill::{
    absorb_events, absorbed, advanced, all_current, conflicts_in, free_position, grouped,
    kept_in_slots, kept_owed, law_survivor_is_first, match_part, match_parts, matched_row,
    merged_group, merged_groups, owed, owed_before, owed_position, plan_writes, planned,
    planned_view, ranked, session_matching, synthetic_event, synthetic_path, unmatched_start,
    untouched_note, winning, BackfillJournal, EventView, LegacyRow, Matching, MergedView, PartView,
    PlanView, PlanWrite, PlannedView, PublishedPart, RowView, SessionStep, Slot, SyntheticView,
};
use crate::path_safety::path_stem;
use crate::text::{decimal, signed_decimal};
use vstd::prelude::*;

verus! {

proof fn lemma_statuses()
    ensures
        "conflict"@ != "succeeded"@,
{
    reveal_strlit("conflict");
    reveal_strlit("succeeded");
    assert("conflict"@[0] == 'c');
    assert("succeeded"@[0] == 's');
}

/// A published part makes the row that it belongs to uploaded, with what was published of it,
/// unless the row claims another remote file or was in conflict before; nothing else of the row
/// changes.
pub proof fn law_a_published_part_is_uploaded(row: MergedView, part: PartView)
    ensures
        row.status != "conflict"@ && (row.remote is None || row.remote->0 == part.filename)
            ==> matched_row(row, part).status == "succeeded"@ && matched_row(row, part).video_json
            == Some(part.json),
        row.status != "conflict"@ && row.remote is Some && row.remote->0 != part.filename
            ==> matched_row(row, part).status == "conflict"@ && matched_row(row, part).video_json
            == row.video_json,
        row.status == "conflict"@ ==> matched_row(row, part) == row,
        matched_row(row, part).id == row.id,
        matched_row(row, part).identity == row.identity,
        matched_row(row, part).attempts == row.attempts,
        matched_row(row, part).aid == row.aid,
        matched_row(row, part).last_error == row.last_error,
        matched_row(row, part).remote == row.remote,
{
}

proof fn lemma_free_position(
    merged: Seq<MergedView>,
    claimed: Seq<bool>,
    stem: Seq<char>,
    from: int,
)
    requires
        0 <= from <= merged.len(),
        claimed.len() == merged.len(),
    ensures
        from <= free_position(merged, claimed, stem, from) <= merged.len(),
        forall|i: int|
            from <= i < free_position(merged, claimed, stem, from) ==> claimed[i] || (
            #[trigger] merged[i]).stem != stem,
        free_position(merged, claimed, stem, from) < merged.len() ==> !claimed[free_position(
            merged,
            claimed,
            stem,
            from,
        )] && merged[free_position(merged, claimed, stem, from)].stem == stem,
    decreases merged.len() - from,
{
    if from < merged.len() && !(!claimed[from] && merged[from].stem == stem) {
        lemma_free_position(merged, claimed, stem, from + 1);
    }
}

/// Whether `m` is what the first parts have made of `start`.
spec fn fits(m: Matching, start: Matching, parts: Seq<PartView>) -> bool {
    &&& m.slots.len() == parts.len()
    &&& m.merged.len() == start.merged.len()
    &&& m.claimed.len() == start.merged.len()
    &&& forall|i: int|
        0 <= i < m.merged.len() ==> (#[trigger] m.merged[i]).stem == start.merged[i].stem
    &&& forall|i: int|
        0 <= i < m.merged.len() && !m.claimed[i] ==> #[trigger] m.merged[i] == start.merged[i]
    &&& forall|i: int|
        0 <= i < m.merged.len() && #[trigger] m.claimed[i] ==> exists|p: int|
            0 <= p < parts.len() && (#[trigger] parts[p]).stem == m.merged[i].stem
    &&& forall|p: int|
        0 <= p < parts.len() ==> slot_fits(m, start, #[trigger] parts[p], p)
}

/// Whether what stands at place `p` fits the part that was published there.
spec fn slot_fits(m: Matching, start: Matching, part: PartView, p: int) -> bool {
    match m.slots[p] {
        Slot::Row(at) => {
            &&& 0 <= at < m.merged.len()
            &&& m.claimed[at]
            &&& m.merged[at].stem == part.stem
            &&& m.merged[at] == matched_row(start.merged[at], part)
        },
        Slot::Unknown => true,
    }
}

proof fn lemma_match_parts(start: Matching, parts: Seq<PartView>)
    requires
        start.slots.len() == 0,
        start.claimed.len() == start.merged.len(),
        forall|i: int| 0 <= i < start.claimed.len() ==> !(#[trigger] start.claimed[i]),
    ensures
        fits(match_parts(start, parts), start, parts),
    decreases parts.len(),
{
    if parts.len() > 0 {
        let front = parts.drop_last();
        let last = parts.last();
        lemma_match_parts(start, front);
        let before = match_parts(start, front);
        let after = match_parts(start, parts);
        let at = free_position(before.merged, before.claimed, last.stem, 0);
        lemma_free_position(before.merged, before.claimed, last.stem, 0);
        assert(after == match_part(before, last));
        assert(parts[parts.len() - 1] == last);
        assert forall|p: int| 0 <= p < parts.len() implies slot_fits(
            after,
            start,
            #[trigger] parts[p],
            p,
        ) by {
            if p < front.len() {
                assert(front[p] == parts[p]);
                assert(slot_fits(before, start, front[p], p));
                assert(after.slots[p] == before.slots[p]);
            }
        }
        assert forall|i: int| 0 <= i < after.merged.len() && #[trigger] after.claimed[i] implies (
        exists|p: int|
            0 <= p < parts.len() && (#[trigger] parts[p]).stem == after.merged[i].stem) by {
            if before.claimed[i] {
                let p = choose|p: int|
                    0 <= p < front.len() && (#[trigger] front[p]).stem == before.merged[i].stem;
                assert(parts[p] == front[p]);
            }
        }
        assert forall|i: int| 0 <= i < after.merged.len() implies (#[trigger] after.merged[i]).stem
            == start.merged[i].stem by {
            assert(before.merged[i].stem == start.merged[i].stem);
        }
        assert forall|i: int| 0 <= i < after.merged.len() && !after.claimed[i] implies (
        #[trigger] after.merged[i]) == start.merged[i] by {
            assert(before.merged[i] == start.merged[i]);
        }
    }
}

/// Whether `view` is the row that stands at place `p`.
spec fn stands_at(m: Matching, n: int, p: int, view: PlannedView) -> bool {
    0 <= p < n && m.slots[p] is Row && view == planned_view(m.merged[m.slots[p]->Row_0], p)
}

proof fn lemma_kept(m: Matching, n: int, view: PlannedView)
    requires
        0 <= n <= m.slots.len(),
    ensures
        kept_in_slots(m, n).contains(view) <==> exists|p: int| stands_at(m, n, p, view),
    decreases n,
{
    let all = kept_in_slots(m, n);
    if n > 0 {
        let before = n - 1;
        lemma_kept(m, before, view);
        let rest = kept_in_slots(m, before);
        if all.contains(view) {
            let k = choose|k: int| 0 <= k < all.len() && all[k] == view;
            if k < rest.len() {
                assert(rest[k] == view);
                let p = choose|p: int| stands_at(m, before, p, view);
                assert(stands_at(m, n, p, view));
            } else {
                assert(stands_at(m, n, n - 1, view));
            }
        }
        if exists|p: int| stands_at(m, n, p, view) {
            let p = choose|p: int| stands_at(m, n, p, view);
            if p < n - 1 {
                assert(stands_at(m, before, p, view));
                let k = choose|k: int| 0 <= k < rest.len() && rest[k] == view;
                assert(all[k] == view);
            } else {
                assert(all[all.len() - 1] == view);
            }
        }
    }
}

/// A row that takes the place of a published part is uploaded, with what was published there, or
/// is in conflict.
pub proof fn law_kept_rows_hold_what_was_published(
    session_id: i64,
    parts: Seq<PartView>,
    rows: Seq<RowView>,
    k: int,
)
    requires
        0 <= k < planned(session_id, parts, rows).keep.len(),
        planned(session_id, parts, rows).keep[k].segment_order < parts.len(),
    ensures
        ({
            let row = planned(session_id, parts, rows).keep[k];
            &&& 0 <= row.segment_order
            &&& row.status == "conflict"@ || (row.status == "succeeded"@ && row.video_json == Some(
                parts[row.segment_order].json,
            ))
        }),
{
    let groups = grouped(rows);
    let start = unmatched_start(
        merged_groups(groups),
        crate::lifecycle_backfill::group_events(groups),
    );
    let m = session_matching(parts, rows);
    lemma_match_parts(start, parts);
    let n = parts.len() as int;
    let kept = kept_in_slots(m, n);
    let rest = owed(m.merged, m.claimed, m.merged.len() as int);
    let keep = planned(session_id, parts, rows).keep;
    if k >= kept.len() {
        assert(keep[k] == kept_owed(m, rest, n)[k - kept.len()]);
    } else {
        assert(keep[k] == kept[k]);
        lemma_kept(m, n, kept[k]);
        assert(kept.contains(kept[k]));
        let p = choose|p: int| stands_at(m, n, p, kept[k]);
        assert(slot_fits(m, start, parts[p], p));
    }
}

/// The first part of a stem takes the place of a row of that stem wherever there is one: the row
/// is kept at the part's place and, unless it claims another remote file or was in conflict
/// before, counts as uploaded with what was published.
pub proof fn law_a_part_finds_its_row(
    session_id: i64,
    parts: Seq<PartView>,
    rows: Seq<RowView>,
    p: int,
    i: int,
)
    requires
        0 <= p < parts.len(),
        forall|q: int| 0 <= q < p ==> (#[trigger] parts[q]).stem != parts[p].stem,
        0 <= i < merged_groups(grouped(rows)).len(),
        merged_groups(grouped(rows))[i].stem == parts[p].stem,
    ensures
        exists|k: int, at: int|
            0 <= k < planned(session_id, parts, rows).keep.len() && 0 <= at < merged_groups(
                grouped(rows),
            ).len() && {
                let row = #[trigger] planned(session_id, parts, rows).keep[k];
                let was = #[trigger] merged_groups(grouped(rows))[at];
                &&& row.segment_order == p
                &&& row.id == was.id
                &&& was.stem == parts[p].stem
                &&& was.status != "conflict"@ && (was.remote is None || was.remote->0
                    == parts[p].filename) ==> row.status == "succeeded"@ && row.video_json == Some(
                    parts[p].json,
                )
            },
{
    let groups = grouped(rows);
    let merged = merged_groups(groups);
    let start = unmatched_start(merged, crate::lifecycle_backfill::group_events(groups));
    let m = session_matching(parts, rows);
    let n = parts.len() as int;
    lemma_match_parts(start, parts);
    lemma_slot_taken(start, parts, p, i);
    let at = m.slots[p]->Row_0;
    assert(slot_fits(m, start, parts[p], p));
    assert(m.slots[p] is Row);
    let view = planned_view(m.merged[at], p);
    let kept = kept_in_slots(m, n);
    lemma_kept(m, n, view);
    assert(stands_at(m, n, p, view));
    let k = choose|k: int| 0 <= k < kept.len() && kept[k] == view;
    assert(planned(session_id, parts, rows).keep[k] == view);
    assert(merged[at].stem == parts[p].stem);
}

proof fn lemma_slot_taken(start: Matching, parts: Seq<PartView>, p: int, i: int)
    requires
        start.slots.len() == 0,
        start.claimed.len() == start.merged.len(),
        forall|j: int| 0 <= j < start.claimed.len() ==> !(#[trigger] start.claimed[j]),
        0 <= p < parts.len(),
        forall|q: int| 0 <= q < p ==> (#[trigger] parts[q]).stem != parts[p].stem,
        0 <= i < start.merged.len(),
        start.merged[i].stem == parts[p].stem,
    ensures
        match_parts(start, parts).slots.len() == parts.len(),
        match_parts(start, parts).slots[p] is Row,
    decreases parts.len(),
{
    let front = parts.drop_last();
    let before = match_parts(start, front);
    lemma_match_parts(start, front);
    lemma_match_parts(start, parts);
    if p < front.len() {
        assert forall|q: int| 0 <= q < p implies (#[trigger] front[q]).stem != front[p].stem by {
            assert(front[q] == parts[q]);
        }
        lemma_slot_taken(start, front, p, i);
    } else {
        lemma_free_position(before.merged, before.claimed, parts.last().stem, 0);
        assert(before.merged[i].stem == start.merged[i].stem);
        if before.claimed[i] {
            let q = choose|q: int|
                0 <= q < front.len() && (#[trigger] front[q]).stem == before.merged[i].stem;
            assert(front[q] == parts[q]);
        }
        assert(!before.claimed[i]);
    }
}

/// Of the rows of one source the one that stays is uploaded before any that is not; among its
/// likes it is the one that was touched last, and of several touched at once the one with the
/// largest id. It keeps its own number, source and place.
pub proof fn law_which_row_stays(rows: Seq<RowView>, k: int)
    requires
        0 <= k < rows.len(),
    ensures
        ({
            let stays = ranked(rows)[0];
            let other = rows[k];
            &&& other.status == "succeeded"@ ==> stays.status == "succeeded"@
            &&& (stays.status == "succeeded"@) == (other.status == "succeeded"@) ==> {
                &&& other.updated_at <= stays.updated_at
                &&& other.updated_at == stays.updated_at ==> other.id <= stays.id
            }
            &&& merged_group(rows).id == stays.id
        }),
{
    law_survivor_is_first(rows);
}

/// A duplicate that is merged leaves its larger count of attempts, its number where there was
/// none and its error where that is newer; a remote file that the kept row lacks makes it
/// uploaded, and one that differs from its own makes a conflict.
pub proof fn law_a_duplicate_leaves_what_it_knows(merged: MergedView, row: RowView)
    ensures
        ({
            let after = absorbed(merged, row);
            &&& after.id == merged.id
            &&& after.identity == merged.identity
            &&& after.segment_order == merged.segment_order
            &&& after.attempts >= merged.attempts && after.attempts >= row.attempts && (
            after.attempts == merged.attempts || after.attempts == row.attempts)
            &&& after.aid == (if merged.aid is Some {
                merged.aid
            } else {
                row.aid
            })
            &&& merged.remote is None && row.remote is Some ==> after.remote == row.remote
                && after.video_json == row.video_json && after.status == "succeeded"@
            &&& merged.remote is Some && row.remote is Some && merged.remote->0 != row.remote->0
                ==> after.status == "conflict"@ && after.remote == merged.remote && after.video_json
                == merged.video_json
            &&& row.remote is None || merged.remote == row.remote ==> after.status == merged.status
                && after.remote == merged.remote && after.video_json == merged.video_json
            &&& row.last_error is None ==> after.last_error == merged.last_error
            &&& row.last_error is Some && merged.last_error is None ==> after.last_error
                == row.last_error
            &&& row.last_error is Some && merged.last_error is Some && row.updated_at
                > merged.told_by.0 ==> after.last_error == row.last_error
            &&& merged.last_error is Some && row.updated_at < merged.told_by.0 ==> after.last_error
                == merged.last_error
            &&& after.detached == merged.detached.push(row.id)
        }),
{
}

/// Every merged duplicate is told of, under its own number, and a difference of claims besides,
/// under the number of the row that stays.
pub proof fn law_merging_is_told(merged: MergedView, row: RowView)
    ensures
        ({
            let events = absorb_events(merged, row);
            let differ = merged.remote is Some && row.remote is Some && merged.remote->0
                != row.remote->0;
            &&& events.len() == (if differ {
                2int
            } else {
                1
            })
            &&& events.last() == (EventView {
                id: Some(row.id),
                kind: "merged_duplicate"@,
                detail: "merged into #"@ + signed_decimal(merged.id as int) + " for "@
                    + merged.identity,
            })
            &&& differ ==> events[0] == (EventView {
                id: Some(merged.id),
                kind: "conflict"@,
                detail: "row #"@ + signed_decimal(row.id as int) + " claims remote "@
                    + row.remote->0 + ", kept "@ + merged.remote->0,
            })
        }),
{
}

/// A part for which there is no row gets one of its own, named after the session and the place,
/// and that is told.
pub proof fn law_a_part_without_row_is_made_one(session_id: i64, index: int, row: SyntheticView)
    ensures
        synthetic_path(session_id, index) == "legacy://session/"@ + signed_decimal(
            session_id as int,
        ) + "/part/"@ + decimal(index as nat),
        synthetic_event(row) == (EventView {
            id: None,
            kind: "synthetic_baseline"@,
            detail: row.file_path,
        }),
{
}

/// Whether the rows of `list` stand in order.
spec fn owed_in_order(list: Seq<int>, merged: Seq<MergedView>) -> bool {
    forall|i: int, j: int|
        0 <= i < j < list.len() ==> !owed_before(
            merged[#[trigger] list[j]],
            merged[#[trigger] list[i]],
        )
}

proof fn lemma_owed_position(list: Seq<int>, merged: Seq<MergedView>, index: int)
    ensures
        0 <= owed_position(list, merged, index) <= list.len(),
        forall|i: int|
            0 <= i < owed_position(list, merged, index) ==> !owed_before(
                merged[index],
                merged[#[trigger] list[i]],
            ),
        owed_position(list, merged, index) < list.len() ==> owed_before(
            merged[index],
            merged[list[owed_position(list, merged, index)]],
        ),
    decreases list.len(),
{
    if list.len() > 0 && !owed_before(merged[index], merged[list[0]]) {
        let rest = list.drop_first();
        lemma_owed_position(rest, merged, index);
        assert forall|i: int| 0 <= i < owed_position(list, merged, index) implies !owed_before(
            merged[index],
            merged[#[trigger] list[i]],
        ) by {
            if i > 0 {
                assert(rest[i - 1] == list[i]);
            }
        }
    }
}

proof fn lemma_owed_in_order(merged: Seq<MergedView>, claimed: Seq<bool>, n: int)
    ensures
        owed_in_order(owed(merged, claimed, n), merged),
    decreases n,
{
    if n > 0 {
        lemma_owed_in_order(merged, claimed, n - 1);
        let front = owed(merged, claimed, n - 1);
        if !claimed[n - 1] {
            lemma_owed_position(front, merged, n - 1);
            let at = owed_position(front, merged, n - 1);
            let list = front.insert(at, n - 1);
            assert forall|i: int, j: int| 0 <= i < j < list.len() implies !owed_before(
                merged[#[trigger] list[j]],
                merged[#[trigger] list[i]],
            ) by {
                if i == at {
                    let b = merged[front[j - 1]];
                    let a = merged[front[at]];
                    if at < j - 1 {
                        assert(!owed_before(merged[front[j - 1]], merged[front[at]]));
                    }
                } else if j == at {
                    assert(!owed_before(merged[n - 1], merged[front[i]]));
                } else {
                    let p = if i < at {
                        i
                    } else {
                        i - 1
                    };
                    let q = if j < at {
                        j
                    } else {
                        j - 1
                    };
                    assert(list[i] == front[p] && list[j] == front[q]);
                }
            }
        }
    }
}

/// Rows that no part was published for stand behind all parts, in the order of their old places
/// and, at one place, of their numbers.
pub proof fn law_owed_rows_keep_their_order(
    merged: Seq<MergedView>,
    claimed: Seq<bool>,
    i: int,
    j: int,
)
    requires
        0 <= i < j < owed(merged, claimed, merged.len() as int).len(),
    ensures
        ({
            let list = owed(merged, claimed, merged.len() as int);
            let a = merged[list[i]];
            let b = merged[list[j]];
            &&& a.segment_order <= b.segment_order
            &&& a.segment_order == b.segment_order ==> a.id <= b.id
        }),
{
    lemma_owed_in_order(merged, claimed, merged.len() as int);
}

/// Every row in conflict counts one.
pub proof fn law_conflicts_are_counted(keep: Seq<PlannedView>, row: PlannedView)
    ensures
        conflicts_in(Seq::<PlannedView>::empty()) == 0,
        row.status == "conflict"@ ==> conflicts_in(keep.push(row)) == conflicts_in(keep) + 1,
        row.status != "conflict"@ ==> conflicts_in(keep.push(row)) == conflicts_in(keep),
{
    assert(keep.push(row).drop_last() =~= keep);
}

/// A session is left as it is only where every row of it is of the present lifecycle.
pub proof fn law_one_old_row_is_enough(versions: Seq<i64>, i: int)
    requires
        0 <= i < versions.len(),
        versions[i] != 2,
    ensures
        !all_current(versions),
{
}

/// What is told of a session that is left as it is.
pub proof fn law_what_is_told_of_a_session(rows: nat)
    ensures
        untouched_note(SessionStep::SkipEmpty, rows) == Some(("skipped"@, "no lifecycle rows"@)),
        untouched_note(SessionStep::SkipFinalized, rows) == Some(
            ("skipped_finalized"@, decimal(rows) + " legacy rows left untouched"@),
        ),
        untouched_note(SessionStep::SkipCurrent, rows) == Some(
            ("skipped"@, "already lifecycle v2"@),
        ),
        untouched_note(SessionStep::Corrupt, rows) == Some(
            (
                "corrupt_videos_json"@,
                "published part snapshot is unparseable; session left at lifecycle v1"@,
            ),
        ),
        untouched_note(SessionStep::Rebuild, rows) is None,
{
}

/// A plan is written in this order: every kept row is parked at a place below zero of its own,
/// every duplicate is detached, every kept row gets its place, the made rows are added and the
/// events are noted.
pub proof fn law_a_plan_is_written_in_order(plan: PlanView, i: int)
    requires
        plan.keep.len() <= i64::MAX,
    ensures
        ({
            let writes = plan_writes(plan);
            let kept = plan.keep.len() as int;
            let detached = plan.detach.len() as int;
            let made = plan.synthetic.len() as int;
            &&& writes.len() == 2 * kept + detached + made + plan.events.len()
            &&& 0 <= i < kept ==> writes[i] == (PlanWrite::Park {
                id: plan.keep[i].id,
                order: (-1 - i) as i64,
            }) && writes[kept + detached + i] == (PlanWrite::Keep { index: i as usize })
            &&& 0 <= i < detached ==> writes[kept + i] == (PlanWrite::Detach {
                id: plan.detach[i],
            })
            &&& 0 <= i < made ==> writes[2 * kept + detached + i] == (PlanWrite::Insert {
                index: i as usize,
            })
            &&& 0 <= i < plan.events.len() ==> writes[2 * kept + detached + made + i] == (
            PlanWrite::Record { index: i as usize })
        }),
{
}

/// The journal moves on with a session behind the last one, counting it once with what was done to
/// it, and stays where it is with any other.
pub proof fn law_the_journal_moves_on(
    journal: BackfillJournal,
    session_id: i64,
    migrated: i64,
    synthetic: i64,
    conflicts: i64,
)
    requires
        journal.summary.processed_sessions < i64::MAX,
        i64::MIN <= journal.summary.migrated_rows + migrated <= i64::MAX,
        i64::MIN <= journal.summary.synthetic_rows + synthetic <= i64::MAX,
        i64::MIN <= journal.summary.conflict_rows + conflicts <= i64::MAX,
    ensures
        ({
            let after = advanced(journal, session_id, migrated, synthetic, conflicts);
            &&& session_id > journal.last_session_id ==> {
                &&& after.last_session_id == session_id
                &&& after.summary.processed_sessions == journal.summary.processed_sessions + 1
                &&& after.summary.migrated_rows == journal.summary.migrated_rows + migrated
                &&& after.summary.synthetic_rows == journal.summary.synthetic_rows + synthetic
                &&& after.summary.conflict_rows == journal.summary.conflict_rows + conflicts
                &&& after.summary.completed == journal.summary.completed
            }
            &&& session_id <= journal.last_session_id ==> after == journal
        }),
{
}

/// A row without duplicates stays exactly what it was.
pub proof fn law_a_single_row_stays_what_it_was(row: RowView)
    ensures
        ({
            let stays = merged_group(seq![row]);
            &&& stays.id == row.id
            &&& stays.status == row.status
            &&& stays.attempts == row.attempts
            &&& stays.aid == row.aid
            &&& stays.last_error == row.last_error
            &&& stays.remote == row.remote
            &&& stays.video_json == row.video_json
            &&& stays.segment_order == row.segment_order
            &&& stays.detached.len() == 0
        }),
{
    let rows = seq![row];
    assert(rows.drop_last() =~= Seq::<RowView>::empty());
    assert(ranked(rows.drop_last()) =~= Seq::<RowView>::empty());
    assert(ranked(rows) =~= seq![row]);
    assert(merged_group(rows) == winning(row));
}

/// A published part is known by the stem of its title, and by the stem of its remote name where it
/// has no title; a row is known by the stem of its file.
pub proof fn law_what_a_part_is_known_by(part: PublishedPart, row: LegacyRow)
    ensures
        part.title is Some ==> part@.stem == path_stem(part.title->0@),
        part.title is None ==> part@.stem == path_stem(part.filename@),
        part@.filename == part.filename@,
        part@.json == part.json@,
        row@.stem == path_stem(row.identity@),
        row@.identity == row.identity@,
{
}

} // verus!
