//! Which sessions a scan submits.
use crate::order::{
    first_keys, key_ids, law_no_key_is_lost, law_ordering_only_reorders,
    law_smaller_keys_come_first, sorted_keys, SortKey,
};
use crate::submission_scheduler::{
    all_recorded, due_keys, due_time, is_due, law_every_outcome_is_reported,
    SessionSubmissionOutcome, SubmissionRow, MAX_SCAN_CANDIDATES,
};
use crate::text::opt_view;
use crate::time::Timestamp;
use vstd::prelude::*;

verus! {

/// The sessions that a scan of `rows` takes at `now`.
pub open spec fn taken(rows: Seq<SubmissionRow>, now: Timestamp, include_recent_blocked: bool) -> Seq<
    i64,
> {
    key_ids(
        first_keys(
            sorted_keys(due_keys(rows, now, include_recent_blocked)),
            MAX_SCAN_CANDIDATES as int,
        ),
    )
}

spec fn key_of(row: SubmissionRow) -> SortKey {
    SortKey { major: due_time(row) as i128, minor: 0, id: row.id }
}

proof fn lemma_due_keys(
    rows: Seq<SubmissionRow>,
    now: Timestamp,
    include_recent_blocked: bool,
)
    ensures
        due_keys(rows, now, include_recent_blocked).len() <= rows.len(),
        forall|i: int|
            0 <= i < rows.len() && is_due(#[trigger] rows[i], now, include_recent_blocked)
                ==> due_keys(rows, now, include_recent_blocked).contains(key_of(rows[i])),
        forall|k: int|
            0 <= k < due_keys(rows, now, include_recent_blocked).len() ==> exists|i: int|
                0 <= i < rows.len() && is_due(#[trigger] rows[i], now, include_recent_blocked)
                    && key_of(rows[i]) == #[trigger] due_keys(rows, now, include_recent_blocked)[k],
    decreases rows.len(),
{
    if rows.len() > 0 {
        let front = rows.drop_last();
        let rest = due_keys(front, now, include_recent_blocked);
        let all = due_keys(rows, now, include_recent_blocked);
        lemma_due_keys(front, now, include_recent_blocked);
        assert forall|i: int|
            0 <= i < rows.len() && is_due(
                #[trigger] rows[i],
                now,
                include_recent_blocked,
            ) implies all.contains(key_of(rows[i])) by {
            if i < front.len() {
                assert(front[i] == rows[i]);
                let k = choose|k: int| 0 <= k < rest.len() && rest[k] == key_of(front[i]);
                assert(all[k] == rest[k]);
            } else {
                assert(all[all.len() - 1] == key_of(rows[i]));
            }
        }
        assert forall|k: int| 0 <= k < all.len() implies exists|i: int|
            0 <= i < rows.len() && is_due(#[trigger] rows[i], now, include_recent_blocked)
                && key_of(rows[i]) == #[trigger] all[k] by {
            if k < rest.len() {
                assert(all[k] == rest[k]);
                let i = choose|i: int|
                    0 <= i < front.len() && is_due(
                        #[trigger] front[i],
                        now,
                        include_recent_blocked,
                    ) && key_of(front[i]) == rest[k];
                assert(rows[i] == front[i]);
            } else {
                assert(is_due(rows[rows.len() - 1], now, include_recent_blocked));
            }
        }
    }
}

/// A session that was asked for, that nobody works on and whose time has come is submitted by the
/// next scan of up to 128 sessions: whatever its state, unless it is finalized, may have been
/// submitted already or was found to wait for its segments less than ten minutes ago, and the
/// last does not keep it from a scan that looks at those too.
pub proof fn law_what_is_due_is_submitted(
    rows: Seq<SubmissionRow>,
    now: Timestamp,
    include_recent_blocked: bool,
    i: int,
)
    requires
        rows.len() <= 128,
        0 <= i < rows.len(),
        rows[i].status@ != "finalized"@,
        rows[i].submit_requested_at is Some,
        rows[i].submit_claim_token is None,
        rows[i].next_submit_at matches Some(at) ==> at@ <= now@,
        rows[i].submit_state matches Some(state) ==> state@ != "ok_no_aid"@ && state@
            != "submitting"@ && (state@ != "blocked_missing_segments"@ || include_recent_blocked
            || now@ - rows[i].updated_at@ >= 600 * 1_000_000_000),
    ensures
        taken(rows, now, include_recent_blocked).contains(rows[i].id),
{
    let keys = due_keys(rows, now, include_recent_blocked);
    lemma_due_keys(rows, now, include_recent_blocked);
    assert(is_due(rows[i], now, include_recent_blocked));
    law_no_key_is_lost(keys, key_of(rows[i]));
    law_ordering_only_reorders(keys);
    let sorted = sorted_keys(keys);
    assert(first_keys(sorted, 128) == sorted);
    let k = choose|k: int| 0 <= k < sorted.len() && sorted[k] == key_of(rows[i]);
    assert(taken(rows, now, include_recent_blocked)[k] == rows[i].id);
}

/// A session in the state `failed` that was asked for, that nobody works on and that is not
/// finalized is submitted again by the next scan of up to 128 sessions once its time has come.
pub proof fn law_a_failed_submission_is_tried_again(
    rows: Seq<SubmissionRow>,
    now: Timestamp,
    include_recent_blocked: bool,
    i: int,
    at: Timestamp,
)
    requires
        rows.len() <= 128,
        0 <= i < rows.len(),
        rows[i].status@ != "finalized"@,
        rows[i].submit_requested_at is Some,
        rows[i].submit_claim_token is None,
        rows[i].next_submit_at == Some(at),
        at@ <= now@,
        opt_view(rows[i].submit_state) == Some("failed"@),
    ensures
        taken(rows, now, include_recent_blocked).contains(rows[i].id),
{
    lemma_states();
    law_what_is_due_is_submitted(rows, now, include_recent_blocked, i);
}

pub(crate) proof fn lemma_states()
    ensures
        "failed"@ != "ok_no_aid"@,
        "failed"@ != "submitting"@,
        "failed"@ != "blocked_missing_segments"@,
{
    reveal_strlit("failed");
    reveal_strlit("ok_no_aid");
    reveal_strlit("submitting");
    reveal_strlit("blocked_missing_segments");
    assert("failed"@.len() == 6);
    assert("ok_no_aid"@.len() == 9);
    assert("submitting"@.len() == 10);
    assert("blocked_missing_segments"@.len() == 24);
}

/// Nothing else is submitted: what a scan takes is one of the given sessions, was asked for, is
/// not claimed, not finalized and not in a state in which it may have been submitted already, its
/// time has come, and it was not found to wait for its segments within the last ten minutes. No
/// more than 128 are taken.
pub proof fn law_only_what_is_due_is_submitted(
    rows: Seq<SubmissionRow>,
    now: Timestamp,
    include_recent_blocked: bool,
    k: int,
)
    requires
        0 <= k < taken(rows, now, include_recent_blocked).len(),
    ensures
        taken(rows, now, include_recent_blocked).len() <= 128,
        exists|i: int|
            0 <= i < rows.len() && (#[trigger] rows[i]).id == taken(
                rows,
                now,
                include_recent_blocked,
            )[k] && rows[i].status@ != "finalized"@ && rows[i].submit_requested_at is Some
                && rows[i].submit_claim_token is None && (rows[i].next_submit_at matches Some(at)
                ==> at@ <= now@) && (rows[i].submit_state matches Some(state) ==> state@
                != "ok_no_aid"@ && state@ != "submitting"@ && (state@
                == "blocked_missing_segments"@ && !include_recent_blocked ==> now@
                - rows[i].updated_at@ >= 600 * 1_000_000_000)),
{
    let keys = due_keys(rows, now, include_recent_blocked);
    let sorted = sorted_keys(keys);
    lemma_due_keys(rows, now, include_recent_blocked);
    law_ordering_only_reorders(keys);
    let first = first_keys(sorted, 128);
    assert(first[k] == sorted[k]);
    law_no_key_is_lost(keys, sorted[k]);
    let j = choose|j: int| 0 <= j < keys.len() && keys[j] == sorted[k];
    let i = choose|i: int|
        0 <= i < rows.len() && is_due(#[trigger] rows[i], now, include_recent_blocked) && key_of(
            rows[i],
        ) == keys[j];
    assert(rows[i].id == taken(rows, now, include_recent_blocked)[k]);
}

/// Once a session is due it stays due while its row is unchanged, and a scan that looks at lately
/// blocked sessions too leaves out none that the other takes.
pub proof fn law_due_stays_due(
    row: SubmissionRow,
    now: Timestamp,
    later: Timestamp,
    include_recent_blocked: bool,
)
    requires
        now@ <= later@,
        is_due(row, now, include_recent_blocked),
    ensures
        is_due(row, later, include_recent_blocked),
        is_due(row, now, true),
{
}

/// Whatever a scan of up to 128 sessions takes, a later scan of the same sessions takes too.
pub proof fn law_a_later_scan_takes_it_too(
    rows: Seq<SubmissionRow>,
    now: Timestamp,
    later: Timestamp,
    include_recent_blocked: bool,
    id: i64,
)
    requires
        rows.len() <= 128,
        now@ <= later@,
        taken(rows, now, include_recent_blocked).contains(id),
    ensures
        taken(rows, later, include_recent_blocked).contains(id),
{
    let ids = taken(rows, now, include_recent_blocked);
    let k = choose|k: int| 0 <= k < ids.len() && ids[k] == id;
    law_only_what_is_due_is_submitted(rows, now, include_recent_blocked, k);
    let i = choose|i: int|
        0 <= i < rows.len() && (#[trigger] rows[i]).id == ids[k] && rows[i].status@
            != "finalized"@ && rows[i].submit_requested_at is Some
            && rows[i].submit_claim_token is None && (rows[i].next_submit_at matches Some(at)
            ==> at@ <= now@) && (rows[i].submit_state matches Some(state) ==> state@
            != "ok_no_aid"@ && state@ != "submitting"@ && (state@ == "blocked_missing_segments"@
            && !include_recent_blocked ==> now@ - rows[i].updated_at@ >= 600 * 1_000_000_000));
    law_what_is_due_is_submitted(rows, later, include_recent_blocked, i);
}

/// The session that has waited longest goes first: of two that are taken the first was to be
/// tried no later than the second, where a session without a time of its own counts from when it
/// was asked for; and of two with the same time the one with the smaller id goes first.
pub proof fn law_the_longest_waiting_goes_first(
    rows: Seq<SubmissionRow>,
    now: Timestamp,
    include_recent_blocked: bool,
    a: int,
    b: int,
    time_a: Timestamp,
    time_b: Timestamp,
    p: int,
    q: int,
)
    requires
        0 <= a < rows.len(),
        0 <= b < rows.len(),
        rows[a].id != rows[b].id,
        forall|i: int, j: int|
            0 <= i < j < rows.len() ==> (#[trigger] rows[i]).id != (#[trigger] rows[j]).id,
        rows[a].next_submit_at == Some(time_a) || (rows[a].next_submit_at is None
            && rows[a].submit_requested_at == Some(time_a)),
        rows[b].next_submit_at == Some(time_b) || (rows[b].next_submit_at is None
            && rows[b].submit_requested_at == Some(time_b)),
        0 <= p < q < taken(rows, now, include_recent_blocked).len(),
        taken(rows, now, include_recent_blocked)[p] == rows[a].id,
        taken(rows, now, include_recent_blocked)[q] == rows[b].id,
    ensures
        time_a@ <= time_b@,
        time_a@ == time_b@ ==> rows[a].id < rows[b].id,
{
    let keys = due_keys(rows, now, include_recent_blocked);
    let sorted = sorted_keys(keys);
    lemma_due_keys(rows, now, include_recent_blocked);
    law_ordering_only_reorders(keys);
    assert(first_keys(sorted, 128)[p] == sorted[p]);
    assert(first_keys(sorted, 128)[q] == sorted[q]);
    law_smaller_keys_come_first(keys, p, q);
    lemma_key_is_of_row(rows, now, include_recent_blocked, sorted[p], a);
    lemma_key_is_of_row(rows, now, include_recent_blocked, sorted[q], b);
    Timestamp::lemma_view_fits(time_a);
    Timestamp::lemma_view_fits(time_b);
}

proof fn lemma_key_is_of_row(
    rows: Seq<SubmissionRow>,
    now: Timestamp,
    include_recent_blocked: bool,
    key: SortKey,
    a: int,
)
    requires
        sorted_keys(due_keys(rows, now, include_recent_blocked)).contains(key),
        0 <= a < rows.len(),
        key.id == rows[a].id,
        forall|i: int, j: int|
            0 <= i < j < rows.len() ==> (#[trigger] rows[i]).id != (#[trigger] rows[j]).id,
    ensures
        key == key_of(rows[a]),
{
    let keys = due_keys(rows, now, include_recent_blocked);
    lemma_due_keys(rows, now, include_recent_blocked);
    law_no_key_is_lost(keys, key);
    let j = choose|j: int| 0 <= j < keys.len() && keys[j] == key;
    let i = choose|i: int|
        0 <= i < rows.len() && is_due(#[trigger] rows[i], now, include_recent_blocked) && key_of(
            rows[i],
        ) == keys[j];
    assert(rows[i].id == rows[a].id);
}

/// A report names each session under what came of it: what was submitted as submitted, what waits
/// for its segments as blocked, what is to be tried again, what another run holds, what needs a
/// look and what failed on lists of their own, and what was not to be submitted as skipped.
pub proof fn law_a_report_says_what_came_of_it(
    candidates: int,
    outcomes: Seq<(i64, SessionSubmissionOutcome)>,
    i: int,
)
    requires
        0 <= i < outcomes.len(),
    ensures
        ({
            let report = all_recorded(candidates, outcomes);
            let id = outcomes[i].0;
            match outcomes[i].1 {
                SessionSubmissionOutcome::Blocked => report.blocked.contains(id),
                SessionSubmissionOutcome::Submitted => report.submitted.contains(id),
                SessionSubmissionOutcome::RetryScheduled => report.retry_scheduled.contains(id),
                SessionSubmissionOutcome::ClaimedElsewhere => report.claimed_elsewhere.contains(id),
                SessionSubmissionOutcome::ManualInspectionRequired =>
                    report.manual_inspection.contains(id),
                SessionSubmissionOutcome::NotRequested => report.skipped.contains(id),
                SessionSubmissionOutcome::NotDue => report.skipped.contains(id),
                SessionSubmissionOutcome::Finalized => report.skipped.contains(id),
                SessionSubmissionOutcome::Failed => report.failed.contains(id),
            }
        }),
        all_recorded(candidates, outcomes).blocked.len() + all_recorded(
            candidates,
            outcomes,
        ).submitted.len() + all_recorded(candidates, outcomes).retry_scheduled.len()
            + all_recorded(candidates, outcomes).claimed_elsewhere.len() + all_recorded(
            candidates,
            outcomes,
        ).manual_inspection.len() + all_recorded(candidates, outcomes).skipped.len()
            + all_recorded(candidates, outcomes).failed.len() == outcomes.len(),
{
    law_every_outcome_is_reported(candidates, outcomes);
}

} // verus!
