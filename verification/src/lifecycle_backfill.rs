//! Rebuilding the ledger of upload sessions that were made before segments had a lifecycle.
//!
//! The rebuilt ledger is careful: no row is dropped (duplicates are detached), a published
//! session is never touched, and where two rows claim different published parts for one source
//! nothing is guessed.
use crate::path_safety::{filename_stem, path_stem};
use crate::text::{
    decimal, decimal_text, opt_own, opt_view, own, signed_decimal, signed_decimal_text, str_eq,
    trim_spec, trim_str,
};
use crate::time::Timestamp;
use vstd::multiset::Multiset;
use vstd::prelude::*;
use vstd::string::*;

verus! {

/// The name under which progress is kept.
pub const BACKFILL_NAME: &'static str = "upload_lifecycle_v2";

/// The most sessions that are read at once.
pub const SESSION_BATCH: i64 = 50;

/// The status of a duplicate that was detached from its session.
pub const MERGED_DUPLICATE: &'static str = "merged_duplicate";

/// The status of a row that claims another published part than the one it was matched with.
pub const CONFLICT: &'static str = "conflict";

/// The status of a row whose part is published.
pub const SUCCEEDED: &'static str = "succeeded";

/// A row from before segments had a lifecycle. `identity` is the path its file is known by,
/// `remote_filename` the published part it claims.
#[derive(Debug)]
pub struct LegacyRow {
    pub id: i64,
    pub identity: String,
    pub segment_order: i64,
    pub status: String,
    pub attempts: i64,
    pub aid: Option<i64>,
    pub last_error: Option<String>,
    pub video_json: Option<String>,
    pub remote_filename: Option<String>,
    pub updated_at: Timestamp,
}

/// A legacy row as mathematical values, with the stem of its file.
pub struct RowView {
    pub id: i64,
    pub identity: Seq<char>,
    pub stem: Seq<char>,
    pub segment_order: i64,
    pub status: Seq<char>,
    pub attempts: i64,
    pub aid: Option<i64>,
    pub last_error: Option<Seq<char>>,
    pub video_json: Option<Seq<char>>,
    pub remote: Option<Seq<char>>,
    pub updated_at: int,
}

impl View for LegacyRow {
    type V = RowView;

    open spec fn view(&self) -> RowView {
        RowView {
            id: self.id,
            identity: self.identity@,
            stem: path_stem(self.identity@),
            segment_order: self.segment_order,
            status: self.status@,
            attempts: self.attempts,
            aid: self.aid,
            last_error: opt_view(self.last_error),
            video_json: opt_view(self.video_json),
            remote: opt_view(self.remote_filename),
            updated_at: self.updated_at@,
        }
    }
}

/// A published part: its remote name, its title and its JSON.
#[derive(Debug)]
pub struct PublishedPart {
    pub filename: String,
    pub title: Option<String>,
    pub json: String,
}

/// The name a part was uploaded under: its title, or its remote name where it has none.
pub open spec fn uploaded_name(title: Option<Seq<char>>, filename: Seq<char>) -> Seq<char> {
    match title {
        Some(t) => t,
        None => filename,
    }
}

/// A published part as mathematical values, with the stem of the name it was uploaded under.
pub struct PartView {
    pub filename: Seq<char>,
    pub stem: Seq<char>,
    pub json: Seq<char>,
}

impl View for PublishedPart {
    type V = PartView;

    open spec fn view(&self) -> PartView {
        PartView {
            filename: self.filename@,
            stem: path_stem(uploaded_name(opt_view(self.title), self.filename@)),
            json: self.json@,
        }
    }
}

/// The name a part was uploaded under: its title, or its remote name where it has none.
pub fn part_name<'a>(title: Option<&'a str>, filename: &'a str) -> (name: &'a str)
    ensures
        name@ == (match title {
            Some(t) => t@,
            None => filename@,
        }),
{
    match title {
        Some(t) => t,
        None => filename,
    }
}

/// A row of the rebuilt ledger.
#[derive(Debug, PartialEq, Eq)]
pub struct PlannedRow {
    pub id: i64,
    pub segment_order: i64,
    pub status: String,
    pub normalized_file_path: String,
    pub video_json: Option<String>,
    pub attempts: i64,
    pub aid: Option<i64>,
    pub last_error: Option<String>,
}

/// A row of the rebuilt ledger as mathematical values.
pub struct PlannedView {
    pub id: i64,
    pub segment_order: int,
    pub status: Seq<char>,
    pub path: Seq<char>,
    pub video_json: Option<Seq<char>>,
    pub attempts: i64,
    pub aid: Option<i64>,
    pub last_error: Option<Seq<char>>,
}

impl View for PlannedRow {
    type V = PlannedView;

    open spec fn view(&self) -> PlannedView {
        PlannedView {
            id: self.id,
            segment_order: self.segment_order as int,
            status: self.status@,
            path: self.normalized_file_path@,
            video_json: opt_view(self.video_json),
            attempts: self.attempts,
            aid: self.aid,
            last_error: opt_view(self.last_error),
        }
    }
}

/// A row that stands for a published part whose source is not known.
#[derive(Debug, PartialEq, Eq)]
pub struct SyntheticRow {
    pub segment_order: i64,
    pub file_path: String,
    pub video_json: String,
}

/// A synthetic row as mathematical values.
pub struct SyntheticView {
    pub segment_order: int,
    pub file_path: Seq<char>,
    pub video_json: Seq<char>,
}

impl View for SyntheticRow {
    type V = SyntheticView;

    open spec fn view(&self) -> SyntheticView {
        SyntheticView {
            segment_order: self.segment_order as int,
            file_path: self.file_path@,
            video_json: self.video_json@,
        }
    }
}

/// Something about a row that is written into the history.
#[derive(Debug, PartialEq, Eq)]
pub struct PlanEvent {
    pub missing_segment_id: Option<i64>,
    pub kind: String,
    pub detail: String,
}

/// An event as mathematical values.
pub struct EventView {
    pub id: Option<i64>,
    pub kind: Seq<char>,
    pub detail: Seq<char>,
}

impl View for PlanEvent {
    type V = EventView;

    open spec fn view(&self) -> EventView {
        EventView { id: self.missing_segment_id, kind: self.kind@, detail: self.detail@ }
    }
}

/// What the ledger of a session becomes.
#[derive(Debug, PartialEq, Eq)]
pub struct BackfillPlan {
    pub keep: Vec<PlannedRow>,
    /// Duplicates: they stay rows, and leave the ledger of the session.
    pub detach: Vec<i64>,
    pub synthetic: Vec<SyntheticRow>,
    pub events: Vec<PlanEvent>,
}

/// What the ledger of a session becomes, as mathematical values.
#[verifier::ext_equal]
pub struct PlanView {
    pub keep: Seq<PlannedView>,
    pub detach: Seq<i64>,
    pub synthetic: Seq<SyntheticView>,
    pub events: Seq<EventView>,
}

/// The views of events.
pub open spec fn event_views(events: Seq<PlanEvent>) -> Seq<EventView> {
    events.map_values(|e: PlanEvent| e@)
}

impl View for BackfillPlan {
    type V = PlanView;

    open spec fn view(&self) -> PlanView {
        PlanView {
            keep: self.keep@.map_values(|r: PlannedRow| r@),
            detach: self.detach@,
            synthetic: self.synthetic@.map_values(|r: SyntheticRow| r@),
            events: event_views(self.events@),
        }
    }
}

/// The position of the first group whose rows have `identity`, or the number of groups.
pub open spec fn group_position(groups: Seq<Seq<RowView>>, identity: Seq<char>) -> int
    decreases groups.len(),
{
    if groups.len() == 0 || (groups[0].len() > 0 && groups[0][0].identity == identity) {
        0
    } else {
        1 + group_position(groups.drop_first(), identity)
    }
}

/// The groups with one more row: in the group of its identity, or in one of its own.
pub open spec fn placed(groups: Seq<Seq<RowView>>, row: RowView) -> Seq<Seq<RowView>> {
    let at = group_position(groups, row.identity);
    if 0 <= at < groups.len() {
        groups.update(at, groups[at].push(row))
    } else {
        groups.push(seq![row])
    }
}

/// The rows by identity, in the order in which the identities first occur.
pub open spec fn grouped(rows: Seq<RowView>) -> Seq<Seq<RowView>>
    decreases rows.len(),
{
    if rows.len() == 0 {
        Seq::empty()
    } else {
        placed(grouped(rows.drop_last()), rows.last())
    }
}

/// Whether `a` goes strictly before `b` among rows for one source: a published one first, then
/// the one updated later, then the one with the higher id.
pub open spec fn precedes(a: RowView, b: RowView) -> bool {
    let a_done = a.status == SUCCEEDED@;
    let b_done = b.status == SUCCEEDED@;
    if a_done != b_done {
        a_done
    } else if a.updated_at != b.updated_at {
        a.updated_at > b.updated_at
    } else {
        a.id > b.id
    }
}

/// The position at which `row` joins an ordered list: before the first row it precedes.
pub open spec fn rank_position(list: Seq<RowView>, row: RowView) -> int
    decreases list.len(),
{
    if list.len() == 0 || precedes(row, list[0]) {
        0
    } else {
        1 + rank_position(list.drop_first(), row)
    }
}

/// The rows in order of precedence; rows that precede neither way stay in their order.
pub open spec fn ranked(rows: Seq<RowView>) -> Seq<RowView>
    decreases rows.len(),
{
    if rows.len() == 0 {
        Seq::empty()
    } else {
        let front = ranked(rows.drop_last());
        front.insert(rank_position(front, rows.last()), rows.last())
    }
}

/// The one row that the rows for one source become.
pub struct MergedView {
    pub id: i64,
    pub identity: Seq<char>,
    pub stem: Seq<char>,
    pub segment_order: i64,
    pub status: Seq<char>,
    pub video_json: Option<Seq<char>>,
    pub remote: Option<Seq<char>>,
    pub attempts: i64,
    pub aid: Option<i64>,
    pub last_error: Option<Seq<char>>,
    /// When the row was updated whose error is kept, and its id.
    pub told_by: (int, i64),
    pub detached: Seq<i64>,
}

/// The merged row as far as its first row goes.
pub open spec fn winning(row: RowView) -> MergedView {
    MergedView {
        id: row.id,
        identity: row.identity,
        stem: row.stem,
        segment_order: row.segment_order,
        status: row.status,
        video_json: row.video_json,
        remote: row.remote,
        attempts: row.attempts,
        aid: row.aid,
        last_error: row.last_error,
        told_by: (row.updated_at, row.id),
        detached: Seq::empty(),
    }
}

/// Whether two rows claim different published parts.
pub open spec fn claims_differ(merged: MergedView, row: RowView) -> bool {
    merged.remote is Some && row.remote is Some && merged.remote != row.remote
}

/// Whether a row was updated after another, or at the same time under a larger id. Both are told
/// by the time of their update and their id.
pub open spec fn updated_after(a: (int, i64), b: (int, i64)) -> bool {
    a.0 > b.0 || (a.0 == b.0 && a.1 > b.1)
}

/// Whether the error of `row` takes the place of the one that is kept: it is newer, or the first.
pub open spec fn tells_newer(merged: MergedView, row: RowView) -> bool {
    row.last_error is Some && (merged.last_error is None || updated_after(
        (row.updated_at, row.id),
        merged.told_by,
    ))
}

/// The merged row with one more duplicate taken in: the most attempts, the first target and the
/// newest error are kept, a claim fills one that is missing, and a different claim is a conflict.
pub open spec fn absorbed(merged: MergedView, row: RowView) -> MergedView {
    let fills = merged.remote is None && row.remote is Some;
    MergedView {
        attempts: if merged.attempts >= row.attempts {
            merged.attempts
        } else {
            row.attempts
        },
        aid: if merged.aid is Some {
            merged.aid
        } else {
            row.aid
        },
        last_error: if tells_newer(merged, row) {
            row.last_error
        } else {
            merged.last_error
        },
        told_by: if tells_newer(merged, row) {
            (row.updated_at, row.id)
        } else {
            merged.told_by
        },
        status: if claims_differ(merged, row) {
            CONFLICT@
        } else if fills {
            SUCCEEDED@
        } else {
            merged.status
        },
        remote: if fills {
            row.remote
        } else {
            merged.remote
        },
        video_json: if fills {
            row.video_json
        } else {
            merged.video_json
        },
        detached: merged.detached.push(row.id),
        ..merged
    }
}

/// The event of a duplicate with a different claim.
pub open spec fn claim_event(merged: MergedView, row: RowView) -> EventView {
    EventView {
        id: Some(merged.id),
        kind: CONFLICT@,
        detail: "row #"@ + signed_decimal(row.id as int) + " claims remote "@ + row.remote->0
            + ", kept "@ + merged.remote->0,
    }
}

/// The event of a duplicate.
pub open spec fn duplicate_event(merged: MergedView, row: RowView) -> EventView {
    EventView {
        id: Some(row.id),
        kind: MERGED_DUPLICATE@,
        detail: "merged into #"@ + signed_decimal(merged.id as int) + " for "@ + merged.identity,
    }
}

/// The events of taking in one more duplicate.
pub open spec fn absorb_events(merged: MergedView, row: RowView) -> Seq<EventView> {
    if claims_differ(merged, row) {
        seq![claim_event(merged, row), duplicate_event(merged, row)]
    } else {
        seq![duplicate_event(merged, row)]
    }
}

/// The row that ordered rows for one source become.
pub open spec fn merged_list(list: Seq<RowView>) -> MergedView
    decreases list.len(),
{
    if list.len() <= 1 {
        winning(list[0])
    } else {
        absorbed(merged_list(list.drop_last()), list.last())
    }
}

/// The events of merging ordered rows for one source.
pub open spec fn merged_list_events(list: Seq<RowView>) -> Seq<EventView>
    decreases list.len(),
{
    if list.len() <= 1 {
        Seq::empty()
    } else {
        merged_list_events(list.drop_last()) + absorb_events(
            merged_list(list.drop_last()),
            list.last(),
        )
    }
}

/// The row that the rows for one source become.
pub open spec fn merged_group(rows: Seq<RowView>) -> MergedView {
    merged_list(ranked(rows))
}

/// The rows that groups become.
pub open spec fn merged_groups(groups: Seq<Seq<RowView>>) -> Seq<MergedView> {
    groups.map_values(|g: Seq<RowView>| merged_group(g))
}

/// The ids that merging the groups detaches.
pub open spec fn detached_ids(merged: Seq<MergedView>) -> Seq<i64>
    decreases merged.len(),
{
    if merged.len() == 0 {
        Seq::empty()
    } else {
        detached_ids(merged.drop_last()) + merged.last().detached
    }
}

/// The events of merging the groups.
pub open spec fn group_events(groups: Seq<Seq<RowView>>) -> Seq<EventView>
    decreases groups.len(),
{
    if groups.len() == 0 {
        Seq::empty()
    } else {
        group_events(groups.drop_last()) + merged_list_events(ranked(groups.last()))
    }
}

/// What stands at a place of the published order: a row, or nothing that is known.
pub enum Slot {
    Row(int),
    Unknown,
}

/// Matching published parts with rows, as far as it got.
#[verifier::ext_equal]
pub struct Matching {
    pub merged: Seq<MergedView>,
    pub claimed: Seq<bool>,
    pub slots: Seq<Slot>,
    pub events: Seq<EventView>,
}

/// The first row with `stem` that no part has claimed, or the number of rows.
pub open spec fn free_position(
    merged: Seq<MergedView>,
    claimed: Seq<bool>,
    stem: Seq<char>,
    from: int,
) -> int
    decreases merged.len() - from,
{
    if from < 0 || from >= merged.len() || (!claimed[from] && merged[from].stem == stem) {
        from
    } else {
        free_position(merged, claimed, stem, from + 1)
    }
}

/// The row that a part has claimed: published with the part, unless it claims another part.
pub open spec fn matched_row(row: MergedView, part: PartView) -> MergedView {
    if row.status == CONFLICT@ {
        row
    } else if row.remote is Some && row.remote->0 != part.filename {
        MergedView { status: CONFLICT@, ..row }
    } else {
        MergedView { status: SUCCEEDED@, video_json: Some(part.json), ..row }
    }
}

/// The event of a row that claims another part than number `index`.
pub open spec fn part_event(row: MergedView, part: PartView, index: int) -> EventView {
    EventView {
        id: Some(row.id),
        kind: CONFLICT@,
        detail: "row claims remote "@ + row.remote->0 + ", session part "@ + decimal(index as nat)
            + " is "@ + part.filename,
    }
}

/// Matching with one more part, which is the next in the published order.
pub open spec fn match_part(m: Matching, part: PartView) -> Matching {
    let index = m.slots.len() as int;
    let at = free_position(m.merged, m.claimed, part.stem, 0);
    if 0 <= at < m.merged.len() {
        let row = m.merged[at];
        Matching {
            merged: m.merged.update(at, matched_row(row, part)),
            claimed: m.claimed.update(at, true),
            slots: m.slots.push(Slot::Row(at)),
            events: if row.status != CONFLICT@ && row.remote is Some && row.remote->0
                != part.filename {
                m.events.push(part_event(row, part, index))
            } else {
                m.events
            },
        }
    } else {
        Matching { slots: m.slots.push(Slot::Unknown), ..m }
    }
}

/// Matching of all parts.
pub open spec fn match_parts(start: Matching, parts: Seq<PartView>) -> Matching
    decreases parts.len(),
{
    if parts.len() == 0 {
        start
    } else {
        match_part(match_parts(start, parts.drop_last()), parts.last())
    }
}

/// Whether row `a` goes strictly before row `b` among rows that no part claimed: by their old
/// order, then by id.
pub open spec fn owed_before(a: MergedView, b: MergedView) -> bool {
    a.segment_order < b.segment_order || (a.segment_order == b.segment_order && a.id < b.id)
}

/// The position at which row `index` joins an ordered list of rows that no part claimed.
pub open spec fn owed_position(list: Seq<int>, merged: Seq<MergedView>, index: int) -> int
    decreases list.len(),
{
    if list.len() == 0 || owed_before(merged[index], merged[list[0]]) {
        0
    } else {
        1 + owed_position(list.drop_first(), merged, index)
    }
}

/// The first `n` rows that no part claimed, in their order.
pub open spec fn owed(merged: Seq<MergedView>, claimed: Seq<bool>, n: int) -> Seq<int>
    decreases n,
{
    if n <= 0 {
        Seq::empty()
    } else {
        let front = owed(merged, claimed, n - 1);
        if claimed[n - 1] {
            front
        } else {
            front.insert(owed_position(front, merged, n - 1), n - 1)
        }
    }
}

/// A merged row at its place.
pub open spec fn planned_view(row: MergedView, order: int) -> PlannedView {
    PlannedView {
        id: row.id,
        segment_order: order,
        status: row.status,
        path: row.identity,
        video_json: row.video_json,
        attempts: row.attempts,
        aid: row.aid,
        last_error: row.last_error,
    }
}

/// The path of the row that stands for part number `index` of a session.
pub open spec fn synthetic_path(session_id: i64, index: int) -> Seq<char> {
    "legacy://session/"@ + signed_decimal(session_id as int) + "/part/"@ + decimal(index as nat)
}

/// The kept rows of the first `n` places of the published order.
pub open spec fn kept_in_slots(m: Matching, n: int) -> Seq<PlannedView>
    decreases n,
{
    if n <= 0 {
        Seq::empty()
    } else {
        match m.slots[n - 1] {
            Slot::Row(at) => kept_in_slots(m, n - 1).push(planned_view(m.merged[at], n - 1)),
            Slot::Unknown => kept_in_slots(m, n - 1),
        }
    }
}

/// The synthetic rows of the first `n` places of the published order.
pub open spec fn synthetic_in_slots(
    m: Matching,
    parts: Seq<PartView>,
    session_id: i64,
    n: int,
) -> Seq<SyntheticView>
    decreases n,
{
    if n <= 0 {
        Seq::empty()
    } else {
        match m.slots[n - 1] {
            Slot::Row(_) => synthetic_in_slots(m, parts, session_id, n - 1),
            Slot::Unknown => synthetic_in_slots(m, parts, session_id, n - 1).push(
                SyntheticView {
                    segment_order: n - 1,
                    file_path: synthetic_path(session_id, n - 1),
                    video_json: parts[n - 1].json,
                },
            ),
        }
    }
}

/// The event of a synthetic row.
pub open spec fn synthetic_event(row: SyntheticView) -> EventView {
    EventView { id: None, kind: "synthetic_baseline"@, detail: row.file_path }
}

/// The rows that no part claimed, after `base` places.
pub open spec fn kept_owed(m: Matching, list: Seq<int>, base: int) -> Seq<PlannedView> {
    Seq::new(list.len(), |i: int| planned_view(m.merged[list[i]], base + i))
}

/// Matching before the first part.
pub open spec fn unmatched_start(merged: Seq<MergedView>, events: Seq<EventView>) -> Matching {
    Matching {
        merged,
        claimed: Seq::new(merged.len(), |i: int| false),
        slots: Seq::empty(),
        events,
    }
}

/// The matching of a session.
pub open spec fn session_matching(parts: Seq<PartView>, rows: Seq<RowView>) -> Matching {
    let groups = grouped(rows);
    match_parts(unmatched_start(merged_groups(groups), group_events(groups)), parts)
}

/// What the ledger of a session becomes: first the published parts in their order, each with its
/// row or a synthetic one, then the rows that no part accounts for.
pub open spec fn planned(session_id: i64, parts: Seq<PartView>, rows: Seq<RowView>) -> PlanView {
    let groups = grouped(rows);
    let m = session_matching(parts, rows);
    let rest = owed(m.merged, m.claimed, m.merged.len() as int);
    let synthetic = synthetic_in_slots(m, parts, session_id, parts.len() as int);
    PlanView {
        keep: kept_in_slots(m, parts.len() as int) + kept_owed(m, rest, parts.len() as int),
        detach: detached_ids(merged_groups(groups)),
        synthetic,
        events: m.events + synthetic.map_values(|s: SyntheticView| synthetic_event(s)),
    }
}

/// The views of rows.
pub open spec fn row_views(rows: Seq<LegacyRow>) -> Seq<RowView> {
    rows.map_values(|r: LegacyRow| r@)
}

/// The views of groups of rows.
pub open spec fn group_views(groups: Seq<Vec<LegacyRow>>) -> Seq<Seq<RowView>> {
    groups.map_values(|g: Vec<LegacyRow>| row_views(g@))
}

/// The views of published parts.
pub open spec fn part_views(parts: Seq<PublishedPart>) -> Seq<PartView> {
    parts.map_values(|p: PublishedPart| p@)
}

/// The row that the rows for one source become.
struct MergedRow {
    id: i64,
    identity: String,
    stem: String,
    segment_order: i64,
    status: String,
    video_json: Option<String>,
    remote_filename: Option<String>,
    attempts: i64,
    aid: Option<i64>,
    last_error: Option<String>,
    told_at: Timestamp,
    told_id: i64,
    detached: Vec<i64>,
}

impl View for MergedRow {
    type V = MergedView;

    closed spec fn view(&self) -> MergedView {
        MergedView {
            id: self.id,
            identity: self.identity@,
            stem: self.stem@,
            segment_order: self.segment_order,
            status: self.status@,
            video_json: opt_view(self.video_json),
            remote: opt_view(self.remote_filename),
            attempts: self.attempts,
            aid: self.aid,
            last_error: opt_view(self.last_error),
            told_by: (self.told_at@, self.told_id),
            detached: self.detached@,
        }
    }
}

spec fn merged_views(merged: Seq<MergedRow>) -> Seq<MergedView> {
    merged.map_values(|m: MergedRow| m@)
}

impl MergedRow {
    fn planned(&self, order: i64) -> (row: PlannedRow)
        ensures
            row@ == planned_view(self@, order as int),
    {
        PlannedRow {
            id: self.id,
            segment_order: order,
            status: self.status.clone(),
            normalized_file_path: self.identity.clone(),
            video_json: opt_own(&self.video_json),
            attempts: self.attempts,
            aid: self.aid,
            last_error: opt_own(&self.last_error),
        }
    }

    /// Takes in a duplicate; what happened is added to `events`.
    fn absorb(&mut self, row: &LegacyRow, events: &mut Vec<PlanEvent>)
        ensures
            final(self)@ == absorbed(old(self)@, row@),
            event_views(final(events)@) == event_views(old(events)@) + absorb_events(
                old(self)@,
                row@,
            ),
    {
        let ghost before = self@;
        let ghost events_before = events@;
        if row.attempts > self.attempts {
            self.attempts = row.attempts;
        }
        if self.aid.is_none() {
            self.aid = row.aid;
        }
        let ahead: i128 = row.updated_at.since(&self.told_at);
        let newer: bool = row.last_error.is_some() && (self.last_error.is_none() || ahead > 0 || (
        ahead == 0 && row.id > self.told_id));
        if newer {
            self.last_error = opt_own(&row.last_error);
            self.told_at = row.updated_at;
            self.told_id = row.id;
        }
        let kept: Option<String> = opt_own(&self.remote_filename);
        let mut conflict: Option<PlanEvent> = None;
        match (&kept, &row.remote_filename) {
            (Some(kept_name), Some(other)) => {
                if !str_eq(kept_name.as_str(), other.as_str()) {
                    self.status = own(CONFLICT);
                    let mut detail: String = own("row #");
                    let number: String = signed_decimal_text(row.id);
                    detail.append(number.as_str());
                    detail.append(" claims remote ");
                    detail.append(other.as_str());
                    detail.append(", kept ");
                    detail.append(kept_name.as_str());
                    let event = PlanEvent {
                        missing_segment_id: Some(self.id),
                        kind: own(CONFLICT),
                        detail,
                    };
                    assert(event@ == claim_event(before, row@));
                    conflict = Some(event);
                }
            },
            (None, Some(other)) => {
                self.remote_filename = Some(other.clone());
                self.video_json = opt_own(&row.video_json);
                self.status = own(SUCCEEDED);
            },
            _ => {},
        }
        self.detached.push(row.id);
        let mut detail: String = own("merged into #");
        let number: String = signed_decimal_text(self.id);
        detail.append(number.as_str());
        detail.append(" for ");
        detail.append(self.identity.as_str());
        let duplicate = PlanEvent {
            missing_segment_id: Some(row.id),
            kind: own(MERGED_DUPLICATE),
            detail,
        };
        assert(duplicate@ == duplicate_event(before, row@));
        match conflict {
            Some(event) => {
                events.push(event);
                events.push(duplicate);
                assert(event_views(events@) =~= event_views(events_before) + absorb_events(
                    before,
                    row@,
                ));
            },
            None => {
                events.push(duplicate);
                assert(event_views(events@) =~= event_views(events_before) + absorb_events(
                    before,
                    row@,
                ));
            },
        }
        assert(self@.detached =~= absorbed(before, row@).detached);
    }
}

proof fn lemma_group_position(groups: Seq<Seq<RowView>>, identity: Seq<char>, at: int)
    requires
        0 <= at <= groups.len(),
        forall|k: int|
            0 <= k < at ==> !((#[trigger] groups[k]).len() > 0 && groups[k][0].identity
                == identity),
        at < groups.len() ==> groups[at].len() > 0 && groups[at][0].identity == identity,
    ensures
        group_position(groups, identity) == at,
    decreases groups.len(),
{
    if groups.len() > 0 && at > 0 {
        assert(!(groups[0].len() > 0 && groups[0][0].identity == identity));
        let rest = groups.drop_first();
        assert forall|k: int| 0 <= k < at - 1 implies !((#[trigger] rest[k]).len() > 0
            && rest[k][0].identity == identity) by {
            assert(rest[k] == groups[k + 1]);
        }
        lemma_group_position(rest, identity, at - 1);
    }
}

/// The rows by identity.
fn group_rows(rows: Vec<LegacyRow>) -> (groups: Vec<Vec<LegacyRow>>)
    ensures
        group_views(groups@) == grouped(row_views(rows@)),
{
    let ghost all = row_views(rows@);
    let mut rest: Vec<LegacyRow> = rows;
    let mut groups: Vec<Vec<LegacyRow>> = Vec::new();
    let ghost mut n: int = 0;
    assert(all.take(0) =~= Seq::empty());
    assert(group_views(groups@) =~= grouped(all.take(0)));
    assert(row_views(rest@) =~= all.skip(0));
    while rest.len() > 0
        invariant
            0 <= n <= all.len(),
            row_views(rest@) == all.skip(n),
            group_views(groups@) == grouped(all.take(n)),
        decreases rest.len(),
    {
        let ghost rest_before = rest@;
        let row: LegacyRow = rest.remove(0);
        let ghost before = groups@;
        proof {
            let left = row_views(rest_before);
            assert(left == all.skip(n) && left.len() == rest_before.len());
            assert(row@ == left[0]);
            assert(left[0] == all[n]);
            assert(row_views(rest@) =~= left.skip(1));
            assert(left.skip(1) =~= all.skip(n + 1));
            assert(all.take(n + 1).drop_last() =~= all.take(n));
            assert(all.take(n + 1).last() == all[n]);
        }
        let mut at: usize = 0;
        let mut found: bool = false;
        while at < groups.len() && !found
            invariant
                at <= groups.len(),
                groups@ == before,
                found ==> at < groups.len() && row_views(groups@[at as int]@).len() > 0
                    && row_views(groups@[at as int]@)[0].identity == row@.identity,
                forall|k: int|
                    0 <= k < at ==> !((#[trigger] group_views(groups@)[k]).len() > 0
                        && group_views(groups@)[k][0].identity == row@.identity),
            decreases
                groups.len() - at,
                if found {
                    0int
                } else {
                    1int
                },
        {
            let bucket = &groups[at];
            assert(group_views(groups@)[at as int] == row_views(bucket@));
            if bucket.len() > 0 && str_eq(bucket[0].identity.as_str(), row.identity.as_str()) {
                assert(row_views(bucket@)[0] == bucket@[0]@);
                found = true;
            } else {
                assert(bucket@.len() > 0 ==> row_views(bucket@)[0] == bucket@[0]@);
                at = at + 1;
            }
        }
        proof {
            if found {
                assert(group_views(groups@)[at as int] == row_views(groups@[at as int]@));
            }
            lemma_group_position(group_views(before), row@.identity, at as int);
        }
        if found {
            let mut bucket: Vec<LegacyRow> = groups.remove(at);
            let ghost bucket_before = bucket@;
            bucket.push(row);
            assert(row_views(bucket@) =~= row_views(bucket_before).push(row@));
            groups.insert(at, bucket);
            assert(group_views(groups@) =~= group_views(before).update(
                at as int,
                group_views(before)[at as int].push(row@),
            ));
        } else {
            let mut bucket: Vec<LegacyRow> = Vec::new();
            bucket.push(row);
            assert(row_views(bucket@) =~= seq![row@]);
            groups.push(bucket);
            assert(group_views(groups@) =~= group_views(before).push(seq![row@]));
        }
        proof {
            n = n + 1;
        }
    }
    assert(all.take(n) =~= all);
    groups
}

fn row_precedes(a: &LegacyRow, b: &LegacyRow) -> (yes: bool)
    ensures
        yes == precedes(a@, b@),
{
    let a_done: bool = str_eq(a.status.as_str(), SUCCEEDED);
    let b_done: bool = str_eq(b.status.as_str(), SUCCEEDED);
    if a_done != b_done {
        a_done
    } else if a.updated_at.nanos() != b.updated_at.nanos() {
        a.updated_at.nanos() > b.updated_at.nanos()
    } else {
        a.id > b.id
    }
}

proof fn lemma_rank_position(list: Seq<RowView>, row: RowView, at: int)
    requires
        0 <= at <= list.len(),
        forall|k: int| 0 <= k < at ==> !precedes(row, #[trigger] list[k]),
        at < list.len() ==> precedes(row, list[at]),
    ensures
        rank_position(list, row) == at,
    decreases list.len(),
{
    if list.len() > 0 && at > 0 {
        assert(!precedes(row, list[0]));
        let rest = list.drop_first();
        assert forall|k: int| 0 <= k < at - 1 implies !precedes(row, #[trigger] rest[k]) by {
            assert(rest[k] == list[k + 1]);
        }
        lemma_rank_position(rest, row, at - 1);
    }
}

/// The rows in order of precedence.
fn rank_rows(rows: Vec<LegacyRow>) -> (list: Vec<LegacyRow>)
    ensures
        row_views(list@) == ranked(row_views(rows@)),
{
    let ghost all = row_views(rows@);
    let mut rest: Vec<LegacyRow> = rows;
    let mut list: Vec<LegacyRow> = Vec::new();
    let ghost mut n: int = 0;
    assert(all.take(0) =~= Seq::empty());
    assert(row_views(list@) =~= ranked(all.take(0)));
    assert(row_views(rest@) =~= all.skip(0));
    while rest.len() > 0
        invariant
            0 <= n <= all.len(),
            row_views(rest@) == all.skip(n),
            row_views(list@) == ranked(all.take(n)),
        decreases rest.len(),
    {
        let ghost rest_before = rest@;
        let row: LegacyRow = rest.remove(0);
        let ghost before = list@;
        proof {
            let left = row_views(rest_before);
            assert(left == all.skip(n) && left.len() == rest_before.len());
            assert(row@ == left[0]);
            assert(left[0] == all[n]);
            assert(row_views(rest@) =~= left.skip(1));
            assert(left.skip(1) =~= all.skip(n + 1));
            assert(all.take(n + 1).drop_last() =~= all.take(n));
            assert(all.take(n + 1).last() == all[n]);
        }
        let mut at: usize = 0;
        while at < list.len() && !row_precedes(&row, &list[at])
            invariant
                at <= list.len(),
                forall|k: int| 0 <= k < at ==> !precedes(row@, #[trigger] row_views(list@)[k]),
            decreases list.len() - at,
        {
            assert(row_views(list@)[at as int] == list@[at as int]@);
            at = at + 1;
        }
        proof {
            if at < list.len() {
                assert(row_views(list@)[at as int] == list@[at as int]@);
            }
            lemma_rank_position(row_views(before), row@, at as int);
        }
        list.insert(at, row);
        proof {
            assert(row_views(list@) =~= row_views(before).insert(at as int, row@));
            n = n + 1;
        }
    }
    assert(all.take(n) =~= all);
    list
}

proof fn lemma_ranked_len(rows: Seq<RowView>)
    ensures
        ranked(rows).len() == rows.len(),
        rows.len() > 0 ==> 0 <= rank_position(ranked(rows.drop_last()), rows.last()) <= rows.len()
            - 1,
    decreases rows.len(),
{
    if rows.len() > 0 {
        lemma_ranked_len(rows.drop_last());
        lemma_rank_position_bound(ranked(rows.drop_last()), rows.last());
    }
}

proof fn lemma_rank_position_bound(list: Seq<RowView>, row: RowView)
    ensures
        0 <= rank_position(list, row) <= list.len(),
    decreases list.len(),
{
    if list.len() > 0 && !precedes(row, list[0]) {
        lemma_rank_position_bound(list.drop_first(), row);
    }
}

/// Merges the rows for one source; what happened is added to `events`.
fn merge_group(bucket: Vec<LegacyRow>, events: &mut Vec<PlanEvent>) -> (merged: MergedRow)
    requires
        bucket@.len() > 0,
    ensures
        merged@ == merged_group(row_views(bucket@)),
        event_views(final(events)@) == event_views(old(events)@) + merged_list_events(
            ranked(row_views(bucket@)),
        ),
{
    proof {
        lemma_ranked_len(row_views(bucket@));
    }
    let list: Vec<LegacyRow> = rank_rows(bucket);
    let ghost all = row_views(list@);
    assert(all.len() > 0 && all[0] == list@[0]@);
    let winner = &list[0];
    let mut merged = MergedRow {
        id: winner.id,
        identity: winner.identity.clone(),
        stem: filename_stem(winner.identity.as_str()),
        segment_order: winner.segment_order,
        status: winner.status.clone(),
        video_json: opt_own(&winner.video_json),
        remote_filename: opt_own(&winner.remote_filename),
        attempts: winner.attempts,
        aid: winner.aid,
        last_error: opt_own(&winner.last_error),
        told_at: winner.updated_at,
        told_id: winner.id,
        detached: Vec::new(),
    };
    let ghost start = event_views(events@);
    proof {
        assert(merged@.detached =~= Seq::empty());
        assert(all.take(1)[0] == all[0]);
        assert(merged@ == merged_list(all.take(1)));
        assert(event_views(events@) =~= start + merged_list_events(all.take(1)));
    }
    let mut i: usize = 1;
    while i < list.len()
        invariant
            1 <= i <= list.len(),
            all == row_views(list@),
            merged@ == merged_list(all.take(i as int)),
            event_views(events@) == start + merged_list_events(all.take(i as int)),
        decreases list.len() - i,
    {
        proof {
            assert(all.take(i + 1).drop_last() =~= all.take(i as int));
            assert(all.take(i + 1).last() == list@[i as int]@);
        }
        merged.absorb(&list[i], events);
        proof {
            assert(event_views(events@) =~= start + merged_list_events(all.take(i + 1)));
        }
        i = i + 1;
    }
    assert(all.take(i as int) =~= all);
    merged
}

proof fn lemma_groups_not_empty(rows: Seq<RowView>)
    ensures
        forall|i: int| 0 <= i < grouped(rows).len() ==> (#[trigger] grouped(rows)[i]).len() > 0,
        grouped(rows).len() <= rows.len(),
    decreases rows.len(),
{
    if rows.len() > 0 {
        lemma_groups_not_empty(rows.drop_last());
        let before = grouped(rows.drop_last());
        assert forall|i: int| 0 <= i < grouped(rows).len() implies (#[trigger] grouped(
            rows,
        )[i]).len() > 0 by {
            if i < before.len() {
                assert(before[i].len() > 0);
            }
        }
    }
}

/// Merges all groups; what happened is added to `events`.
fn merge_groups(groups: Vec<Vec<LegacyRow>>, events: &mut Vec<PlanEvent>) -> (merged: Vec<
    MergedRow,
>)
    requires
        forall|i: int|
            0 <= i < groups@.len() ==> (#[trigger] group_views(groups@)[i]).len() > 0,
        old(events)@.len() == 0,
    ensures
        merged_views(merged@) == merged_groups(group_views(groups@)),
        event_views(final(events)@) == group_events(group_views(groups@)),
{
    let ghost all = group_views(groups@);
    let mut rest: Vec<Vec<LegacyRow>> = groups;
    let mut merged: Vec<MergedRow> = Vec::new();
    let ghost mut n: int = 0;
    proof {
        assert(all.take(0) =~= Seq::empty());
        assert(merged_views(merged@) =~= merged_groups(all.take(0)));
        assert(event_views(events@) =~= group_events(all.take(0)));
        assert(group_views(rest@) =~= all.skip(0));
    }
    while rest.len() > 0
        invariant
            0 <= n <= all.len(),
            forall|i: int| 0 <= i < all.len() ==> (#[trigger] all[i]).len() > 0,
            group_views(rest@) == all.skip(n),
            merged_views(merged@) == merged_groups(all.take(n)),
            event_views(events@) == group_events(all.take(n)),
        decreases rest.len(),
    {
        let ghost rest_before = rest@;
        let bucket: Vec<LegacyRow> = rest.remove(0);
        let ghost before = merged@;
        proof {
            let left = group_views(rest_before);
            assert(left == all.skip(n) && left.len() == rest_before.len());
            assert(row_views(bucket@) == left[0]);
            assert(left[0] == all[n]);
            assert(group_views(rest@) =~= left.skip(1));
            assert(left.skip(1) =~= all.skip(n + 1));
            assert(all.take(n + 1).drop_last() =~= all.take(n));
            assert(all.take(n + 1).last() == all[n]);
            assert(row_views(bucket@).len() == bucket@.len());
        }
        let row: MergedRow = merge_group(bucket, events);
        merged.push(row);
        proof {
            assert(merged_views(merged@) =~= merged_views(before).push(row@));
            assert(merged_groups(all.take(n + 1)) =~= merged_groups(all.take(n)).push(
                merged_group(all[n]),
            ));
            n = n + 1;
        }
    }
    assert(all.take(n) =~= all);
    merged
}

fn collect_detached(merged: &Vec<MergedRow>) -> (ids: Vec<i64>)
    ensures
        ids@ == detached_ids(merged_views(merged@)),
{
    let mut ids: Vec<i64> = Vec::new();
    let ghost all = merged_views(merged@);
    let mut i: usize = 0;
    assert(all.take(0) =~= Seq::empty());
    while i < merged.len()
        invariant
            i <= merged.len(),
            all == merged_views(merged@),
            ids@ == detached_ids(all.take(i as int)),
        decreases merged.len() - i,
    {
        let detached = &merged[i].detached;
        let ghost before = ids@;
        let mut k: usize = 0;
        assert(before + detached@.take(0) =~= before);
        while k < detached.len()
            invariant
                k <= detached.len(),
                ids@ == before + detached@.take(k as int),
            decreases detached.len() - k,
        {
            ids.push(detached[k]);
            assert(detached@.take(k + 1) =~= detached@.take(k as int).push(detached@[k as int]));
            assert(ids@ =~= before + detached@.take(k + 1));
            k = k + 1;
        }
        proof {
            assert(detached@.take(k as int) =~= detached@);
            assert(all.take(i + 1).drop_last() =~= all.take(i as int));
            assert(all.take(i + 1).last() == merged@[i as int]@);
        }
        i = i + 1;
    }
    assert(all.take(i as int) =~= all);
    ids
}

proof fn lemma_free_position(
    merged: Seq<MergedView>,
    claimed: Seq<bool>,
    stem: Seq<char>,
    from: int,
    at: int,
)
    requires
        0 <= from <= at <= merged.len(),
        forall|k: int|
            from <= k < at ==> !(!claimed[k] && (#[trigger] merged[k]).stem == stem),
        at < merged.len() ==> !claimed[at] && merged[at].stem == stem,
    ensures
        free_position(merged, claimed, stem, from) == at,
    decreases merged.len() - from,
{
    if from < at {
        assert(!(!claimed[from] && merged[from].stem == stem));
        lemma_free_position(merged, claimed, stem, from + 1, at);
    }
}

/// What stands at the places of the published order: the number of a row, or nothing.
spec fn slot_views(slots: Seq<Option<usize>>) -> Seq<Slot> {
    slots.map_values(
        |s: Option<usize>|
            match s {
                Some(at) => Slot::Row(at as int),
                None => Slot::Unknown,
            },
    )
}

/// Matches the next part of the published order.
fn match_next(
    merged: &mut Vec<MergedRow>,
    claimed: &mut Vec<bool>,
    slots: &mut Vec<Option<usize>>,
    events: &mut Vec<PlanEvent>,
    part: &PublishedPart,
)
    requires
        old(claimed)@.len() == old(merged)@.len(),
    ensures
        final(claimed)@.len() == final(merged)@.len(),
        final(merged)@.len() == old(merged)@.len(),
        (Matching {
            merged: merged_views(final(merged)@),
            claimed: final(claimed)@,
            slots: slot_views(final(slots)@),
            events: event_views(final(events)@),
        }) == match_part(
            Matching {
                merged: merged_views(old(merged)@),
                claimed: old(claimed)@,
                slots: slot_views(old(slots)@),
                events: event_views(old(events)@),
            },
            part@,
        ),
{
    let ghost merged_before = merged@;
    let ghost views_before = merged_views(merged@);
    let ghost claimed_before = claimed@;
    let ghost slots_before = slots@;
    let ghost events_before = events@;
    let ghost before = Matching {
        merged: views_before,
        claimed: claimed_before,
        slots: slot_views(slots_before),
        events: event_views(events_before),
    };
    let title: Option<&str> = match &part.title {
        Some(text) => Some(text.as_str()),
        None => None,
    };
    let stem: String = filename_stem(part_name(title, part.filename.as_str()));
    let mut at: usize = 0;
    let mut found: bool = false;
    while at < merged.len() && !found
        invariant
            at <= merged.len(),
            stem@ == part@.stem,
            merged@ == merged_before,
            claimed@ == claimed_before,
            claimed@.len() == merged@.len(),
            views_before == merged_views(merged_before),
            found ==> at < merged.len() && !claimed@[at as int] && views_before[at as int].stem
                == part@.stem,
            forall|k: int|
                0 <= k < at ==> !(!claimed@[k] && (#[trigger] views_before[k]).stem == part@.stem),
        decreases
                merged.len() - at,
                if found {
                    0int
                } else {
                    1int
                },
    {
        assert(views_before[at as int] == merged@[at as int]@);
        if !claimed[at] && str_eq(merged[at].stem.as_str(), stem.as_str()) {
            found = true;
        } else {
            at = at + 1;
        }
    }
    proof {
        lemma_free_position(views_before, claimed_before, part@.stem, 0, at as int);
    }
    if !found {
        slots.push(None);
        proof {
            assert(slot_views(slots@) =~= slot_views(slots_before).push(Slot::Unknown));
        }
        return;
    }
    let index: usize = slots.len();
    claimed.set(at, true);
    let mut row: MergedRow = merged.remove(at);
    let ghost row_before = row@;
    assert(row_before == views_before[at as int]);
    if !str_eq(row.status.as_str(), CONFLICT) {
        let other: Option<String> = match &row.remote_filename {
            Some(existing) => if str_eq(existing.as_str(), part.filename.as_str()) {
                None
            } else {
                Some(existing.clone())
            },
            None => None,
        };
        match other {
            Some(existing) => {
                row.status = own(CONFLICT);
                let mut detail: String = own("row claims remote ");
                detail.append(existing.as_str());
                detail.append(", session part ");
                let number: String = decimal_text(index as u128);
                detail.append(number.as_str());
                detail.append(" is ");
                detail.append(part.filename.as_str());
                let event = PlanEvent {
                    missing_segment_id: Some(row.id),
                    kind: own(CONFLICT),
                    detail,
                };
                assert(event@ == part_event(row_before, part@, index as int));
                events.push(event);
                assert(event_views(events@) =~= event_views(events_before).push(event@));
            },
            None => {
                row.status = own(SUCCEEDED);
                row.video_json = Some(part.json.clone());
            },
        }
    }
    assert(row@ == matched_row(row_before, part@));
    merged.insert(at, row);
    slots.push(Some(at));
    proof {
        assert(merged_views(merged@) =~= views_before.update(
            at as int,
            matched_row(row_before, part@),
        ));
        assert(slot_views(slots@) =~= slot_views(slots_before).push(Slot::Row(at as int)));
        assert(claimed@ =~= claimed_before.update(at as int, true));
        assert(slot_views(slots_before).len() == index);
        let after = match_part(before, part@);
        assert(after.merged =~= merged_views(merged@));
        assert(after.events =~= event_views(events@));
    }
}

proof fn lemma_owed_position(list: Seq<int>, merged: Seq<MergedView>, index: int, at: int)
    requires
        0 <= at <= list.len(),
        forall|k: int| 0 <= k < at ==> !owed_before(merged[index], merged[#[trigger] list[k]]),
        at < list.len() ==> owed_before(merged[index], merged[list[at]]),
    ensures
        owed_position(list, merged, index) == at,
    decreases list.len(),
{
    if list.len() > 0 && at > 0 {
        assert(!owed_before(merged[index], merged[list[0]]));
        let rest = list.drop_first();
        assert forall|k: int| 0 <= k < at - 1 implies !owed_before(
            merged[index],
            merged[#[trigger] rest[k]],
        ) by {
            assert(rest[k] == list[k + 1]);
        }
        lemma_owed_position(rest, merged, index, at - 1);
    }
}

spec fn index_views(list: Seq<usize>) -> Seq<int> {
    list.map_values(|i: usize| i as int)
}

/// The rows that no part claimed, in their order.
fn order_owed(merged: &Vec<MergedRow>, claimed: &Vec<bool>) -> (list: Vec<usize>)
    requires
        claimed@.len() == merged@.len(),
    ensures
        index_views(list@) == owed(merged_views(merged@), claimed@, merged@.len() as int),
        forall|k: int| 0 <= k < list@.len() ==> (#[trigger] list@[k]) < merged@.len(),
        list@.len() <= merged@.len(),
{
    let mut list: Vec<usize> = Vec::new();
    let ghost views = merged_views(merged@);
    let mut i: usize = 0;
    assert(index_views(list@) =~= owed(views, claimed@, 0));
    while i < merged.len()
        invariant
            i <= merged.len(),
            claimed@.len() == merged@.len(),
            views == merged_views(merged@),
            index_views(list@) == owed(views, claimed@, i as int),
            forall|k: int| 0 <= k < list@.len() ==> (#[trigger] list@[k]) < i,
            list@.len() <= i,
        decreases merged.len() - i,
    {
        if !claimed[i] {
            let mut at: usize = 0;
            let ghost before = list@;
            while at < list.len() && !(merged[i].segment_order < merged[list[at]].segment_order || (
            merged[i].segment_order == merged[list[at]].segment_order && merged[i].id
                < merged[list[at]].id))
                invariant
                    at <= list.len(),
                    i < merged.len(),
                    list@ == before,
                    views == merged_views(merged@),
                    forall|k: int| 0 <= k < list@.len() ==> (#[trigger] list@[k]) < i,
                    forall|k: int|
                        0 <= k < at ==> !owed_before(
                            views[i as int],
                            views[#[trigger] index_views(list@)[k]],
                        ),
                decreases list.len() - at,
            {
                assert(index_views(list@)[at as int] == list@[at as int] as int);
                assert(views[i as int] == merged@[i as int]@);
                assert(views[list@[at as int] as int] == merged@[list@[at as int] as int]@);
                at = at + 1;
            }
            proof {
                if at < list.len() {
                    assert(index_views(list@)[at as int] == list@[at as int] as int);
                    assert(views[i as int] == merged@[i as int]@);
                    assert(views[list@[at as int] as int] == merged@[list@[at as int] as int]@);
                }
                lemma_owed_position(index_views(before), views, i as int, at as int);
            }
            list.insert(at, i);
            assert(index_views(list@) =~= index_views(before).insert(at as int, i as int));
        }
        i = i + 1;
    }
    list
}

proof fn lemma_match_lengths(start: Matching, parts: Seq<PartView>)
    requires
        start.claimed.len() == start.merged.len(),
    ensures
        ({
            let m = match_parts(start, parts);
            &&& m.merged.len() == start.merged.len()
            &&& m.claimed.len() == start.merged.len()
            &&& m.slots.len() == start.slots.len() + parts.len()
        }),
    decreases parts.len(),
{
    if parts.len() > 0 {
        lemma_match_lengths(start, parts.drop_last());
    }
}

/// What the ledger of a session becomes. `videos` are the published parts in their order, which
/// the rebuilt ledger reproduces.
pub fn plan_session(session_id: i64, videos: &Vec<PublishedPart>, rows: Vec<LegacyRow>) -> (plan:
    BackfillPlan)
    requires
        videos@.len() + rows@.len() <= i64::MAX,
    ensures
        plan@ == planned(session_id, part_views(videos@), row_views(rows@)),
{
    let ghost rows_view = row_views(rows@);
    let ghost parts = part_views(videos@);
    let mut events: Vec<PlanEvent> = Vec::new();
    let groups: Vec<Vec<LegacyRow>> = group_rows(rows);
    let ghost groups_view = group_views(groups@);
    proof {
        lemma_groups_not_empty(rows_view);
        assert(groups_view.len() == groups@.len());
    }
    let mut merged: Vec<MergedRow> = merge_groups(groups, &mut events);
    assert(merged_views(merged@).len() == merged@.len());
    let detach: Vec<i64> = collect_detached(&merged);
    let mut claimed: Vec<bool> = Vec::new();
    while claimed.len() < merged.len()
        invariant
            claimed.len() <= merged.len(),
            forall|k: int| 0 <= k < claimed@.len() ==> !(#[trigger] claimed@[k]),
        decreases merged.len() - claimed.len(),
    {
        claimed.push(false);
    }
    let mut slots: Vec<Option<usize>> = Vec::new();
    let ghost start = unmatched_start(merged_groups(groups_view), group_events(groups_view));
    let ghost count = merged@.len();
    proof {
        assert(claimed@ =~= start.claimed);
        assert(slot_views(slots@) =~= start.slots);
        assert(parts.take(0) =~= Seq::empty());
    }
    let mut p: usize = 0;
    while p < videos.len()
        invariant
            p <= videos.len(),
            parts == part_views(videos@),
            merged@.len() == count,
            claimed@.len() == merged@.len(),
            (Matching {
                merged: merged_views(merged@),
                claimed: claimed@,
                slots: slot_views(slots@),
                events: event_views(events@),
            }) == match_parts(start, parts.take(p as int)),
        decreases videos.len() - p,
    {
        proof {
            assert(parts.take(p + 1).drop_last() =~= parts.take(p as int));
            assert(parts.take(p + 1).last() == videos@[p as int]@);
        }
        match_next(&mut merged, &mut claimed, &mut slots, &mut events, &videos[p]);
        p = p + 1;
    }
    let ghost m = session_matching(parts, rows_view);
    proof {
        assert(parts.take(p as int) =~= parts);
        lemma_match_lengths(start, parts);
        lemma_slots_in_range(start, parts);
        assert(slot_views(slots@).len() == slots@.len());
    }
    let rest: Vec<usize> = order_owed(&merged, &claimed);
    let mut keep: Vec<PlannedRow> = Vec::new();
    let mut synthetic: Vec<SyntheticRow> = Vec::new();
    let ghost matched_events = event_views(events@);
    proof {
        assert(m.slots == slot_views(slots@));
        assert(keep@.map_values(|r: PlannedRow| r@) =~= kept_in_slots(m, 0));
        assert(synthetic@.map_values(|r: SyntheticRow| r@) =~= synthetic_in_slots(
            m,
            parts,
            session_id,
            0,
        ));
        assert(event_views(events@) =~= matched_events + synthetic_in_slots(
            m,
            parts,
            session_id,
            0,
        ).map_values(|s: SyntheticView| synthetic_event(s)));
    }
    let mut order: usize = 0;
    while order < slots.len()
        invariant
            order <= slots.len(),
            slots.len() == videos.len(),
            videos@.len() <= i64::MAX,
            parts == part_views(videos@),
            m.merged == merged_views(merged@),
            m.slots == slot_views(slots@),
            m.slots.len() == slots@.len(),
            forall|k: int|
                0 <= k < m.slots.len() ==> (#[trigger] m.slots[k] matches Slot::Row(at) ==> 0 <= at
                    < m.merged.len()),
            keep@.map_values(|r: PlannedRow| r@) == kept_in_slots(m, order as int),
            synthetic@.map_values(|r: SyntheticRow| r@) == synthetic_in_slots(
                m,
                parts,
                session_id,
                order as int,
            ),
            event_views(events@) == matched_events + synthetic_in_slots(
                m,
                parts,
                session_id,
                order as int,
            ).map_values(|s: SyntheticView| synthetic_event(s)),
        decreases slots.len() - order,
    {
        let ghost keep_before = keep@;
        let ghost synthetic_before = synthetic@;
        let ghost events_before = events@;
        assert(m.slots[order as int] == slot_views(slots@)[order as int]);
        match slots[order] {
            Some(at) => {
                assert(m.slots[order as int] == Slot::Row(at as int));
                assert(m.merged[at as int] == merged@[at as int]@);
                let row: PlannedRow = merged[at].planned(order as i64);
                keep.push(row);
                assert(keep@.map_values(|r: PlannedRow| r@) =~= keep_before.map_values(
                    |r: PlannedRow| r@,
                ).push(row@));
            },
            None => {
                assert(m.slots[order as int] == Slot::Unknown);
                let mut file_path: String = own("legacy://session/");
                let session: String = signed_decimal_text(session_id);
                file_path.append(session.as_str());
                file_path.append("/part/");
                let number: String = decimal_text(order as u128);
                file_path.append(number.as_str());
                let event = PlanEvent {
                    missing_segment_id: None,
                    kind: own("synthetic_baseline"),
                    detail: file_path.clone(),
                };
                let row = SyntheticRow {
                    segment_order: order as i64,
                    file_path,
                    video_json: videos[order].json.clone(),
                };
                proof {
                    assert(parts[order as int] == videos@[order as int]@);
                    assert(event@ == synthetic_event(row@));
                }
                events.push(event);
                synthetic.push(row);
                proof {
                    assert(synthetic@.map_values(|r: SyntheticRow| r@) =~= synthetic_before.map_values(
                        |r: SyntheticRow| r@,
                    ).push(row@));
                    assert(event_views(events@) =~= event_views(events_before).push(event@));
                    let shorter = synthetic_in_slots(m, parts, session_id, order as int);
                    assert(shorter.push(row@).map_values(|s: SyntheticView| synthetic_event(s))
                        =~= shorter.map_values(|s: SyntheticView| synthetic_event(s)).push(event@));
                    assert(event_views(events@) =~= matched_events + synthetic_in_slots(
                        m,
                        parts,
                        session_id,
                        order + 1,
                    ).map_values(|s: SyntheticView| synthetic_event(s)));
                }
            },
        }
        order = order + 1;
    }
    let ghost base = keep@.map_values(|r: PlannedRow| r@);
    let ghost owed_list = index_views(rest@);
    let mut i: usize = 0;
    assert(base + kept_owed(m, owed_list, order as int).take(0) =~= base);
    proof {
        lemma_groups_not_empty(rows_view);
    }
    while i < rest.len()
        invariant
            i <= rest.len(),
            order == videos.len(),
            rest@.len() <= count,
            videos@.len() + count <= i64::MAX,
            merged@.len() == count,
            m.merged == merged_views(merged@),
            owed_list == index_views(rest@),
            forall|k: int| 0 <= k < rest@.len() ==> (#[trigger] rest@[k]) < merged@.len(),
            keep@.map_values(|r: PlannedRow| r@) == base + kept_owed(
                m,
                owed_list,
                order as int,
            ).take(i as int),
        decreases rest.len() - i,
    {
        let ghost keep_before = keep@;
        let place: i64 = order as i64 + i as i64;
        let row: PlannedRow = merged[rest[i]].planned(place);
        keep.push(row);
        proof {
            let all = kept_owed(m, owed_list, order as int);
            assert(owed_list[i as int] == rest@[i as int] as int);
            assert(m.merged[rest@[i as int] as int] == merged@[rest@[i as int] as int]@);
            assert(all[i as int] == row@);
            assert(all.take(i + 1) =~= all.take(i as int).push(row@));
            assert(keep@.map_values(|r: PlannedRow| r@) =~= keep_before.map_values(
                |r: PlannedRow| r@,
            ).push(row@));
            assert(keep@.map_values(|r: PlannedRow| r@) =~= base + all.take(i + 1));
        }
        i = i + 1;
    }
    proof {
        let all = kept_owed(m, owed_list, order as int);
        assert(all.take(i as int) =~= all);
    }
    BackfillPlan { keep, detach, synthetic, events }
}

proof fn lemma_slots_in_range(start: Matching, parts: Seq<PartView>)
    requires
        start.claimed.len() == start.merged.len(),
        forall|k: int|
            0 <= k < start.slots.len() ==> (#[trigger] start.slots[k] matches Slot::Row(at) ==> 0
                <= at < start.merged.len()),
    ensures
        ({
            let m = match_parts(start, parts);
            forall|k: int|
                0 <= k < m.slots.len() ==> (#[trigger] m.slots[k] matches Slot::Row(at) ==> 0 <= at
                    < m.merged.len())
        }),
    decreases parts.len(),
{
    lemma_match_lengths(start, parts);
    if parts.len() > 0 {
        lemma_match_lengths(start, parts.drop_last());
        lemma_slots_in_range(start, parts.drop_last());
    }
}

/// The number of rows in conflict.
pub open spec fn conflicts_in(keep: Seq<PlannedView>) -> int
    decreases keep.len(),
{
    if keep.len() == 0 {
        0
    } else {
        conflicts_in(keep.drop_last()) + (if keep.last().status == CONFLICT@ {
            1int
        } else {
            0
        })
    }
}

impl BackfillPlan {
    /// The number of rows that stay blocked by a conflict.
    pub fn conflict_count(&self) -> (count: i64)
        requires
            self.keep@.len() <= i64::MAX,
        ensures
            count == conflicts_in(self@.keep),
    {
        let mut count: i64 = 0;
        let ghost all = self@.keep;
        let mut i: usize = 0;
        assert(all.take(0) =~= Seq::empty());
        while i < self.keep.len()
            invariant
                i <= self.keep.len(),
                self.keep@.len() <= i64::MAX,
                all == self.keep@.map_values(|r: PlannedRow| r@),
                count == conflicts_in(all.take(i as int)),
                0 <= count <= i,
            decreases self.keep.len() - i,
        {
            proof {
                assert(all.take(i + 1).drop_last() =~= all.take(i as int));
                assert(all.take(i + 1).last() == self.keep@[i as int]@);
            }
            if str_eq(self.keep[i].status.as_str(), CONFLICT) {
                count = count + 1;
            }
            i = i + 1;
        }
        assert(all.take(i as int) =~= all);
        count
    }
}

/// What the snapshot of the published parts says before it is parsed.
#[derive(Debug, Clone, Copy, PartialEq, Eq, Structural)]
pub enum SnapshotKind {
    /// Nothing was published yet.
    Absent,
    /// The text without white space around it is to be parsed.
    Present,
}

/// Whether there is a snapshot of the published parts.
pub fn snapshot_kind(videos_json: &str) -> (kind: SnapshotKind)
    ensures
        kind is Absent <==> trim_spec(videos_json@).len() == 0 || trim_spec(videos_json@)
            == "null"@,
{
    let trimmed: &str = trim_str(videos_json);
    if trimmed.is_empty() || str_eq(trimmed, "null") {
        SnapshotKind::Absent
    } else {
        SnapshotKind::Present
    }
}

/// What is done with a session.
#[derive(Debug, Clone, Copy, PartialEq, Eq, Structural)]
pub enum SessionStep {
    /// There are no rows: nothing to rebuild.
    SkipEmpty,
    /// The session is published and stays as it is.
    SkipFinalized,
    /// Every row already has a lifecycle.
    SkipCurrent,
    /// The ledger is rebuilt.
    Rebuild,
    /// The snapshot cannot be read: the session stays blocked.
    Corrupt,
}

/// Whether every row of a session already has a lifecycle.
pub open spec fn all_current(versions: Seq<i64>) -> bool {
    forall|i: int| 0 <= i < versions.len() ==> #[trigger] versions[i] == 2
}

/// What is done with a session of the given status, whose rows have the given lifecycle
/// versions; `snapshot_readable` tells whether its published parts are known.
pub fn session_step(status: &str, versions: &Vec<i64>, snapshot_readable: bool) -> (step:
    SessionStep)
    ensures
        step == (if versions@.len() == 0 {
            SessionStep::SkipEmpty
        } else if status@ == "finalized"@ {
            SessionStep::SkipFinalized
        } else if all_current(versions@) {
            SessionStep::SkipCurrent
        } else if snapshot_readable {
            SessionStep::Rebuild
        } else {
            SessionStep::Corrupt
        }),
{
    if versions.len() == 0 {
        return SessionStep::SkipEmpty;
    }
    if str_eq(status, "finalized") {
        return SessionStep::SkipFinalized;
    }
    let mut i: usize = 0;
    while i < versions.len()
        invariant
            i <= versions.len(),
            versions@.len() > 0,
            status@ != "finalized"@,
            forall|k: int| 0 <= k < i ==> #[trigger] versions@[k] == 2,
        decreases versions.len() - i,
    {
        if versions[i] != 2 {
            assert(!all_current(versions@)) by {
                assert(versions@[i as int] != 2);
            }
            return if snapshot_readable {
                SessionStep::Rebuild
            } else {
                SessionStep::Corrupt
            };
        }
        i = i + 1;
    }
    SessionStep::SkipCurrent
}

/// What is written down of a session whose rows are left as they are, as a kind and a detail.
pub open spec fn untouched_note(step: SessionStep, rows: nat) -> Option<(Seq<char>, Seq<char>)> {
    match step {
        SessionStep::SkipEmpty => Some(("skipped"@, "no lifecycle rows"@)),
        SessionStep::SkipFinalized => Some(
            ("skipped_finalized"@, decimal(rows) + " legacy rows left untouched"@),
        ),
        SessionStep::SkipCurrent => Some(("skipped"@, "already lifecycle v2"@)),
        SessionStep::Corrupt => Some(
            (
                "corrupt_videos_json"@,
                "published part snapshot is unparseable; session left at lifecycle v1"@,
            ),
        ),
        SessionStep::Rebuild => None,
    }
}

/// What is written down of a session with `rows` rows that are left as they are; nothing where
/// they are rebuilt.
pub fn session_event(step: SessionStep, rows: usize) -> (event: Option<PlanEvent>)
    ensures
        match event {
            Some(event) => event.missing_segment_id is None && untouched_note(step, rows as nat)
                == Some((event.kind@, event.detail@)),
            None => untouched_note(step, rows as nat) is None,
        },
{
    let (kind, detail): (&str, String) = match step {
        SessionStep::SkipEmpty => ("skipped", own("no lifecycle rows")),
        SessionStep::SkipFinalized => {
            let mut detail: String = decimal_text(rows as u128);
            detail.append(" legacy rows left untouched");
            ("skipped_finalized", detail)
        },
        SessionStep::SkipCurrent => ("skipped", own("already lifecycle v2")),
        SessionStep::Corrupt => (
            "corrupt_videos_json",
            own("published part snapshot is unparseable; session left at lifecycle v1"),
        ),
        SessionStep::Rebuild => {
            return None;
        },
    };
    Some(PlanEvent { missing_segment_id: None, kind: own(kind), detail })
}

/// How far the rebuilding has come.
#[derive(Debug, Clone, Copy, PartialEq, Eq, Structural)]
pub struct BackfillSummary {
    pub processed_sessions: i64,
    pub migrated_rows: i64,
    pub synthetic_rows: i64,
    pub conflict_rows: i64,
    pub completed: bool,
}

impl Default for BackfillSummary {
    fn default() -> (summary: BackfillSummary)
        ensures
            summary == (BackfillSummary {
                processed_sessions: 0,
                migrated_rows: 0,
                synthetic_rows: 0,
                conflict_rows: 0,
                completed: false,
            }),
    {
        BackfillSummary {
            processed_sessions: 0,
            migrated_rows: 0,
            synthetic_rows: 0,
            conflict_rows: 0,
            completed: false,
        }
    }
}

impl BackfillSummary {
    /// Adds the rows of one more session.
    pub fn add_session(&mut self, migrated: i64, synthetic: i64, conflicts: i64)
        requires
            old(self).processed_sessions < i64::MAX,
            i64::MIN <= old(self).migrated_rows + migrated <= i64::MAX,
            i64::MIN <= old(self).synthetic_rows + synthetic <= i64::MAX,
            i64::MIN <= old(self).conflict_rows + conflicts <= i64::MAX,
        ensures
            *final(self) == (BackfillSummary {
                processed_sessions: (old(self).processed_sessions + 1) as i64,
                migrated_rows: (old(self).migrated_rows + migrated) as i64,
                synthetic_rows: (old(self).synthetic_rows + synthetic) as i64,
                conflict_rows: (old(self).conflict_rows + conflicts) as i64,
                completed: old(self).completed,
            }),
    {
        self.processed_sessions = self.processed_sessions + 1;
        self.migrated_rows = self.migrated_rows + migrated;
        self.synthetic_rows = self.synthetic_rows + synthetic;
        self.conflict_rows = self.conflict_rows + conflicts;
    }
}

/// What follows a batch of sessions.
#[derive(Debug, Clone, Copy, PartialEq, Eq, Structural)]
pub enum BatchEnd {
    /// No session is left.
    Finished,
    /// Read the next batch.
    Next,
    /// A trial run reports its first batch and stops: it has moved no cursor.
    StopDryRun,
}

/// What follows a batch of `sessions` sessions.
pub fn after_batch(sessions: usize, dry_run: bool) -> (end: BatchEnd)
    ensures
        end == (if sessions == 0 {
            BatchEnd::Finished
        } else if dry_run {
            BatchEnd::StopDryRun
        } else {
            BatchEnd::Next
        }),
{
    if sessions == 0 {
        BatchEnd::Finished
    } else if dry_run {
        BatchEnd::StopDryRun
    } else {
        BatchEnd::Next
    }
}

/// The order under which kept row number `index` is parked while the ledger is renumbered.
pub fn parking_order(index: usize) -> (order: i64)
    requires
        index < i64::MAX,
    ensures
        order == -1 - index,
{
    -1 - index as i64
}

proof fn lemma_kept_slots(m: Matching, n: int)
    requires
        0 <= n <= m.slots.len(),
    ensures
        forall|k: int|
            0 <= k < kept_in_slots(m, n).len() ==> 0 <= (#[trigger] kept_in_slots(
                m,
                n,
            )[k]).segment_order < n && m.slots[kept_in_slots(m, n)[k].segment_order] is Row,
        forall|p: int|
            0 <= p < n && (#[trigger] m.slots[p]) is Row ==> exists|k: int|
                0 <= k < kept_in_slots(m, n).len() && (#[trigger] kept_in_slots(
                    m,
                    n,
                )[k]).segment_order == p,
    decreases n,
{
    if n > 0 {
        lemma_kept_slots(m, n - 1);
        let before = kept_in_slots(m, n - 1);
        let after = kept_in_slots(m, n);
        assert forall|k: int| 0 <= k < after.len() implies 0 <= (#[trigger] after[k]).segment_order
            < n && m.slots[after[k].segment_order] is Row by {
            if k < before.len() {
                assert(after[k] == before[k]);
            }
        }
        assert forall|p: int| 0 <= p < n && (#[trigger] m.slots[p]) is Row implies exists|k: int|
            0 <= k < after.len() && (#[trigger] after[k]).segment_order == p by {
            if p < n - 1 {
                let k = choose|k: int|
                    0 <= k < before.len() && (#[trigger] before[k]).segment_order == p;
                assert(after[k] == before[k]);
            } else {
                assert(after[after.len() - 1].segment_order == p);
            }
        }
    }
}

proof fn lemma_synthetic_slots(m: Matching, parts: Seq<PartView>, session_id: i64, n: int)
    requires
        0 <= n <= m.slots.len(),
    ensures
        ({
            let list = synthetic_in_slots(m, parts, session_id, n);
            &&& forall|k: int|
                0 <= k < list.len() ==> 0 <= (#[trigger] list[k]).segment_order < n
                    && m.slots[list[k].segment_order] is Unknown && list[k].video_json
                    == parts[list[k].segment_order].json && list[k].file_path == synthetic_path(
                    session_id,
                    list[k].segment_order,
                )
            &&& forall|p: int|
                0 <= p < n && (#[trigger] m.slots[p]) is Unknown ==> exists|k: int|
                    0 <= k < list.len() && (#[trigger] list[k]).segment_order == p
        }),
    decreases n,
{
    if n > 0 {
        lemma_synthetic_slots(m, parts, session_id, n - 1);
        let before = synthetic_in_slots(m, parts, session_id, n - 1);
        let after = synthetic_in_slots(m, parts, session_id, n);
        assert forall|k: int| 0 <= k < after.len() implies 0 <= (#[trigger] after[k]).segment_order
            < n && m.slots[after[k].segment_order] is Unknown && after[k].video_json
            == parts[after[k].segment_order].json && after[k].file_path == synthetic_path(
            session_id,
            after[k].segment_order,
        ) by {
            if k < before.len() {
                assert(after[k] == before[k]);
            }
        }
        assert forall|p: int| 0 <= p < n && (#[trigger] m.slots[p]) is Unknown implies exists|
            k: int,
        | 0 <= k < after.len() && (#[trigger] after[k]).segment_order == p by {
            if p < n - 1 {
                let k = choose|k: int|
                    0 <= k < before.len() && (#[trigger] before[k]).segment_order == p;
                assert(after[k] == before[k]);
            } else {
                assert(after[after.len() - 1].segment_order == p);
            }
        }
    }
}

/// Every published part gets exactly its own place: at each place of the published order stands
/// a kept row or a synthetic one with the JSON of the part, and never both.
pub proof fn law_published_order_is_reproduced(
    session_id: i64,
    parts: Seq<PartView>,
    rows: Seq<RowView>,
    place: int,
)
    requires
        0 <= place < parts.len(),
    ensures
        ({
            let plan = planned(session_id, parts, rows);
            let kept = exists|k: int|
                0 <= k < plan.keep.len() && (#[trigger] plan.keep[k]).segment_order == place;
            let made = exists|k: int|
                0 <= k < plan.synthetic.len() && (#[trigger] plan.synthetic[k]).segment_order
                    == place;
            &&& kept || made
            &&& !(kept && made)
            &&& forall|k: int|
                0 <= k < plan.synthetic.len() && (#[trigger] plan.synthetic[k]).segment_order
                    == place ==> plan.synthetic[k].video_json == parts[place].json
                    && plan.synthetic[k].file_path == synthetic_path(session_id, place)
        }),
{
    let plan = planned(session_id, parts, rows);
    let groups = grouped(rows);
    let start = unmatched_start(merged_groups(groups), group_events(groups));
    let m = session_matching(parts, rows);
    lemma_match_lengths(start, parts);
    let n = parts.len() as int;
    lemma_kept_slots(m, n);
    lemma_synthetic_slots(m, parts, session_id, n);
    let front = kept_in_slots(m, n);
    let list = owed(m.merged, m.claimed, m.merged.len() as int);
    let back = kept_owed(m, list, n);
    assert forall|k: int| 0 <= k < plan.keep.len() && (#[trigger] plan.keep[k]).segment_order
        == place implies m.slots[place] is Row by {
        if k < front.len() {
            assert(plan.keep[k] == front[k]);
        } else {
            assert(plan.keep[k] == back[k - front.len()]);
        }
    }
    assert forall|k: int|
        0 <= k < plan.synthetic.len() && (#[trigger] plan.synthetic[k]).segment_order
            == place implies m.slots[place] is Unknown by {}
    match m.slots[place] {
        Slot::Row(_) => {
            let k = choose|k: int|
                0 <= k < front.len() && (#[trigger] front[k]).segment_order == place;
            assert(plan.keep[k] == front[k]);
        },
        Slot::Unknown => {
            let k = choose|k: int|
                0 <= k < plan.synthetic.len() && (#[trigger] plan.synthetic[k]).segment_order
                    == place;
            assert(plan.synthetic[k].segment_order == place);
        },
    }
}

/// The places are numbered without a gap: as many places as kept and synthetic rows.
pub proof fn law_places_have_no_gap(
    session_id: i64,
    parts: Seq<PartView>,
    rows: Seq<RowView>,
    place: int,
)
    requires
        0 <= place < planned(session_id, parts, rows).keep.len() + planned(
            session_id,
            parts,
            rows,
        ).synthetic.len(),
    ensures
        ({
            let plan = planned(session_id, parts, rows);
            ||| exists|k: int|
                0 <= k < plan.keep.len() && (#[trigger] plan.keep[k]).segment_order == place
            ||| exists|k: int|
                0 <= k < plan.synthetic.len() && (#[trigger] plan.synthetic[k]).segment_order
                    == place
        }),
{
    let plan = planned(session_id, parts, rows);
    let n = parts.len() as int;
    if place < n {
        law_published_order_is_reproduced(session_id, parts, rows, place);
    } else {
        let groups = grouped(rows);
        let start = unmatched_start(merged_groups(groups), group_events(groups));
        let m = session_matching(parts, rows);
        lemma_match_lengths(start, parts);
        lemma_slot_counts(m, parts, session_id, n);
        let front = kept_in_slots(m, n);
        let list = owed(m.merged, m.claimed, m.merged.len() as int);
        let back = kept_owed(m, list, n);
        let k = front.len() + (place - n);
        assert(plan.keep[k] == back[place - n]);
        assert(plan.keep[k].segment_order == place);
    }
}

proof fn lemma_slot_counts(m: Matching, parts: Seq<PartView>, session_id: i64, n: int)
    requires
        0 <= n <= m.slots.len(),
    ensures
        kept_in_slots(m, n).len() + synthetic_in_slots(m, parts, session_id, n).len() == n,
    decreases n,
{
    if n > 0 {
        lemma_slot_counts(m, parts, session_id, n - 1);
    }
}

/// A row that claims one published part is never rewritten to another: matched with a part of
/// another name it becomes a conflict and keeps what it claims.
pub proof fn law_a_claim_is_never_overwritten(row: MergedView, part: PartView)
    requires
        row.remote is Some,
        row.remote->0 != part.filename,
    ensures
        matched_row(row, part).status == CONFLICT@,
        matched_row(row, part).remote == row.remote,
        matched_row(row, part).video_json == row.video_json,
{
}

/// The ids of rows.
pub open spec fn row_ids(rows: Seq<RowView>) -> Seq<i64> {
    rows.map_values(|r: RowView| r.id)
}

/// The ids of kept rows.
pub open spec fn kept_ids(keep: Seq<PlannedView>) -> Seq<i64> {
    keep.map_values(|r: PlannedView| r.id)
}

spec fn groups_bag(groups: Seq<Seq<RowView>>) -> Multiset<i64>
    decreases groups.len(),
{
    if groups.len() == 0 {
        Multiset::empty()
    } else {
        groups_bag(groups.drop_last()).add(row_ids(groups.last()).to_multiset())
    }
}

proof fn lemma_row_ids_push(rows: Seq<RowView>, row: RowView)
    ensures
        row_ids(rows.push(row)).to_multiset() == row_ids(rows).to_multiset().insert(row.id),
{
    assert(row_ids(rows.push(row)) =~= row_ids(rows).push(row.id));
    vstd::seq_lib::to_multiset_build(row_ids(rows), row.id);
}

proof fn lemma_bag_update(groups: Seq<Seq<RowView>>, at: int, row: RowView)
    requires
        0 <= at < groups.len(),
    ensures
        groups_bag(groups.update(at, groups[at].push(row))) == groups_bag(groups).insert(row.id),
    decreases groups.len(),
{
    let after = groups.update(at, groups[at].push(row));
    if at == groups.len() - 1 {
        assert(after.drop_last() =~= groups.drop_last());
        lemma_row_ids_push(groups[at], row);
        assert(groups_bag(after) =~= groups_bag(groups).insert(row.id));
    } else {
        assert(after.drop_last() =~= groups.drop_last().update(at, groups[at].push(row)));
        assert(after.last() == groups.last());
        lemma_bag_update(groups.drop_last(), at, row);
        assert(groups_bag(after) =~= groups_bag(groups).insert(row.id));
    }
}

proof fn lemma_grouping_keeps_ids(rows: Seq<RowView>)
    ensures
        groups_bag(grouped(rows)) == row_ids(rows).to_multiset(),
    decreases rows.len(),
{
    broadcast use vstd::seq_lib::group_to_multiset_ensures;

    if rows.len() == 0 {
        assert(row_ids(rows) =~= Seq::empty());
        assert(groups_bag(grouped(rows)) =~= row_ids(rows).to_multiset());
    } else {
        let front = rows.drop_last();
        lemma_grouping_keeps_ids(front);
        assert(front.push(rows.last()) =~= rows);
        lemma_row_ids_push(front, rows.last());
        let groups = grouped(front);
        let at = group_position(groups, rows.last().identity);
        if 0 <= at < groups.len() {
            lemma_bag_update(groups, at, rows.last());
        } else {
            let single = seq![rows.last()];
            assert(groups.push(single).drop_last() =~= groups);
            assert(row_ids(single) =~= Seq::empty().push(rows.last().id));
            assert(groups_bag(groups.push(single)) =~= groups_bag(groups).insert(rows.last().id));
        }
    }
}

proof fn lemma_ranking_keeps_ids(rows: Seq<RowView>)
    ensures
        row_ids(ranked(rows)).to_multiset() == row_ids(rows).to_multiset(),
    decreases rows.len(),
{
    if rows.len() > 0 {
        let front = rows.drop_last();
        lemma_ranking_keeps_ids(front);
        lemma_ranked_len(rows);
        lemma_rank_position_bound(ranked(front), rows.last());
        let at = rank_position(ranked(front), rows.last());
        assert(row_ids(ranked(rows)) =~= row_ids(ranked(front)).insert(at, rows.last().id));
        vstd::seq_lib::to_multiset_insert(row_ids(ranked(front)), at, rows.last().id);
        assert(front.push(rows.last()) =~= rows);
        lemma_row_ids_push(front, rows.last());
    } else {
        assert(row_ids(ranked(rows)) =~= row_ids(rows));
    }
}

proof fn lemma_merging_keeps_ids(list: Seq<RowView>)
    requires
        list.len() > 0,
    ensures
        seq![merged_list(list).id] + merged_list(list).detached == row_ids(list),
        merged_list(list).id == list[0].id,
    decreases list.len(),
{
    if list.len() == 1 {
        assert(seq![merged_list(list).id] + merged_list(list).detached =~= row_ids(list));
    } else {
        let front = list.drop_last();
        lemma_merging_keeps_ids(front);
        assert(front[0] == list[0]);
        assert(row_ids(list) =~= row_ids(front).push(list.last().id));
        assert(seq![merged_list(list).id] + merged_list(list).detached =~= (seq![
            merged_list(front).id,
        ] + merged_list(front).detached).push(list.last().id));
    }
}

spec fn merged_bag(merged: Seq<MergedView>, n: int) -> Multiset<i64>
    decreases n,
{
    if n <= 0 {
        Multiset::empty()
    } else {
        merged_bag(merged, n - 1).insert(merged[n - 1].id)
    }
}

proof fn lemma_detached_bag(groups: Seq<Seq<RowView>>)
    requires
        forall|i: int| 0 <= i < groups.len() ==> (#[trigger] groups[i]).len() > 0,
    ensures
        merged_bag(merged_groups(groups), groups.len() as int).add(
            detached_ids(merged_groups(groups)).to_multiset(),
        ) == groups_bag(groups),
    decreases groups.len(),
{
    broadcast use vstd::seq_lib::group_to_multiset_ensures;

    let merged = merged_groups(groups);
    if groups.len() == 0 {
        assert(detached_ids(merged) =~= Seq::empty());
        assert(merged_bag(merged, 0).add(detached_ids(merged).to_multiset()) =~= groups_bag(groups));
    } else {
        let front = groups.drop_last();
        assert forall|i: int| 0 <= i < front.len() implies (#[trigger] front[i]).len() > 0 by {
            assert(front[i] == groups[i]);
        }
        lemma_detached_bag(front);
        let n = groups.len() as int;
        assert(merged.drop_last() =~= merged_groups(front));
        lemma_merged_bag_prefix(merged, merged_groups(front), n - 1);
        let last = groups.last();
        assert(groups[n - 1].len() > 0);
        let row = merged_group(last);
        assert(merged[n - 1] == row);
        lemma_ranked_len(last);
        lemma_merging_keeps_ids(ranked(last));
        lemma_ranking_keeps_ids(last);
        let one = seq![row.id];
        assert(one =~= Seq::<i64>::empty().push(row.id));
        vstd::seq_lib::lemma_multiset_commutative(one, row.detached);
        assert(row_ids(last).to_multiset() =~= row.detached.to_multiset().insert(row.id));
        vstd::seq_lib::lemma_multiset_commutative(
            detached_ids(merged_groups(front)),
            row.detached,
        );
        assert(detached_ids(merged) =~= detached_ids(merged_groups(front)) + row.detached);
        assert(merged_bag(merged, n).add(detached_ids(merged).to_multiset()) =~= groups_bag(
            groups,
        ));
    }
}

proof fn lemma_merged_bag_prefix(a: Seq<MergedView>, b: Seq<MergedView>, n: int)
    requires
        n <= a.len(),
        n <= b.len(),
        forall|i: int| 0 <= i < n ==> (#[trigger] a[i]).id == (#[trigger] b[i]).id,
    ensures
        merged_bag(a, n) == merged_bag(b, n),
    decreases n,
{
    if n > 0 {
        assert(a[n - 1].id == b[n - 1].id);
        lemma_merged_bag_prefix(a, b, n - 1);
    }
}

spec fn claim_bag(merged: Seq<MergedView>, claimed: Seq<bool>, n: int, want: bool) -> Multiset<i64>
    decreases n,
{
    if n <= 0 {
        Multiset::empty()
    } else if claimed[n - 1] == want {
        claim_bag(merged, claimed, n - 1, want).insert(merged[n - 1].id)
    } else {
        claim_bag(merged, claimed, n - 1, want)
    }
}

proof fn lemma_claim_bags(merged: Seq<MergedView>, claimed: Seq<bool>, n: int)
    ensures
        claim_bag(merged, claimed, n, true).add(claim_bag(merged, claimed, n, false))
            == merged_bag(merged, n),
    decreases n,
{
    if n > 0 {
        lemma_claim_bags(merged, claimed, n - 1);
    }
    assert(claim_bag(merged, claimed, n, true).add(claim_bag(merged, claimed, n, false))
        =~= merged_bag(merged, n));
}

proof fn lemma_claim_bag_step(
    before: Seq<MergedView>,
    after: Seq<MergedView>,
    claimed: Seq<bool>,
    at: int,
    n: int,
)
    requires
        0 <= at < claimed.len(),
        n <= claimed.len(),
        claimed.len() == before.len(),
        claimed.len() == after.len(),
        !claimed[at],
        forall|i: int| 0 <= i < before.len() ==> (#[trigger] before[i]).id == (#[trigger] after[i]).id,
    ensures
        claim_bag(after, claimed.update(at, true), n, true) == (if at < n {
            claim_bag(before, claimed, n, true).insert(before[at].id)
        } else {
            claim_bag(before, claimed, n, true)
        }),
    decreases n,
{
    if n > 0 {
        lemma_claim_bag_step(before, after, claimed, at, n - 1);
        assert(before[n - 1].id == after[n - 1].id);
        assert(claim_bag(after, claimed.update(at, true), n, true) =~= (if at < n {
            claim_bag(before, claimed, n, true).insert(before[at].id)
        } else {
            claim_bag(before, claimed, n, true)
        }));
    }
}

spec fn slot_bag(slots: Seq<Slot>, merged: Seq<MergedView>, n: int) -> Multiset<i64>
    decreases n,
{
    if n <= 0 {
        Multiset::empty()
    } else {
        match slots[n - 1] {
            Slot::Row(at) => slot_bag(slots, merged, n - 1).insert(merged[at].id),
            Slot::Unknown => slot_bag(slots, merged, n - 1),
        }
    }
}

proof fn lemma_slot_bag_same(
    a_slots: Seq<Slot>,
    b_slots: Seq<Slot>,
    a: Seq<MergedView>,
    b: Seq<MergedView>,
    n: int,
)
    requires
        n <= a_slots.len(),
        n <= b_slots.len(),
        forall|i: int| 0 <= i < n ==> #[trigger] a_slots[i] == #[trigger] b_slots[i],
        a.len() == b.len(),
        forall|i: int| 0 <= i < a.len() ==> (#[trigger] a[i]).id == (#[trigger] b[i]).id,
        forall|k: int|
            0 <= k < n ==> (#[trigger] a_slots[k] matches Slot::Row(at) ==> 0 <= at < a.len()),
    ensures
        slot_bag(a_slots, a, n) == slot_bag(b_slots, b, n),
    decreases n,
{
    if n > 0 {
        assert(a_slots[n - 1] == b_slots[n - 1]);
        match a_slots[n - 1] {
            Slot::Row(at) => {
                assert(a[at].id == b[at].id);
            },
            Slot::Unknown => {},
        }
        lemma_slot_bag_same(a_slots, b_slots, a, b, n - 1);
    }
}

proof fn lemma_free_position_free(
    merged: Seq<MergedView>,
    claimed: Seq<bool>,
    stem: Seq<char>,
    from: int,
)
    requires
        0 <= from,
    ensures
        free_position(merged, claimed, stem, from) >= from,
        free_position(merged, claimed, stem, from) < merged.len() ==> !claimed[free_position(
            merged,
            claimed,
            stem,
            from,
        )],
    decreases merged.len() - from,
{
    if from < merged.len() && !(!claimed[from] && merged[from].stem == stem) {
        lemma_free_position_free(merged, claimed, stem, from + 1);
    }
}

proof fn lemma_matching_keeps_ids(start: Matching, parts: Seq<PartView>)
    requires
        start.claimed.len() == start.merged.len(),
        start.slots.len() == 0,
        forall|i: int| 0 <= i < start.claimed.len() ==> !(#[trigger] start.claimed[i]),
    ensures
        ({
            let m = match_parts(start, parts);
            let n = start.merged.len() as int;
            &&& forall|i: int|
                0 <= i < n ==> (#[trigger] m.merged[i]).id == (#[trigger] start.merged[i]).id
            &&& slot_bag(m.slots, m.merged, m.slots.len() as int) == claim_bag(
                m.merged,
                m.claimed,
                n,
                true,
            )
        }),
    decreases parts.len(),
{
    let n = start.merged.len() as int;
    if parts.len() == 0 {
        lemma_claim_bag_none(start.merged, start.claimed, n);
    } else {
        let before = match_parts(start, parts.drop_last());
        lemma_matching_keeps_ids(start, parts.drop_last());
        lemma_match_lengths(start, parts.drop_last());
        lemma_slots_in_range(start, parts.drop_last());
        let part = parts.last();
        let m = match_parts(start, parts);
        let at = free_position(before.merged, before.claimed, part.stem, 0);
        lemma_free_position_free(before.merged, before.claimed, part.stem, 0);
        assert forall|i: int| 0 <= i < n implies (#[trigger] m.merged[i]).id == (
        #[trigger] before.merged[i]).id by {}
        lemma_slot_bag_same(
            before.slots,
            m.slots,
            before.merged,
            m.merged,
            before.slots.len() as int,
        );
        if at < before.merged.len() {
            lemma_claim_bag_step(before.merged, m.merged, before.claimed, at, n);
            assert(m.slots[m.slots.len() - 1] == Slot::Row(at));
        } else {
            assert(m.slots[m.slots.len() - 1] == Slot::Unknown);
        }
        assert forall|i: int| 0 <= i < n implies (#[trigger] m.merged[i]).id == (
        #[trigger] start.merged[i]).id by {
            assert(before.merged[i].id == start.merged[i].id);
        }
    }
}

proof fn lemma_claim_bag_none(merged: Seq<MergedView>, claimed: Seq<bool>, n: int)
    requires
        n <= claimed.len(),
        forall|i: int| 0 <= i < claimed.len() ==> !(#[trigger] claimed[i]),
    ensures
        claim_bag(merged, claimed, n, true) == Multiset::<i64>::empty(),
    decreases n,
{
    if n > 0 {
        assert(!claimed[n - 1]);
        lemma_claim_bag_none(merged, claimed, n - 1);
    }
}

spec fn list_ids(list: Seq<int>, merged: Seq<MergedView>) -> Seq<i64> {
    list.map_values(|i: int| merged[i].id)
}

proof fn lemma_owed_bag(merged: Seq<MergedView>, claimed: Seq<bool>, n: int)
    ensures
        list_ids(owed(merged, claimed, n), merged).to_multiset() == claim_bag(
            merged,
            claimed,
            n,
            false,
        ),
    decreases n,
{
    broadcast use vstd::seq_lib::group_to_multiset_ensures;

    if n > 0 {
        lemma_owed_bag(merged, claimed, n - 1);
        let front = owed(merged, claimed, n - 1);
        if !claimed[n - 1] {
            lemma_owed_position_bound(front, merged, n - 1);
            let at = owed_position(front, merged, n - 1);
            assert(list_ids(front.insert(at, n - 1), merged) =~= list_ids(front, merged).insert(
                at,
                merged[n - 1].id,
            ));
            vstd::seq_lib::to_multiset_insert(list_ids(front, merged), at, merged[n - 1].id);
        }
    } else {
        assert(list_ids(owed(merged, claimed, n), merged) =~= Seq::empty());
        assert(list_ids(owed(merged, claimed, n), merged).to_multiset() =~= Multiset::empty());
    }
}

proof fn lemma_owed_position_bound(list: Seq<int>, merged: Seq<MergedView>, index: int)
    ensures
        0 <= owed_position(list, merged, index) <= list.len(),
    decreases list.len(),
{
    if list.len() > 0 && !owed_before(merged[index], merged[list[0]]) {
        lemma_owed_position_bound(list.drop_first(), merged, index);
    }
}

proof fn lemma_kept_bag(m: Matching, n: int)
    requires
        0 <= n <= m.slots.len(),
    ensures
        kept_ids(kept_in_slots(m, n)).to_multiset() == slot_bag(m.slots, m.merged, n),
    decreases n,
{
    broadcast use vstd::seq_lib::group_to_multiset_ensures;

    if n > 0 {
        lemma_kept_bag(m, n - 1);
        let front = kept_in_slots(m, n - 1);
        match m.slots[n - 1] {
            Slot::Row(at) => {
                let row = planned_view(m.merged[at], n - 1);
                assert(kept_ids(front.push(row)) =~= kept_ids(front).push(row.id));
                vstd::seq_lib::to_multiset_build(kept_ids(front), row.id);
            },
            Slot::Unknown => {},
        }
    } else {
        assert(kept_ids(kept_in_slots(m, n)) =~= Seq::empty());
        assert(kept_ids(kept_in_slots(m, n)).to_multiset() =~= Multiset::empty());
    }
}

/// No row is ever dropped and none is used twice: the kept rows and the detached ones together
/// are exactly the rows of the session.
pub proof fn law_no_row_is_dropped(session_id: i64, parts: Seq<PartView>, rows: Seq<RowView>)
    ensures
        kept_ids(planned(session_id, parts, rows).keep).to_multiset().add(
            planned(session_id, parts, rows).detach.to_multiset(),
        ) == row_ids(rows).to_multiset(),
{
    let plan = planned(session_id, parts, rows);
    let groups = grouped(rows);
    let merged = merged_groups(groups);
    let start = unmatched_start(merged, group_events(groups));
    let m = session_matching(parts, rows);
    let n = merged.len() as int;
    lemma_groups_not_empty(rows);
    lemma_grouping_keeps_ids(rows);
    lemma_detached_bag(groups);
    lemma_match_lengths(start, parts);
    lemma_matching_keeps_ids(start, parts);
    lemma_kept_bag(m, parts.len() as int);
    lemma_owed_bag(m.merged, m.claimed, n);
    lemma_claim_bags(m.merged, m.claimed, n);
    lemma_merged_bag_prefix(m.merged, merged, n);
    let list = owed(m.merged, m.claimed, n);
    let front = kept_in_slots(m, parts.len() as int);
    let back = kept_owed(m, list, parts.len() as int);
    assert(kept_ids(back) =~= list_ids(list, m.merged));
    assert(kept_ids(plan.keep) =~= kept_ids(front) + kept_ids(back));
    vstd::seq_lib::lemma_multiset_commutative(kept_ids(front), kept_ids(back));
    assert(kept_ids(plan.keep).to_multiset() =~= merged_bag(merged, n));
}

proof fn lemma_ranking_keeps_rows(rows: Seq<RowView>)
    ensures
        forall|row: RowView| #[trigger] ranked(rows).contains(row) <==> rows.contains(row),
    decreases rows.len(),
{
    if rows.len() > 0 {
        let front = rows.drop_last();
        let list = ranked(front);
        let at = rank_position(list, rows.last());
        lemma_ranking_keeps_rows(front);
        lemma_ranked_len(rows);
        lemma_ranked_len(front);
        assert(rows =~= front.push(rows.last()));
        assert forall|row: RowView| #[trigger] ranked(rows).contains(row) <==> rows.contains(
            row,
        ) by {
            let all = ranked(rows);
            if all.contains(row) {
                let i = choose|i: int| 0 <= i < all.len() && all[i] == row;
                if i < at {
                    assert(list.contains(list[i]));
                } else if i > at {
                    assert(list.contains(list[i - 1]));
                }
                if i != at {
                    let k = choose|k: int| 0 <= k < front.len() && front[k] == row;
                    assert(rows[k] == row);
                } else {
                    assert(rows[rows.len() - 1] == row);
                }
            }
            if rows.contains(row) {
                let k = choose|k: int| 0 <= k < rows.len() && rows[k] == row;
                if k < front.len() {
                    assert(front[k] == row);
                    assert(list.contains(row));
                    let i = choose|i: int| 0 <= i < list.len() && list[i] == row;
                    if i < at {
                        assert(all[i] == row);
                    } else {
                        assert(all[i + 1] == row);
                    }
                } else {
                    assert(all[at] == row);
                }
            }
        }
    }
}

proof fn lemma_merging_keeps_diagnostics(list: Seq<RowView>)
    requires
        list.len() > 0,
    ensures
        forall|i: int|
            0 <= i < list.len() ==> {
                &&& merged_list(list).attempts >= (#[trigger] list[i]).attempts
                &&& list[i].aid is Some ==> merged_list(list).aid is Some
                &&& list[i].last_error is Some ==> merged_list(list).last_error is Some
                &&& list[i].remote is Some ==> merged_list(list).remote is Some
            },
        exists|i: int|
            0 <= i < list.len() && (#[trigger] list[i]).attempts == merged_list(list).attempts,
        merged_list(list).aid is Some ==> exists|i: int|
            0 <= i < list.len() && (#[trigger] list[i]).aid == merged_list(list).aid,
        merged_list(list).last_error is Some ==> exists|i: int|
            0 <= i < list.len() && (#[trigger] list[i]).last_error == merged_list(list).last_error
                && (list[i].updated_at, list[i].id) == merged_list(list).told_by,
        forall|i: int|
            0 <= i < list.len() && (#[trigger] list[i]).last_error is Some ==> !updated_after(
                (list[i].updated_at, list[i].id),
                merged_list(list).told_by,
            ),
        merged_list(list).remote is Some ==> exists|i: int|
            0 <= i < list.len() && (#[trigger] list[i]).remote == merged_list(list).remote,
    decreases list.len(),
{
    let last = list.len() - 1;
    assert(list[last] == list.last());
    if list.len() > 1 {
        let front = list.drop_last();
        let before = merged_list(front);
        let after = merged_list(list);
        lemma_merging_keeps_diagnostics(front);
        assert forall|i: int| 0 <= i < list.len() implies {
            &&& after.attempts >= (#[trigger] list[i]).attempts
            &&& list[i].aid is Some ==> after.aid is Some
            &&& list[i].last_error is Some ==> after.last_error is Some
            &&& list[i].remote is Some ==> after.remote is Some
        } by {
            if i < front.len() {
                assert(front[i] == list[i]);
            }
        }
        assert forall|i: int|
            0 <= i < list.len() && (#[trigger] list[i]).last_error is Some implies !updated_after(
            (list[i].updated_at, list[i].id),
            after.told_by,
        ) by {
            if i < front.len() {
                assert(front[i] == list[i]);
            }
        }
        let i = choose|i: int|
            0 <= i < front.len() && (#[trigger] front[i]).attempts == before.attempts;
        assert(list[i] == front[i]);
        if before.aid is Some {
            let j = choose|j: int| 0 <= j < front.len() && (#[trigger] front[j]).aid == before.aid;
            assert(list[j] == front[j]);
        }
        if before.last_error is Some {
            let j = choose|j: int|
                0 <= j < front.len() && (#[trigger] front[j]).last_error == before.last_error && (
                front[j].updated_at,
                front[j].id,
                ) == before.told_by;
            assert(list[j] == front[j]);
        }
        if before.remote is Some {
            let j = choose|j: int|
                0 <= j < front.len() && (#[trigger] front[j]).remote == before.remote;
            assert(list[j] == front[j]);
        }
    }
}

/// Whether the error of row `i` is the newest: no row that has one was updated later.
pub open spec fn tells_newest(rows: Seq<RowView>, i: int) -> bool {
    &&& 0 <= i < rows.len()
    &&& rows[i].last_error is Some
    &&& forall|j: int|
        0 <= j < rows.len() && (#[trigger] rows[j]).last_error is Some ==> !updated_after(
            (rows[j].updated_at, rows[j].id),
            (rows[i].updated_at, rows[i].id),
        )
}

/// Merging loses nothing that was known of a source: the most attempts, a target, the newest error
/// and a published part are kept wherever any of its rows has one, and each of them is one that a
/// row has.
pub proof fn law_merging_loses_no_diagnostic(rows: Seq<RowView>)
    requires
        rows.len() > 0,
    ensures
        forall|i: int|
            0 <= i < rows.len() ==> {
                &&& merged_group(rows).attempts >= (#[trigger] rows[i]).attempts
                &&& rows[i].aid is Some ==> merged_group(rows).aid is Some
                &&& rows[i].last_error is Some ==> merged_group(rows).last_error is Some
                &&& rows[i].remote is Some ==> merged_group(rows).remote is Some
            },
        exists|i: int|
            0 <= i < rows.len() && (#[trigger] rows[i]).attempts == merged_group(rows).attempts,
        merged_group(rows).aid is Some ==> exists|i: int|
            0 <= i < rows.len() && (#[trigger] rows[i]).aid == merged_group(rows).aid,
        merged_group(rows).last_error is Some ==> exists|i: int| #[trigger]
            tells_newest(rows, i) && rows[i].last_error == merged_group(rows).last_error,
        merged_group(rows).remote is Some ==> exists|i: int|
            0 <= i < rows.len() && (#[trigger] rows[i]).remote == merged_group(rows).remote,
{
    let list = ranked(rows);
    let merged = merged_group(rows);
    lemma_ranked_len(rows);
    lemma_ranking_keeps_rows(rows);
    lemma_merging_keeps_diagnostics(list);
    assert forall|i: int| 0 <= i < rows.len() implies {
        &&& merged.attempts >= (#[trigger] rows[i]).attempts
        &&& rows[i].aid is Some ==> merged.aid is Some
        &&& rows[i].last_error is Some ==> merged.last_error is Some
        &&& rows[i].remote is Some ==> merged.remote is Some
    } by {
        assert(rows.contains(rows[i]));
        assert(list.contains(rows[i]));
    }
    assert forall|j: int| 0 <= j < list.len() implies rows.contains(#[trigger] list[j]) by {
        assert(list.contains(list[j]));
    }
    if merged.last_error is Some {
        let k = choose|k: int|
            0 <= k < list.len() && (#[trigger] list[k]).last_error == merged.last_error && (
            list[k].updated_at,
            list[k].id,
            ) == merged.told_by;
        assert(rows.contains(list[k]));
        let i = choose|i: int| 0 <= i < rows.len() && rows[i] == list[k];
        assert forall|j: int| 0 <= j < rows.len() && (#[trigger] rows[j]).last_error is Some implies
            !updated_after(
            (rows[j].updated_at, rows[j].id),
            (rows[i].updated_at, rows[i].id),
        ) by {
            assert(list.contains(rows[j]));
            let at = choose|at: int| 0 <= at < list.len() && list[at] == rows[j];
            assert(list[at].last_error is Some);
        }
        assert(tells_newest(rows, i));
    }
}

/// The row that survives a merge is one that no other row for the source precedes: a published
/// one where there is one, else the one updated last.
pub proof fn law_survivor_is_first(rows: Seq<RowView>)
    requires
        rows.len() > 0,
    ensures
        ranked(rows).len() == rows.len(),
        merged_group(rows).id == ranked(rows)[0].id,
        forall|k: int| 0 <= k < rows.len() ==> !precedes(#[trigger] rows[k], ranked(rows)[0]),
        (exists|k: int| 0 <= k < rows.len() && (#[trigger] rows[k]).status == SUCCEEDED@)
            ==> ranked(rows)[0].status == SUCCEEDED@,
{
    lemma_ranked_len(rows);
    lemma_merging_keeps_ids(ranked(rows));
    lemma_first_is_least(rows);
    if exists|k: int| 0 <= k < rows.len() && (#[trigger] rows[k]).status == SUCCEEDED@ {
        let k = choose|k: int| 0 <= k < rows.len() && (#[trigger] rows[k]).status == SUCCEEDED@;
        assert(!precedes(rows[k], ranked(rows)[0]));
    }
}

proof fn lemma_first_is_least(rows: Seq<RowView>)
    requires
        rows.len() > 0,
    ensures
        forall|k: int| 0 <= k < rows.len() ==> !precedes(#[trigger] rows[k], ranked(rows)[0]),
    decreases rows.len(),
{
    let front = rows.drop_last();
    let row = rows.last();
    lemma_ranked_len(rows);
    lemma_ranked_len(front);
    if front.len() == 0 {
        assert(ranked(front) =~= Seq::empty());
        assert(ranked(rows)[0] == row);
        assert(rows[0] == row);
    } else {
        lemma_first_is_least(front);
        let old_first = ranked(front)[0];
        lemma_rank_position_bound(ranked(front).drop_first(), row);
        assert forall|k: int| 0 <= k < rows.len() implies !precedes(
            #[trigger] rows[k],
            ranked(rows)[0],
        ) by {
            if k < front.len() {
                assert(front[k] == rows[k]);
                assert(!precedes(front[k], old_first));
            }
            if precedes(row, old_first) {
                assert(ranked(rows)[0] == row);
            } else {
                assert(ranked(rows)[0] == old_first);
            }
        }
    }
}

proof fn lemma_kept_rising(m: Matching, n: int)
    requires
        0 <= n <= m.slots.len(),
    ensures
        forall|i: int, j: int|
            0 <= i < j < kept_in_slots(m, n).len() ==> (#[trigger] kept_in_slots(
                m,
                n,
            )[i]).segment_order < (#[trigger] kept_in_slots(m, n)[j]).segment_order,
    decreases n,
{
    if n > 0 {
        lemma_kept_rising(m, n - 1);
        lemma_kept_slots(m, n - 1);
        let before = kept_in_slots(m, n - 1);
        let after = kept_in_slots(m, n);
        assert forall|i: int, j: int| 0 <= i < j < after.len() implies (
        #[trigger] after[i]).segment_order < (#[trigger] after[j]).segment_order by {
            assert(after[i] == before[i]);
            if j < before.len() {
                assert(after[j] == before[j]);
            }
        }
    }
}

proof fn lemma_synthetic_rising(m: Matching, parts: Seq<PartView>, session_id: i64, n: int)
    requires
        0 <= n <= m.slots.len(),
    ensures
        ({
            let list = synthetic_in_slots(m, parts, session_id, n);
            forall|i: int, j: int|
                0 <= i < j < list.len() ==> (#[trigger] list[i]).segment_order < (
                #[trigger] list[j]).segment_order
        }),
    decreases n,
{
    if n > 0 {
        lemma_synthetic_rising(m, parts, session_id, n - 1);
        lemma_synthetic_slots(m, parts, session_id, n - 1);
        let before = synthetic_in_slots(m, parts, session_id, n - 1);
        let after = synthetic_in_slots(m, parts, session_id, n);
        assert forall|i: int, j: int| 0 <= i < j < after.len() implies (
        #[trigger] after[i]).segment_order < (#[trigger] after[j]).segment_order by {
            assert(after[i] == before[i]);
            if j < before.len() {
                assert(after[j] == before[j]);
            }
        }
    }
}

/// No place is given twice, and none is negative.
pub proof fn law_no_place_is_shared(session_id: i64, parts: Seq<PartView>, rows: Seq<RowView>)
    ensures
        ({
            let plan = planned(session_id, parts, rows);
            &&& forall|i: int|
                0 <= i < plan.keep.len() ==> (#[trigger] plan.keep[i]).segment_order >= 0
            &&& forall|i: int, j: int|
                0 <= i < j < plan.keep.len() ==> (#[trigger] plan.keep[i]).segment_order != (
                #[trigger] plan.keep[j]).segment_order
            &&& forall|i: int, j: int|
                0 <= i < j < plan.synthetic.len() ==> (#[trigger] plan.synthetic[i]).segment_order
                    != (#[trigger] plan.synthetic[j]).segment_order
            &&& forall|i: int, j: int|
                0 <= i < plan.keep.len() && 0 <= j < plan.synthetic.len() ==> (
                #[trigger] plan.keep[i]).segment_order != (
                #[trigger] plan.synthetic[j]).segment_order
        }),
{
    let groups = grouped(rows);
    let start = unmatched_start(merged_groups(groups), group_events(groups));
    let m = session_matching(parts, rows);
    let n = parts.len() as int;
    lemma_match_lengths(start, parts);
    lemma_kept_rising(m, n);
    lemma_kept_slots(m, n);
    lemma_synthetic_rising(m, parts, session_id, n);
    lemma_synthetic_slots(m, parts, session_id, n);
    let plan = planned(session_id, parts, rows);
    let front = kept_in_slots(m, n);
    let list = owed(m.merged, m.claimed, m.merged.len() as int);
    let back = kept_owed(m, list, n);
    let made = synthetic_in_slots(m, parts, session_id, n);
    assert forall|i: int| 0 <= i < plan.keep.len() implies (if i < front.len() {
        #[trigger] plan.keep[i] == front[i]
    } else {
        plan.keep[i].segment_order == n + (i - front.len())
    }) by {
        if i >= front.len() {
            assert(plan.keep[i] == back[i - front.len()]);
        }
    }
    assert forall|i: int, j: int| 0 <= i < j < plan.keep.len() implies (
    #[trigger] plan.keep[i]).segment_order != (#[trigger] plan.keep[j]).segment_order by {
        if i < front.len() {
            assert(plan.keep[i] == front[i]);
        }
        if j < front.len() {
            assert(plan.keep[j] == front[j]);
        }
    }
    assert forall|i: int, j: int|
        0 <= i < plan.keep.len() && 0 <= j < plan.synthetic.len() implies (
    #[trigger] plan.keep[i]).segment_order != (#[trigger] plan.synthetic[j]).segment_order by {
        assert(plan.synthetic[j] == made[j]);
        if i < front.len() {
            assert(plan.keep[i] == front[i]);
        }
    }
}

/// One write of those that bring a plan into the store.
#[derive(Debug, Clone, Copy, PartialEq, Eq, Structural)]
pub enum PlanWrite {
    /// Give the kept row `id` a place that no row ends at.
    Park { id: i64, order: i64 },
    /// Take the duplicate `id` out of the session.
    Detach { id: i64 },
    /// Write the kept row at this position of the plan.
    Keep { index: usize },
    /// Add the synthetic row at this position of the plan.
    Insert { index: usize },
    /// Note the event at this position of the plan.
    Record { index: usize },
}

/// The writes that bring a plan into the store, in their order: every kept row is parked before
/// any gets its place.
pub open spec fn plan_writes(plan: PlanView) -> Seq<PlanWrite> {
    Seq::new(
        plan.keep.len(),
        |i: int| PlanWrite::Park { id: plan.keep[i].id, order: (-1 - i) as i64 },
    ) + plan.detach.map_values(|id: i64| PlanWrite::Detach { id }) + Seq::new(
        plan.keep.len(),
        |i: int| PlanWrite::Keep { index: i as usize },
    ) + Seq::new(plan.synthetic.len(), |i: int| PlanWrite::Insert { index: i as usize })
        + Seq::new(plan.events.len(), |i: int| PlanWrite::Record { index: i as usize })
}

/// The writes that bring a plan into the store, in their order.
pub fn apply_plan(plan: &BackfillPlan) -> (writes: Vec<PlanWrite>)
    requires
        plan.keep.len() < i64::MAX,
    ensures
        writes@ == plan_writes(plan@),
{
    let mut writes: Vec<PlanWrite> = Vec::new();
    let ghost view = plan@;
    let ghost parks = Seq::new(
        view.keep.len(),
        |i: int| PlanWrite::Park { id: view.keep[i].id, order: (-1 - i) as i64 },
    );
    let ghost detaches = view.detach.map_values(|id: i64| PlanWrite::Detach { id });
    let ghost keeps = Seq::new(view.keep.len(), |i: int| PlanWrite::Keep { index: i as usize });
    let ghost inserts = Seq::new(
        view.synthetic.len(),
        |i: int| PlanWrite::Insert { index: i as usize },
    );
    let ghost records = Seq::new(
        view.events.len(),
        |i: int| PlanWrite::Record { index: i as usize },
    );
    let mut i: usize = 0;
    while i < plan.keep.len()
        invariant
            i <= plan.keep.len() < i64::MAX,
            view == plan@,
            parks == Seq::new(
                view.keep.len(),
                |k: int| PlanWrite::Park { id: view.keep[k].id, order: (-1 - k) as i64 },
            ),
            writes@ =~= parks.take(i as int),
        decreases plan.keep.len() - i,
    {
        writes.push(PlanWrite::Park { id: plan.keep[i].id, order: parking_order(i) });
        i = i + 1;
    }
    let mut i: usize = 0;
    while i < plan.detach.len()
        invariant
            i <= plan.detach.len(),
            view == plan@,
            detaches == view.detach.map_values(|id: i64| PlanWrite::Detach { id }),
            writes@ =~= parks + detaches.take(i as int),
        decreases plan.detach.len() - i,
    {
        writes.push(PlanWrite::Detach { id: plan.detach[i] });
        i = i + 1;
    }
    let mut i: usize = 0;
    while i < plan.keep.len()
        invariant
            i <= plan.keep.len(),
            view == plan@,
            keeps == Seq::new(view.keep.len(), |k: int| PlanWrite::Keep { index: k as usize }),
            writes@ =~= parks + detaches + keeps.take(i as int),
        decreases plan.keep.len() - i,
    {
        writes.push(PlanWrite::Keep { index: i });
        i = i + 1;
    }
    let mut i: usize = 0;
    while i < plan.synthetic.len()
        invariant
            i <= plan.synthetic.len(),
            view == plan@,
            inserts == Seq::new(
                view.synthetic.len(),
                |k: int| PlanWrite::Insert { index: k as usize },
            ),
            writes@ =~= parks + detaches + keeps + inserts.take(i as int),
        decreases plan.synthetic.len() - i,
    {
        writes.push(PlanWrite::Insert { index: i });
        i = i + 1;
    }
    let mut i: usize = 0;
    while i < plan.events.len()
        invariant
            i <= plan.events.len(),
            view == plan@,
            records == Seq::new(
                view.events.len(),
                |k: int| PlanWrite::Record { index: k as usize },
            ),
            writes@ =~= parks + detaches + keeps + inserts + records.take(i as int),
        decreases plan.events.len() - i,
    {
        writes.push(PlanWrite::Record { index: i });
        i = i + 1;
    }
    assert(writes@ =~= plan_writes(plan@));
    writes
}

/// Where kept row `i` stands after the first `n` writes, once all rows are parked.
pub open spec fn kept_place(plan: PlanView, n: int, i: int) -> int {
    if n > plan.keep.len() + plan.detach.len() + i {
        plan.keep[i].segment_order
    } else {
        -1 - i
    }
}

/// Whether synthetic row `i` is there after the first `n` writes.
pub open spec fn is_inserted(plan: PlanView, n: int, i: int) -> bool {
    n > 2 * plan.keep.len() + plan.detach.len() + i
}

/// While the ledger is renumbered no two rows ever stand at one place: not after any of the writes
/// that follow the parking.
pub proof fn law_renumbering_never_collides(
    session_id: i64,
    parts: Seq<PartView>,
    rows: Seq<RowView>,
    n: int,
)
    requires
        n >= planned(session_id, parts, rows).keep.len(),
    ensures
        ({
            let plan = planned(session_id, parts, rows);
            &&& forall|i: int, j: int|
                0 <= i < j < plan.keep.len() ==> #[trigger] kept_place(plan, n, i)
                    != #[trigger] kept_place(plan, n, j)
            &&& forall|i: int, j: int|
                0 <= i < plan.keep.len() && 0 <= j < plan.synthetic.len() && #[trigger] is_inserted(
                    plan,
                    n,
                    j,
                ) ==> #[trigger] kept_place(plan, n, i) != plan.synthetic[j].segment_order
        }),
{
    let plan = planned(session_id, parts, rows);
    law_no_place_is_shared(session_id, parts, rows);
    assert forall|i: int, j: int| 0 <= i < j < plan.keep.len() implies #[trigger] kept_place(
        plan,
        n,
        i,
    ) != #[trigger] kept_place(plan, n, j) by {
        assert(plan.keep[i].segment_order >= 0);
        assert(plan.keep[j].segment_order >= 0);
        assert(plan.keep[i].segment_order != plan.keep[j].segment_order);
    }
    assert forall|i: int, j: int|
        0 <= i < plan.keep.len() && 0 <= j < plan.synthetic.len() && #[trigger] is_inserted(
            plan,
            n,
            j,
        ) implies #[trigger] kept_place(plan, n, i) != plan.synthetic[j].segment_order by {
        assert(plan.keep[i].segment_order != plan.synthetic[j].segment_order);
    }
}

/// How far the rebuilding has come, and the session that it came to.
#[derive(Debug, Clone, Copy, PartialEq, Eq, Structural)]
pub struct BackfillJournal {
    pub last_session_id: i64,
    pub summary: BackfillSummary,
}

/// The journal moved on to a session, where it has not passed it already.
pub open spec fn advanced(
    journal: BackfillJournal,
    session_id: i64,
    migrated: i64,
    synthetic: i64,
    conflicts: i64,
) -> BackfillJournal {
    if journal.last_session_id < session_id {
        BackfillJournal {
            last_session_id: session_id,
            summary: BackfillSummary {
                processed_sessions: (journal.summary.processed_sessions + 1) as i64,
                migrated_rows: (journal.summary.migrated_rows + migrated) as i64,
                synthetic_rows: (journal.summary.synthetic_rows + synthetic) as i64,
                conflict_rows: (journal.summary.conflict_rows + conflicts) as i64,
                completed: journal.summary.completed,
            },
        }
    } else {
        journal
    }
}

/// The journal after the sessions `ids`, of which each brought its counts.
pub open spec fn advanced_through(
    journal: BackfillJournal,
    ids: Seq<i64>,
    counts: Seq<(i64, i64, i64)>,
) -> BackfillJournal
    decreases ids.len(),
{
    if ids.len() == 0 {
        journal
    } else {
        let (migrated, synthetic, conflicts) = counts[ids.len() - 1];
        advanced(
            advanced_through(journal, ids.drop_last(), counts.drop_last()),
            ids.last(),
            migrated,
            synthetic,
            conflicts,
        )
    }
}

/// A run that was broken off goes on where it stopped: the journal never falls back, and a session
/// that it has passed counts no second time, whatever a second visit would bring.
pub proof fn law_no_session_counts_twice(
    journal: BackfillJournal,
    ids: Seq<i64>,
    counts: Seq<(i64, i64, i64)>,
    again: i64,
    migrated: i64,
    synthetic: i64,
    conflicts: i64,
)
    requires
        counts.len() == ids.len(),
        again <= journal.last_session_id || ids.contains(again),
    ensures
        advanced_through(journal, ids, counts).last_session_id >= journal.last_session_id,
        advanced(
            advanced_through(journal, ids, counts),
            again,
            migrated,
            synthetic,
            conflicts,
        ) == advanced_through(journal, ids, counts),
    decreases ids.len(),
{
    if ids.len() > 0 {
        let front = ids.drop_last();
        let fewer = counts.drop_last();
        law_no_session_counts_twice(
            journal,
            front,
            fewer,
            journal.last_session_id,
            migrated,
            synthetic,
            conflicts,
        );
        if again > journal.last_session_id && again != ids.last() {
            let at = choose|at: int| 0 <= at < ids.len() && ids[at] == again;
            assert(front[at] == again);
            law_no_session_counts_twice(
                journal,
                front,
                fewer,
                again,
                migrated,
                synthetic,
                conflicts,
            );
        }
    }
}

impl BackfillJournal {
    /// Moves the journal on to a session; one that the journal has passed already changes nothing,
    /// so that no session counts twice.
    pub fn advance(
        &mut self,
        session_id: i64,
        migrated: i64,
        synthetic: i64,
        conflicts: i64,
    ) -> (moved: bool)
        requires
            old(self).summary.processed_sessions < i64::MAX,
            i64::MIN <= old(self).summary.migrated_rows + migrated <= i64::MAX,
            i64::MIN <= old(self).summary.synthetic_rows + synthetic <= i64::MAX,
            i64::MIN <= old(self).summary.conflict_rows + conflicts <= i64::MAX,
        ensures
            moved == (old(self).last_session_id < session_id),
            *final(self) == advanced(*old(self), session_id, migrated, synthetic, conflicts),
    {
        if self.last_session_id >= session_id {
            return false;
        }
        self.last_session_id = session_id;
        self.summary.add_session(migrated, synthetic, conflicts);
        true
    }
}

/// Whether two of the rows claim different published parts.
pub open spec fn claims_clash(rows: Seq<RowView>) -> bool {
    exists|i: int, j: int|
        0 <= i < rows.len() && 0 <= j < rows.len() && (#[trigger] rows[i]).remote is Some && (
        #[trigger] rows[j]).remote is Some && rows[i].remote != rows[j].remote
}

/// Whether one of the rows claims a published part.
pub open spec fn any_claim(rows: Seq<RowView>) -> bool {
    exists|i: int| 0 <= i < rows.len() && (#[trigger] rows[i]).remote is Some
}

/// Whether the first of ordered rows is a conflict already, and no claim settles it.
spec fn conflict_stays(list: Seq<RowView>) -> bool {
    list[0].status == CONFLICT@ && (list[0].remote is Some || !any_claim(list))
}

proof fn lemma_conflict_of_list(list: Seq<RowView>)
    requires
        list.len() > 0,
    ensures
        merged_list(list).status == CONFLICT@ <==> claims_clash(list) || conflict_stays(list),
    decreases list.len(),
{
    reveal_strlit("conflict");
    reveal_strlit("succeeded");
    lemma_merging_keeps_diagnostics(list);
    if list.len() > 1 {
        let front = list.drop_last();
        let before = merged_list(front);
        let last = list.len() - 1;
        let row = list[last];
        lemma_conflict_of_list(front);
        lemma_merging_keeps_diagnostics(front);
        assert(SUCCEEDED@.len() != CONFLICT@.len());
        assert(front[0] == list[0]);
        assert(any_claim(list) <==> any_claim(front) || row.remote is Some) by {
            if any_claim(front) {
                let i = choose|i: int| 0 <= i < front.len() && (#[trigger] front[i]).remote is Some;
                assert(list[i].remote is Some);
            }
            if any_claim(list) && row.remote is None {
                let i = choose|i: int| 0 <= i < list.len() && (#[trigger] list[i]).remote is Some;
                assert(front[i].remote is Some);
            }
        }
        if claims_clash(front) {
            let (i, j) = choose|i: int, j: int|
                0 <= i < front.len() && 0 <= j < front.len() && (#[trigger] front[i]).remote is Some
                    && (#[trigger] front[j]).remote is Some && front[i].remote != front[j].remote;
            assert(list[i].remote != list[j].remote);
        }
        if before.remote is Some {
            let i = choose|i: int|
                0 <= i < front.len() && (#[trigger] front[i]).remote == before.remote;
            assert(list[i].remote == before.remote);
            if row.remote is Some && row.remote != before.remote {
                assert(list[i].remote != list[last].remote);
            }
        }
        if claims_clash(list) && !claims_differ(before, row) {
            let (i, j) = choose|i: int, j: int|
                0 <= i < list.len() && 0 <= j < list.len() && (#[trigger] list[i]).remote is Some
                    && (#[trigger] list[j]).remote is Some && list[i].remote != list[j].remote;
            let other = if i == last {
                j
            } else {
                i
            };
            assert(front[other].remote is Some);
            assert(before.remote is Some);
            let kept = choose|k: int|
                0 <= k < front.len() && (#[trigger] front[k]).remote == before.remote;
            if i < last && j < last {
                assert(front[i].remote != front[j].remote);
            } else {
                assert(front[kept].remote != front[other].remote);
            }
        }
    }
}

/// Rows for one source become a conflict exactly where two of them claim different published parts,
/// however many there are and in whatever order they come. A row that survives as a conflict already
/// stays one until a claim settles it.
pub proof fn law_different_claims_are_a_conflict(rows: Seq<RowView>)
    requires
        rows.len() > 0,
    ensures
        ranked(rows).len() == rows.len(),
        ranked(rows)[0].status != CONFLICT@ ==> (merged_group(rows).status == CONFLICT@
            <==> claims_clash(rows)),
        merged_group(rows).status == CONFLICT@ <==> claims_clash(rows) || (ranked(rows)[0].status
            == CONFLICT@ && (ranked(rows)[0].remote is Some || !any_claim(rows))),
{
    let list = ranked(rows);
    lemma_ranked_len(rows);
    lemma_ranking_keeps_rows(rows);
    lemma_conflict_of_list(list);
    lemma_same_claims(list, rows);
    lemma_same_claims(rows, list);
}

proof fn lemma_same_claims(a: Seq<RowView>, b: Seq<RowView>)
    requires
        forall|row: RowView| a.contains(row) ==> #[trigger] b.contains(row),
    ensures
        claims_clash(a) ==> claims_clash(b),
        any_claim(a) ==> any_claim(b),
{
    if any_claim(a) {
        let i = choose|i: int| 0 <= i < a.len() && (#[trigger] a[i]).remote is Some;
        assert(b.contains(a[i]));
        let k = choose|k: int| 0 <= k < b.len() && b[k] == a[i];
        assert(b[k].remote is Some);
    }
    if claims_clash(a) {
        let (i, j) = choose|i: int, j: int|
            0 <= i < a.len() && 0 <= j < a.len() && (#[trigger] a[i]).remote is Some && (
            #[trigger] a[j]).remote is Some && a[i].remote != a[j].remote;
        assert(b.contains(a[i]) && b.contains(a[j]));
        let k = choose|k: int| 0 <= k < b.len() && b[k] == a[i];
        let l = choose|l: int| 0 <= l < b.len() && b[l] == a[j];
        assert(b[k].remote != b[l].remote);
    }
}

/// Whether the groups are by identity: none is empty, the rows of each have one identity, and no two
/// have the same.
spec fn by_identity(groups: Seq<Seq<RowView>>) -> bool {
    &&& forall|g: int| 0 <= g < groups.len() ==> (#[trigger] groups[g]).len() > 0
    &&& forall|g: int, i: int|
        0 <= g < groups.len() && 0 <= i < groups[g].len() ==> (
        #[trigger] groups[g][i]).identity == groups[g][0].identity
    &&& forall|g: int, h: int|
        0 <= g < h < groups.len() ==> (#[trigger] groups[g])[0].identity != (
        #[trigger] groups[h])[0].identity
}

spec fn is_group_of(groups: Seq<Seq<RowView>>, g: int, identity: Seq<char>) -> bool {
    0 <= g < groups.len() && groups[g].len() > 0 && groups[g][0].identity == identity
}

spec fn has_identity(rows: Seq<RowView>, identity: Seq<char>) -> bool {
    exists|i: int| 0 <= i < rows.len() && (#[trigger] rows[i]).identity == identity
}

proof fn lemma_first_group_of(groups: Seq<Seq<RowView>>, identity: Seq<char>)
    ensures
        ({
            let at = group_position(groups, identity);
            &&& 0 <= at <= groups.len()
            &&& at < groups.len() ==> is_group_of(groups, at, identity)
            &&& forall|g: int| 0 <= g < at ==> !(#[trigger] is_group_of(groups, g, identity))
        }),
    decreases groups.len(),
{
    if groups.len() > 0 && !(groups[0].len() > 0 && groups[0][0].identity == identity) {
        let rest = groups.drop_first();
        lemma_first_group_of(rest, identity);
        assert forall|g: int| 0 <= g < group_position(groups, identity) implies !(
        #[trigger] is_group_of(groups, g, identity)) by {
            if g > 0 {
                assert(!is_group_of(rest, g - 1, identity));
                assert(rest[g - 1] == groups[g]);
            }
        }
    }
}

proof fn lemma_groups_are_by_identity(rows: Seq<RowView>)
    ensures
        by_identity(grouped(rows)),
        forall|identity: Seq<char>|
            has_identity(rows, identity) <==> exists|g: int| #[trigger]
                is_group_of(grouped(rows), g, identity),
    decreases rows.len(),
{
    if rows.len() > 0 {
        let front = rows.drop_last();
        let row = rows.last();
        let groups = grouped(front);
        let at = group_position(groups, row.identity);
        let after = grouped(rows);
        lemma_groups_are_by_identity(front);
        lemma_first_group_of(groups, row.identity);
        if at >= groups.len() {
            assert forall|g: int| 0 <= g < groups.len() implies (
            #[trigger] groups[g])[0].identity != row.identity by {
                assert(!is_group_of(groups, g, row.identity));
            }
        }
        assert(by_identity(after)) by {
            assert forall|g: int, i: int|
                0 <= g < after.len() && 0 <= i < after[g].len() implies (
            #[trigger] after[g][i]).identity == after[g][0].identity by {
                if g < groups.len() && i < groups[g].len() {
                    assert(after[g][i] == groups[g][i]);
                    assert(after[g][0] == groups[g][0]);
                }
            }
            assert forall|g: int, h: int| 0 <= g < h < after.len() implies (
            #[trigger] after[g])[0].identity != (#[trigger] after[h])[0].identity by {
                assert(after[g][0] == groups[g][0]);
                if h < groups.len() {
                    assert(after[h][0] == groups[h][0]);
                }
            }
        }
        assert forall|identity: Seq<char>|
            has_identity(rows, identity) <==> exists|g: int| #[trigger]
                is_group_of(after, g, identity) by {
            if has_identity(rows, identity) {
                let i = choose|i: int| 0 <= i < rows.len() && (#[trigger] rows[i]).identity == identity;
                if i < front.len() {
                    assert(front[i].identity == identity);
                    assert(has_identity(front, identity));
                    let g = choose|g: int| #[trigger] is_group_of(groups, g, identity);
                    assert(after[g][0] == groups[g][0]);
                    assert(is_group_of(after, g, identity));
                } else {
                    assert(is_group_of(after, at, identity));
                }
            }
            if exists|g: int| #[trigger] is_group_of(after, g, identity) {
                let g = choose|g: int| #[trigger] is_group_of(after, g, identity);
                if g < groups.len() {
                    assert(after[g][0] == groups[g][0]);
                    assert(is_group_of(groups, g, identity));
                    assert(has_identity(front, identity));
                    let i = choose|i: int|
                        0 <= i < front.len() && (#[trigger] front[i]).identity == identity;
                    assert(rows[i].identity == identity);
                } else {
                    assert(rows[rows.len() - 1].identity == identity);
                }
            }
        }
    }
}

proof fn lemma_merged_identity(list: Seq<RowView>)
    requires
        list.len() > 0,
    ensures
        merged_list(list).identity == list[0].identity,
    decreases list.len(),
{
    if list.len() > 1 {
        lemma_merged_identity(list.drop_last());
    }
}

/// The rows that stand at places of the published order, by their positions.
spec fn slot_rows(slots: Seq<Slot>) -> Seq<int>
    decreases slots.len(),
{
    if slots.len() == 0 {
        Seq::empty()
    } else {
        match slots.last() {
            Slot::Row(at) => slot_rows(slots.drop_last()).push(at),
            Slot::Unknown => slot_rows(slots.drop_last()),
        }
    }
}

proof fn lemma_joins_once(list: Seq<int>, at: int, index: int)
    requires
        list.no_duplicates(),
        !list.contains(index),
        0 <= at <= list.len(),
    ensures
        list.insert(at, index).no_duplicates(),
        forall|i: int| #[trigger]
            list.insert(at, index).contains(i) <==> i == index || list.contains(i),
{
    let after = list.insert(at, index);
    assert forall|a: int, b: int| 0 <= a < b < after.len() implies after[a] != after[b] by {
        if a < at {
            assert(after[a] == list[a]);
        } else if a > at {
            assert(after[a] == list[a - 1]);
        }
        if b < at {
            assert(after[b] == list[b]);
        } else if b > at {
            assert(after[b] == list[b - 1]);
        }
    }
    assert(after[at] == index);
    assert forall|i: int| list.contains(i) implies #[trigger] after.contains(i) by {
        let k = choose|k: int| 0 <= k < list.len() && list[k] == i;
        assert(after[if k < at {
            k
        } else {
            k + 1
        }] == i);
    }
    assert forall|i: int| #[trigger] after.contains(i) implies i == index || list.contains(i) by {
        let k = choose|k: int| 0 <= k < after.len() && after[k] == i;
        if k < at {
            assert(list[k] == i);
        } else if k > at {
            assert(list[k - 1] == i);
        }
    }
}

proof fn lemma_slots_hold_the_claimed(start: Matching, parts: Seq<PartView>)
    requires
        start.claimed.len() == start.merged.len(),
        start.slots.len() == 0,
        forall|i: int| 0 <= i < start.claimed.len() ==> !(#[trigger] start.claimed[i]),
    ensures
        ({
            let m = match_parts(start, parts);
            &&& m.merged.len() == start.merged.len()
            &&& m.claimed.len() == start.merged.len()
            &&& m.slots.len() == parts.len()
            &&& slot_rows(m.slots).no_duplicates()
            &&& forall|i: int| #[trigger]
                slot_rows(m.slots).contains(i) <==> 0 <= i < m.claimed.len() && m.claimed[i]
            &&& forall|i: int|
                0 <= i < m.merged.len() ==> (#[trigger] m.merged[i]).identity
                    == start.merged[i].identity
        }),
    decreases parts.len(),
{
    if parts.len() > 0 {
        let before = match_parts(start, parts.drop_last());
        let part = parts.last();
        let m = match_parts(start, parts);
        lemma_slots_hold_the_claimed(start, parts.drop_last());
        lemma_free_position_free(before.merged, before.claimed, part.stem, 0);
        let at = free_position(before.merged, before.claimed, part.stem, 0);
        assert(m.slots.drop_last() =~= before.slots);
        if at < before.merged.len() {
            let list = slot_rows(before.slots);
            lemma_joins_once(list, list.len() as int, at);
            assert(list.insert(list.len() as int, at) =~= list.push(at));
        }
        assert forall|i: int| 0 <= i < m.merged.len() implies (#[trigger] m.merged[i]).identity
            == start.merged[i].identity by {
            assert(before.merged[i].identity == start.merged[i].identity);
        }
    }
}

proof fn lemma_owed_are_the_unclaimed(merged: Seq<MergedView>, claimed: Seq<bool>, n: int)
    requires
        0 <= n <= claimed.len(),
    ensures
        owed(merged, claimed, n).no_duplicates(),
        forall|i: int| #[trigger]
            owed(merged, claimed, n).contains(i) <==> 0 <= i < n && !claimed[i],
    decreases n,
{
    if n > 0 {
        let front = owed(merged, claimed, n - 1);
        lemma_owed_are_the_unclaimed(merged, claimed, n - 1);
        lemma_owed_position_bound(front, merged, n - 1);
        if !claimed[n - 1] {
            lemma_joins_once(front, owed_position(front, merged, n - 1), n - 1);
        }
    }
}

proof fn lemma_kept_in_slots(m: Matching, n: int)
    requires
        0 <= n <= m.slots.len(),
    ensures
        kept_in_slots(m, n).len() == slot_rows(m.slots.take(n)).len(),
        forall|k: int|
            0 <= k < kept_in_slots(m, n).len() ==> (#[trigger] kept_in_slots(m, n)[k]).path
                == m.merged[slot_rows(m.slots.take(n))[k]].identity,
    decreases n,
{
    if n > 0 {
        lemma_kept_in_slots(m, n - 1);
        assert(m.slots.take(n).drop_last() =~= m.slots.take(n - 1));
    }
}

/// Every plan keeps exactly one row for each source: each source of a row is that of a kept one, no
/// other source is, and no two kept rows have the same.
pub proof fn law_one_row_per_source(session_id: i64, parts: Seq<PartView>, rows: Seq<RowView>)
    ensures
        ({
            let keep = planned(session_id, parts, rows).keep;
            &&& forall|i: int|
                0 <= i < rows.len() ==> exists|k: int|
                    0 <= k < keep.len() && (#[trigger] keep[k]).path == (
                    #[trigger] rows[i]).identity
            &&& forall|k: int|
                0 <= k < keep.len() ==> exists|i: int|
                    0 <= i < rows.len() && (#[trigger] rows[i]).identity == (
                    #[trigger] keep[k]).path
            &&& forall|j: int, k: int|
                0 <= j < k < keep.len() ==> (#[trigger] keep[j]).path != (#[trigger] keep[k]).path
        }),
{
    let groups = grouped(rows);
    let merged = merged_groups(groups);
    let start = unmatched_start(merged, group_events(groups));
    let m = session_matching(parts, rows);
    let n = merged.len() as int;
    let front = slot_rows(m.slots);
    let back = owed(m.merged, m.claimed, n);
    let all = front + back;
    let keep = planned(session_id, parts, rows).keep;
    lemma_groups_are_by_identity(rows);
    lemma_slots_hold_the_claimed(start, parts);
    lemma_owed_are_the_unclaimed(m.merged, m.claimed, n);
    lemma_kept_in_slots(m, parts.len() as int);
    assert(m.slots.take(parts.len() as int) =~= m.slots);
    assert forall|g: int| 0 <= g < n implies (#[trigger] m.merged[g]).identity
        == groups[g][0].identity by {
        let list = ranked(groups[g]);
        lemma_ranked_len(groups[g]);
        lemma_ranking_keeps_rows(groups[g]);
        lemma_merged_identity(list);
        assert(list.contains(list[0]));
        assert(groups[g].contains(list[0]));
        let i = choose|i: int| 0 <= i < groups[g].len() && groups[g][i] == list[0];
        assert(groups[g][i].identity == groups[g][0].identity);
        assert(merged[g] == merged_group(groups[g]));
    }
    assert forall|k: int| 0 <= k < keep.len() implies 0 <= all[k] < n && (
    #[trigger] keep[k]).path == groups[all[k]][0].identity by {
        if k < front.len() {
            assert(front.contains(front[k]));
            assert(keep[k] == kept_in_slots(m, parts.len() as int)[k]);
        } else {
            assert(back.contains(back[k - front.len()]));
        }
    }
    assert forall|j: int, k: int| 0 <= j < k < keep.len() implies (#[trigger] keep[j]).path != (
    #[trigger] keep[k]).path by {
        assert(all[j] != all[k]) by {
            if j < front.len() && k >= front.len() {
                assert(front.contains(front[j]));
                assert(back.contains(back[k - front.len()]));
            }
        }
        if all[j] < all[k] {
            assert(groups[all[j]][0].identity != groups[all[k]][0].identity);
        } else {
            assert(groups[all[k]][0].identity != groups[all[j]][0].identity);
        }
    }
    assert forall|i: int| 0 <= i < rows.len() implies exists|k: int|
        0 <= k < keep.len() && (#[trigger] keep[k]).path == (#[trigger] rows[i]).identity by {
        assert(has_identity(rows, rows[i].identity));
        let g = choose|g: int| #[trigger] is_group_of(groups, g, rows[i].identity);
        if m.claimed[g] {
            assert(front.contains(g));
            let k = choose|k: int| 0 <= k < front.len() && front[k] == g;
            assert(all[k] == g);
            assert(keep[k].path == rows[i].identity);
        } else {
            assert(back.contains(g));
            let k = choose|k: int| 0 <= k < back.len() && back[k] == g;
            assert(all[front.len() + k] == g);
            assert(keep[front.len() + k].path == rows[i].identity);
        }
    }
    assert forall|k: int| 0 <= k < keep.len() implies exists|i: int|
        0 <= i < rows.len() && (#[trigger] rows[i]).identity == (#[trigger] keep[k]).path by {
        assert(is_group_of(groups, all[k], keep[k].path));
        assert(has_identity(rows, keep[k].path));
    }
}

} // verus!
