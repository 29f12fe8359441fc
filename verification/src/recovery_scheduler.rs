//! Which missing segments a scan starts: session by session, in order, and each session by one run
//! at a time.
use std::collections::HashSet;
use vstd::prelude::*;

use crate::missing_segment::{is_due_for_silent_recovery, is_retryable, UploadMissingSegment};
use crate::order::{sort_keys, sorted_keys, SortKey};
use crate::recovery_eligibility::{eligibility_code, is_finalized_session, RecoveryEligibility};
use crate::segment_enrollment::SessionRow;
use crate::text::own;
use crate::time::Timestamp;

verus! {

/// How often a scan looks for segments that have become due.
pub const SCAN_INTERVAL_SECS: u64 = 60;

/// The group that a row belongs to: its session, or itself where it has none.
pub open spec fn group_of(session: Option<i64>, missing_id: i64) -> int {
    match session {
        Some(id) => id as int,
        None => -missing_id,
    }
}

/// The group that a row belongs to. Ids are positive, so that a row without a session never meets
/// a session.
pub fn group_key(upload_session_id: Option<i64>, missing_id: i64) -> (key: i64)
    requires
        missing_id > i64::MIN,
    ensures
        key == group_of(upload_session_id, missing_id),
{
    match upload_session_id {
        Some(id) => id,
        None => -missing_id,
    }
}

/// Rows without a session meet neither a session nor each other.
pub proof fn law_unbound_rows_stand_alone(session: i64, row: i64, other: i64)
    requires
        session > 0,
        row > 0,
        other > 0,
    ensures
        group_of(None, row) != group_of(Some(session), other),
        group_of(None, row) == group_of(None, other) <==> row == other,
{
}

/// The groups that a run works on now.
pub struct ActiveGroups {
    keys: HashSet<i64>,
}

/// What a run holds while it works on a group; only taking the group makes one.
pub struct GroupGuard {
    key: i64,
}

impl GroupGuard {
    /// The group that is held.
    pub closed spec fn group(&self) -> i64 {
        self.key
    }
}

impl View for ActiveGroups {
    type V = Set<i64>;

    closed spec fn view(&self) -> Set<i64> {
        self.keys@
    }
}

impl ActiveGroups {
    /// No group is worked on.
    pub fn new() -> (groups: ActiveGroups)
        ensures
            groups@ == Set::<i64>::empty(),
    {
        ActiveGroups { keys: HashSet::new() }
    }

    /// Takes a group, where no run works on it.
    pub fn try_claim_group(&mut self, key: i64) -> (guard: Option<GroupGuard>)
        ensures
            match guard {
                Some(held) => held.group() == key && !old(self)@.contains(key),
                None => old(self)@.contains(key),
            },
            final(self)@ == old(self)@.insert(key),
    {
        broadcast use vstd::std_specs::hash::group_hash_axioms;

        if self.keys.insert(key) {
            Some(GroupGuard { key })
        } else {
            assert(self@ =~= old(self)@.insert(key));
            None
        }
    }

    /// Gives a group back.
    pub fn release(&mut self, guard: GroupGuard)
        ensures
            final(self)@ == old(self)@.remove(guard.group()),
    {
        broadcast use vstd::std_specs::hash::group_hash_axioms;

        let _ = self.keys.remove(&guard.key);
    }
}

/// A group that is taken is not taken again before it is given back; then it is free, and the
/// other groups are as they were.
pub proof fn law_a_group_has_one_run_at_a_time(groups: Set<i64>, key: i64)
    requires
        !groups.contains(key),
    ensures
        groups.insert(key).contains(key),
        groups.insert(key).remove(key) == groups,
{
    assert(groups.insert(key).remove(key) =~= groups);
}

/// A row that is due.
#[derive(Clone, Copy, Debug, PartialEq, Eq, Structural)]
pub struct DueRow {
    pub id: i64,
    pub upload_session_id: Option<i64>,
    pub segment_order: i64,
}

/// Whether a row is due: it waits, its time has come, its session is not finalized, and it belongs
/// to the session that was asked for, where one was.
pub open spec fn is_due(
    row: UploadMissingSegment,
    sessions: Seq<SessionRow>,
    session_id: Option<i64>,
    now: Timestamp,
) -> bool {
    &&& is_retryable(row.status@)
    &&& row.next_retry_at@ <= now@
    &&& row.upload_session_id matches Some(id) ==> !(exists|i: int|
        is_finalized_session(sessions, id, i))
    &&& session_id is Some ==> row.upload_session_id == session_id
}

/// What a due row is ordered by: rows without a session first, then by session, place and id.
pub open spec fn due_key(row: UploadMissingSegment) -> SortKey {
    SortKey {
        major: match row.upload_session_id {
            Some(id) => id as i128,
            None => (i64::MIN - 1) as i128,
        },
        minor: row.segment_order as i128,
        id: row.id,
    }
}

/// The keys of the due rows.
pub open spec fn due_keys(
    rows: Seq<UploadMissingSegment>,
    sessions: Seq<SessionRow>,
    session_id: Option<i64>,
    now: Timestamp,
) -> Seq<SortKey>
    decreases rows.len(),
{
    if rows.len() == 0 {
        Seq::<SortKey>::empty()
    } else {
        let rest = due_keys(rows.drop_last(), sessions, session_id, now);
        if is_due(rows.last(), sessions, session_id, now) {
            rest.push(due_key(rows.last()))
        } else {
            rest
        }
    }
}

/// The due row that a key stands for.
pub open spec fn keyed_row(key: SortKey) -> DueRow {
    DueRow {
        id: key.id,
        upload_session_id: if key.major < i64::MIN {
            None
        } else {
            Some(key.major as i64)
        },
        segment_order: key.minor as i64,
    }
}

/// The due rows that keys stand for.
pub open spec fn keyed_rows(keys: Seq<SortKey>) -> Seq<DueRow> {
    keys.map_values(|key: SortKey| keyed_row(key))
}

fn session_finalized(sessions: &Vec<SessionRow>, id: i64) -> (found: bool)
    ensures
        found == exists|i: int| is_finalized_session(sessions@, id, i),
{
    let mut i: usize = 0;
    while i < sessions.len()
        invariant
            i <= sessions.len(),
            forall|k: int| 0 <= k < i ==> !is_finalized_session(sessions@, id, k),
        decreases sessions.len() - i,
    {
        if sessions[i].id == id && sessions[i].finalized {
            assert(is_finalized_session(sessions@, id, i as int));
            return true;
        }
        i = i + 1;
    }
    false
}

fn row_is_due(
    row: &UploadMissingSegment,
    sessions: &Vec<SessionRow>,
    session_id: Option<i64>,
    now: Timestamp,
) -> (due: bool)
    ensures
        due == is_due(*row, sessions@, session_id, now),
{
    if !is_due_for_silent_recovery(row.status.as_str(), row.next_retry_at, now) {
        return false;
    }
    let asked: bool = match (session_id, row.upload_session_id) {
        (Some(wanted), Some(id)) => wanted == id,
        (Some(_), None) => false,
        (None, _) => true,
    };
    match row.upload_session_id {
        Some(id) => asked && !session_finalized(sessions, id),
        None => asked,
    }
}

/// The rows that are due, in the order in which they are visited.
pub fn due_rows(
    rows: &Vec<UploadMissingSegment>,
    sessions: &Vec<SessionRow>,
    session_id: Option<i64>,
    now: Timestamp,
) -> (due: Vec<DueRow>)
    ensures
        due@ == keyed_rows(sorted_keys(due_keys(rows@, sessions@, session_id, now))),
{
    let mut keys: Vec<SortKey> = Vec::new();
    let mut i: usize = 0;
    while i < rows.len()
        invariant
            i <= rows.len(),
            keys@ == due_keys(rows@.take(i as int), sessions@, session_id, now),
        decreases rows.len() - i,
    {
        assert(rows@.take(i + 1).drop_last() =~= rows@.take(i as int));
        let row: &UploadMissingSegment = &rows[i];
        if row_is_due(row, sessions, session_id, now) {
            let major: i128 = match row.upload_session_id {
                Some(id) => id as i128,
                None => -9223372036854775809i128,
            };
            keys.push(SortKey { major, minor: row.segment_order as i128, id: row.id });
        }
        i = i + 1;
    }
    assert(rows@.take(rows@.len() as int) =~= rows@);
    let sorted: Vec<SortKey> = sort_keys(&keys);
    let mut due: Vec<DueRow> = Vec::new();
    let mut k: usize = 0;
    while k < sorted.len()
        invariant
            k <= sorted.len(),
            due@ =~= keyed_rows(sorted@.take(k as int)),
        decreases sorted.len() - k,
    {
        let key: SortKey = sorted[k];
        let session: Option<i64> = if key.major < -9223372036854775808i128 {
            None
        } else {
            Some(key.major as i64)
        };
        due.push(
            DueRow { id: key.id, upload_session_id: session, segment_order: key.minor as i64 },
        );
        k = k + 1;
    }
    assert(sorted@.take(sorted@.len() as int) =~= sorted@);
    due
}

/// The rows of one group, in the order in which they are visited.
pub struct RecoveryGroup {
    pub key: i64,
    pub rows: Vec<i64>,
}

/// A group as a mathematical value.
#[verifier::ext_equal]
pub ghost struct GroupView {
    pub key: int,
    pub rows: Seq<i64>,
}

impl View for RecoveryGroup {
    type V = GroupView;

    open spec fn view(&self) -> GroupView {
        GroupView { key: self.key as int, rows: self.rows@ }
    }
}

/// A list of groups as a mathematical value.
pub open spec fn group_views(groups: Seq<RecoveryGroup>) -> Seq<GroupView> {
    groups.map_values(|group: RecoveryGroup| group@)
}

/// The group under `key`.
pub open spec fn group_at(groups: Seq<GroupView>, key: int) -> Option<int>
    decreases groups.len(),
{
    if groups.len() == 0 {
        None
    } else {
        match group_at(groups.drop_last(), key) {
            Some(at) => Some(at),
            None => if groups.last().key == key {
                Some(groups.len() - 1)
            } else {
                None
            },
        }
    }
}

/// The groups with one more row: at the end of its group, or as a new group behind the others.
pub open spec fn joined(groups: Seq<GroupView>, key: int, id: i64) -> Seq<GroupView> {
    match group_at(groups, key) {
        Some(at) => groups.update(at, GroupView { key, rows: groups[at].rows.push(id) }),
        None => groups.push(GroupView { key, rows: seq![id] }),
    }
}

/// The rows in groups, in the order in which the groups first come up.
pub open spec fn grouped(rows: Seq<DueRow>) -> Seq<GroupView>
    decreases rows.len(),
{
    if rows.len() == 0 {
        Seq::<GroupView>::empty()
    } else {
        joined(
            grouped(rows.drop_last()),
            group_of(rows.last().upload_session_id, rows.last().id),
            rows.last().id,
        )
    }
}

proof fn lemma_group_at(groups: Seq<GroupView>, key: int)
    ensures
        match group_at(groups, key) {
            Some(at) => 0 <= at < groups.len() && groups[at].key == key && forall|k: int|
                0 <= k < at ==> groups[k].key != key,
            None => forall|k: int| 0 <= k < groups.len() ==> groups[k].key != key,
        },
    decreases groups.len(),
{
    if groups.len() > 0 {
        let rest = groups.drop_last();
        lemma_group_at(rest, key);
        assert forall|k: int| 0 <= k < rest.len() implies rest[k] == #[trigger] groups[k] by {}
    }
}

/// The rows in groups, in the order in which the groups first come up.
pub fn group_due_rows(rows: &Vec<DueRow>) -> (groups: Vec<RecoveryGroup>)
    requires
        forall|i: int| 0 <= i < rows@.len() ==> (#[trigger] rows@[i]).id > i64::MIN,
    ensures
        group_views(groups@) == grouped(rows@),
{
    let mut groups: Vec<RecoveryGroup> = Vec::new();
    let mut i: usize = 0;
    assert(group_views(groups@) =~= grouped(rows@.take(0)));
    while i < rows.len()
        invariant
            i <= rows.len(),
            forall|k: int| 0 <= k < rows@.len() ==> (#[trigger] rows@[k]).id > i64::MIN,
            group_views(groups@) == grouped(rows@.take(i as int)),
        decreases rows.len() - i,
    {
        let ghost before = group_views(groups@);
        assert(rows@.take(i + 1).drop_last() =~= rows@.take(i as int));
        let row: DueRow = rows[i];
        let key: i64 = group_key(row.upload_session_id, row.id);
        let mut at: usize = 0;
        while at < groups.len() && groups[at].key != key
            invariant
                at <= groups.len(),
                before == group_views(groups@),
                forall|k: int| 0 <= k < at ==> before[k].key != key,
            decreases groups.len() - at,
        {
            at = at + 1;
        }
        proof {
            lemma_group_at(before, key as int);
        }
        if at < groups.len() {
            assert(before[at as int].key == key);
            let mut group: RecoveryGroup = groups.remove(at);
            group.rows.push(row.id);
            groups.insert(at, group);
            assert(group_views(groups@) =~= before.update(
                at as int,
                GroupView { key: key as int, rows: before[at as int].rows.push(row.id) },
            ));
        } else {
            let mut ids: Vec<i64> = Vec::new();
            ids.push(row.id);
            groups.push(RecoveryGroup { key, rows: ids });
            assert(ids@ =~= seq![row.id]);
            assert(group_views(groups@) =~= before.push(
                GroupView { key: key as int, rows: seq![row.id] },
            ));
        }
        i = i + 1;
    }
    assert(rows@.take(rows@.len() as int) =~= rows@);
    groups
}

/// The rows of the group `key`, in the order in which they come.
pub open spec fn rows_of(rows: Seq<DueRow>, key: int) -> Seq<i64>
    decreases rows.len(),
{
    if rows.len() == 0 {
        Seq::<i64>::empty()
    } else {
        let rest = rows_of(rows.drop_last(), key);
        if group_of(rows.last().upload_session_id, rows.last().id) == key {
            rest.push(rows.last().id)
        } else {
            rest
        }
    }
}

/// Grouping keeps every row: each group holds the rows of its session in their order, no session
/// has two groups, and every row has one.
pub proof fn law_grouping_keeps_rows_and_order(rows: Seq<DueRow>)
    ensures
        forall|g: int|
            0 <= g < grouped(rows).len() ==> (#[trigger] grouped(rows)[g]).rows == rows_of(
                rows,
                grouped(rows)[g].key,
            ),
        forall|g: int, h: int|
            0 <= g < h < grouped(rows).len() ==> (#[trigger] grouped(rows)[g]).key != (
            #[trigger] grouped(rows)[h]).key,
        forall|i: int|
            0 <= i < rows.len() ==> group_at(
                grouped(rows),
                group_of((#[trigger] rows[i]).upload_session_id, rows[i].id),
            ) is Some,
        forall|key: int|
            group_at(grouped(rows), key) is None ==> #[trigger] rows_of(rows, key).len() == 0,
    decreases rows.len(),
{
    if rows.len() > 0 {
        let rest = rows.drop_last();
        law_grouping_keeps_rows_and_order(rest);
        let before = grouped(rest);
        let row = rows.last();
        let key = group_of(row.upload_session_id, row.id);
        let after = joined(before, key, row.id);
        lemma_group_at(before, key);
        assert forall|other: int| group_at(after, other) is None implies other != key && group_at(
            before,
            other,
        ) is None by {
            lemma_group_at(after, other);
            lemma_group_at(before, other);
            match group_at(before, key) {
                Some(at) => {
                    assert(after[at].key == key);
                    if group_at(before, other) is Some {
                        let o = group_at(before, other)->0;
                        assert(after[o].key == other);
                    }
                },
                None => {
                    assert(after[before.len() as int].key == key);
                    if group_at(before, other) is Some {
                        let o = group_at(before, other)->0;
                        assert(after[o].key == before[o].key);
                    }
                },
            }
        }
        assert forall|other: int| #[trigger] group_at(after, other) is None implies rows_of(
            rows,
            other,
        ).len() == 0 by {
            assert(rows_of(rest, other).len() == 0);
        }
        assert forall|i: int| 0 <= i < rows.len() implies group_at(
            after,
            group_of((#[trigger] rows[i]).upload_session_id, rows[i].id),
        ) is Some by {
            if i < rest.len() {
                assert(rest[i] == rows[i]);
            }
        }
        assert forall|g: int| 0 <= g < after.len() implies (#[trigger] after[g]).rows == rows_of(
            rows,
            after[g].key,
        ) by {
            match group_at(before, key) {
                Some(at) => {
                    if g == at {
                        assert(before[at].rows == rows_of(rest, key));
                    } else {
                        assert(after[g] == before[g]);
                        assert(before[g].key != before[at].key);
                    }
                },
                None => {
                    if g < before.len() {
                        assert(after[g] == before[g]);
                    } else {
                        assert(rows_of(rest, key).len() == 0);
                        assert(rows_of(rows, key) =~= seq![row.id]);
                    }
                },
            }
        }
        assert forall|g: int, h: int| 0 <= g < h < after.len() implies (#[trigger] after[g]).key
            != (#[trigger] after[h]).key by {
            match group_at(before, key) {
                Some(at) => {
                    assert(after[g].key == before[g].key);
                    assert(after[h].key == before[h].key);
                },
                None => {
                    assert(after[g].key == before[g].key);
                    if h < before.len() {
                        assert(after[h].key == before[h].key);
                    }
                },
            }
        }
    }
}

/// What came of the claim on a row.
#[derive(Clone, Copy, Debug, PartialEq, Eq, Structural)]
pub enum ClaimResult {
    Claimed,
    Rejected(RecoveryEligibility),
    /// The claim could not be tried.
    Failed,
}

/// Which rows a scan started.
pub struct RecoveryScanResult {
    /// The rows that are being uploaded now.
    pub started: Vec<i64>,
    /// The rows that were due and could not be started, with the reason.
    pub skipped: Vec<(i64, String)>,
    /// The groups that another run works on.
    pub busy_sessions: Vec<i64>,
}

/// The reasons as mathematical values.
pub open spec fn skipped_views(skipped: Seq<(i64, String)>) -> Seq<(i64, Seq<char>)> {
    skipped.map_values(|entry: (i64, String)| (entry.0, entry.1@))
}

/// The reason why a row was not started.
pub open spec fn skip_reason(result: ClaimResult) -> Option<Seq<char>> {
    match result {
        ClaimResult::Claimed => None,
        ClaimResult::Rejected(answer) => Some(eligibility_code(answer)),
        ClaimResult::Failed => Some("claim_failed"@),
    }
}

/// The rows of a group that were started.
pub open spec fn started_rows(ids: Seq<i64>, results: Seq<ClaimResult>) -> Seq<i64>
    decreases ids.len(),
{
    if ids.len() == 0 || results.len() != ids.len() {
        Seq::<i64>::empty()
    } else {
        let rest = started_rows(ids.drop_last(), results.drop_last());
        if results.last() == ClaimResult::Claimed {
            rest.push(ids.last())
        } else {
            rest
        }
    }
}

/// The rows of a group that were not started, with the reason.
pub open spec fn skipped_rows(ids: Seq<i64>, results: Seq<ClaimResult>) -> Seq<(i64, Seq<char>)>
    decreases ids.len(),
{
    if ids.len() == 0 || results.len() != ids.len() {
        Seq::<(i64, Seq<char>)>::empty()
    } else {
        let rest = skipped_rows(ids.drop_last(), results.drop_last());
        match skip_reason(results.last()) {
            Some(reason) => rest.push((ids.last(), reason)),
            None => rest,
        }
    }
}

impl RecoveryScanResult {
    /// A scan that has done nothing yet.
    pub fn new() -> (result: RecoveryScanResult)
        ensures
            result.started@.len() == 0,
            result.skipped@.len() == 0,
            result.busy_sessions@.len() == 0,
    {
        RecoveryScanResult {
            started: Vec::new(),
            skipped: Vec::new(),
            busy_sessions: Vec::new(),
        }
    }

    /// Notes that another run works on a group.
    pub fn record_busy(&mut self, key: i64)
        ensures
            final(self).busy_sessions@ == old(self).busy_sessions@.push(key),
            final(self).started == old(self).started,
            final(self).skipped == old(self).skipped,
    {
        self.busy_sessions.push(key);
    }
}

/// Notes what came of the claims on the rows of a group, and tells whether a run begins: only
/// where at least one row was claimed. Otherwise the group is given back at once.
pub fn recover_due_segments(
    result: &mut RecoveryScanResult,
    ids: &Vec<i64>,
    results: &Vec<ClaimResult>,
) -> (begins: bool)
    requires
        ids.len() == results.len(),
    ensures
        final(result).started@ == old(result).started@ + started_rows(ids@, results@),
        skipped_views(final(result).skipped@) == skipped_views(old(result).skipped@) + skipped_rows(
            ids@,
            results@,
        ),
        final(result).busy_sessions == old(result).busy_sessions,
        begins == (started_rows(ids@, results@).len() > 0),
{
    let ghost before = *result;
    let mut begins: bool = false;
    let mut i: usize = 0;
    assert(ids@.take(0) =~= Seq::<i64>::empty());
    assert(result.started@ =~= before.started@ + started_rows(ids@.take(0), results@.take(0)));
    assert(skipped_views(result.skipped@) =~= skipped_views(before.skipped@) + skipped_rows(
        ids@.take(0),
        results@.take(0),
    ));
    while i < ids.len()
        invariant
            i <= ids.len(),
            ids.len() == results.len(),
            result.started@ == before.started@ + started_rows(
                ids@.take(i as int),
                results@.take(i as int),
            ),
            skipped_views(result.skipped@) == skipped_views(before.skipped@) + skipped_rows(
                ids@.take(i as int),
                results@.take(i as int),
            ),
            result.busy_sessions == before.busy_sessions,
            begins == (started_rows(ids@.take(i as int), results@.take(i as int)).len() > 0),
        decreases ids.len() - i,
    {
        assert(ids@.take(i + 1).drop_last() =~= ids@.take(i as int));
        assert(results@.take(i + 1).drop_last() =~= results@.take(i as int));
        let ghost held = result.skipped@;
        match results[i] {
            ClaimResult::Claimed => {
                result.started.push(ids[i]);
                begins = true;
            },
            ClaimResult::Rejected(answer) => {
                result.skipped.push((ids[i], own(answer.code())));
                assert(skipped_views(result.skipped@) =~= skipped_views(held).push(
                    (ids@[i as int], eligibility_code(answer)),
                ));
            },
            ClaimResult::Failed => {
                result.skipped.push((ids[i], own("claim_failed")));
                assert(skipped_views(result.skipped@) =~= skipped_views(held).push(
                    (ids@[i as int], "claim_failed"@),
                ));
            },
        }
        i = i + 1;
    }
    assert(ids@.take(ids@.len() as int) =~= ids@);
    assert(results@.take(results@.len() as int) =~= results@);
    begins
}

/// Every row of a group is either started or skipped, each once: a claimed row is started, and
/// any other is skipped for its own reason.
pub proof fn law_no_row_is_lost(ids: Seq<i64>, results: Seq<ClaimResult>)
    requires
        ids.len() == results.len(),
    ensures
        started_rows(ids, results).len() + skipped_rows(ids, results).len() == ids.len(),
        forall|i: int|
            0 <= i < ids.len() ==> match skip_reason(#[trigger] results[i]) {
                None => started_rows(ids, results).contains(ids[i]),
                Some(reason) => skipped_rows(ids, results).contains((ids[i], reason)),
            },
    decreases ids.len(),
{
    if ids.len() > 0 {
        let (front, answers) = (ids.drop_last(), results.drop_last());
        law_no_row_is_lost(front, answers);
        let started = started_rows(ids, results);
        let skipped = skipped_rows(ids, results);
        assert forall|i: int| 0 <= i < ids.len() implies match skip_reason(#[trigger] results[i]) {
            None => started.contains(ids[i]),
            Some(reason) => skipped.contains((ids[i], reason)),
        } by {
            if i < front.len() {
                assert(answers[i] == results[i] && front[i] == ids[i]);
                match skip_reason(results[i]) {
                    None => {
                        let at = started_rows(front, answers).index_of(ids[i]);
                        assert(started[at] == ids[i]);
                    },
                    Some(reason) => {
                        let at = skipped_rows(front, answers).index_of((ids[i], reason));
                        assert(skipped[at] == (ids[i], reason));
                    },
                }
            } else {
                match skip_reason(results[i]) {
                    None => {
                        assert(started.last() == ids[i]);
                    },
                    Some(reason) => {
                        assert(skipped.last() == (ids[i], reason));
                    },
                }
            }
        }
    }
}

} // verus!
