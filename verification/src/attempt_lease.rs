//! When an upload attempt counts as abandoned, and what is kept of the attempts of a segment.
//!
//! An attempt first works on the file, then waits for its turn, then transfers. Each phase has its
//! own deadline, and a sign of life that the owner renews tells a dead owner from slow work.
use vstd::prelude::*;

use crate::redaction::{redact_sensitive, redacted_text};
use crate::text::{opt_own, opt_view, own, str_eq};
use crate::time::{Span, Timestamp, NANOS_PER_SEC};

verus! {

/// Where an attempt stands between its claim and the remote side's acknowledgement.
#[derive(Clone, Copy, Debug, PartialEq, Eq, Structural)]
pub enum AttemptPhase {
    /// Local work on the file.
    Preprocessing,
    /// Waiting for the one permit to upload.
    Queued,
    /// Sending the file.
    Transferring,
}

/// The name under which a phase is stored.
pub open spec fn phase_name(phase: AttemptPhase) -> Seq<char> {
    match phase {
        AttemptPhase::Preprocessing => "preprocessing"@,
        AttemptPhase::Queued => "queued"@,
        AttemptPhase::Transferring => "transferring"@,
    }
}

/// The phase that a stored name stands for.
pub open spec fn named_phase(name: Seq<char>) -> Option<AttemptPhase> {
    if name == "preprocessing"@ {
        Some(AttemptPhase::Preprocessing)
    } else if name == "queued"@ {
        Some(AttemptPhase::Queued)
    } else if name == "transferring"@ {
        Some(AttemptPhase::Transferring)
    } else {
        None
    }
}

impl AttemptPhase {
    /// The name under which the phase is stored.
    pub fn as_str(self) -> (name: &'static str)
        ensures
            name@ == phase_name(self),
    {
        match self {
            AttemptPhase::Preprocessing => "preprocessing",
            AttemptPhase::Queued => "queued",
            AttemptPhase::Transferring => "transferring",
        }
    }

    /// The phase that a stored name stands for.
    pub fn parse(value: &str) -> (phase: Option<AttemptPhase>)
        ensures
            phase == named_phase(value@),
    {
        if str_eq(value, "preprocessing") {
            Some(AttemptPhase::Preprocessing)
        } else if str_eq(value, "queued") {
            Some(AttemptPhase::Queued)
        } else if str_eq(value, "transferring") {
            Some(AttemptPhase::Transferring)
        } else {
            None
        }
    }
}

/// A phase that is stored under its name is read back.
pub proof fn law_stored_phase_is_read_back(phase: AttemptPhase)
    ensures
        named_phase(phase_name(phase)) == Some(phase),
{
    reveal_strlit("preprocessing");
    reveal_strlit("queued");
    reveal_strlit("transferring");
    assert("preprocessing"@.len() == 13);
    assert("queued"@.len() == 6);
    assert("transferring"@.len() == 12);
}

/// How often the owner of an attempt gives a sign of life.
pub const HEARTBEAT_INTERVAL_SECS: u64 = 15;

/// After how long without a sign of life an attempt has no owner.
pub const HEARTBEAT_STALE_AFTER_SECS: u64 = 180;

/// After how long without progress a transfer is abandoned.
pub const NO_PROGRESS_TIMEOUT_SECS: u64 = 300;

/// How long an attempt may wait for its turn.
pub const QUEUE_TIMEOUT_SECS: u64 = 7200;

/// How long local work may take for any file.
pub const PREPROCESS_BASE_SECS: u64 = 600;

/// How much longer local work may take for each begun gibibyte.
pub const PREPROCESS_PER_GIB_SECS: u64 = 600;

/// Bytes in one gibibyte.
pub const BYTES_PER_GIB: i64 = 1_073_741_824;

/// How many begun gibibytes count at most.
pub const MAX_COUNTED_GIB: i64 = 64;

/// How many gibibytes of a file count: the begun ones, one where the size is not known, and no
/// more than the largest count.
pub open spec fn counted_gib(total_bytes: Option<i64>) -> int {
    let begun = match total_bytes {
        Some(bytes) => if bytes > 0 {
            bytes as int / BYTES_PER_GIB as int + 1
        } else {
            1
        },
        None => 1,
    };
    if begun <= MAX_COUNTED_GIB {
        begun
    } else {
        MAX_COUNTED_GIB as int
    }
}

/// How long local work on a file may take, in nanoseconds.
pub open spec fn work_deadline(total_bytes: Option<i64>) -> int {
    (PREPROCESS_BASE_SECS + PREPROCESS_PER_GIB_SECS * counted_gib(total_bytes)) * NANOS_PER_SEC
}

/// How long local work on a file of `total_bytes` may take.
pub fn preprocess_deadline(total_bytes: Option<i64>) -> (limit: Span)
    ensures
        limit@ == work_deadline(total_bytes),
{
    let begun: i64 = match total_bytes {
        Some(bytes) => if bytes > 0 {
            bytes / BYTES_PER_GIB + 1
        } else {
            1
        },
        None => 1,
    };
    let counted: i64 = if begun <= MAX_COUNTED_GIB {
        begun
    } else {
        MAX_COUNTED_GIB
    };
    Span::from_secs(PREPROCESS_BASE_SECS + PREPROCESS_PER_GIB_SECS * (counted as u64))
}

/// Why an attempt counts as abandoned.
#[derive(Clone, Copy, Debug, PartialEq, Eq, Structural)]
pub enum StaleReason {
    /// The owner gives no sign of life any more.
    HeartbeatLost,
    PreprocessTimeout,
    QueueTimeout,
    NoNetworkProgress,
}

/// The error text of a reason.
pub open spec fn reason_text(reason: StaleReason) -> Seq<char> {
    match reason {
        StaleReason::HeartbeatLost =>
            "stale_uploading_lease: attempt owner stopped heartbeating (process gone)"@,
        StaleReason::PreprocessTimeout =>
            "preprocess_timeout: local normalization/repair exceeded its size-derived limit"@,
        StaleReason::QueueTimeout =>
            "queue_timeout: attempt waited for the global upload permit past its limit"@,
        StaleReason::NoNetworkProgress =>
            "stale_uploading_lease: no acknowledged upload chunk within the transfer deadline"@,
    }
}

impl StaleReason {
    /// The error text of the reason.
    pub fn as_error(self) -> (text: &'static str)
        ensures
            text@ == reason_text(self),
    {
        match self {
            StaleReason::HeartbeatLost =>
                "stale_uploading_lease: attempt owner stopped heartbeating (process gone)",
            StaleReason::PreprocessTimeout =>
                "preprocess_timeout: local normalization/repair exceeded its size-derived limit",
            StaleReason::QueueTimeout =>
                "queue_timeout: attempt waited for the global upload permit past its limit",
            StaleReason::NoNetworkProgress =>
                "stale_uploading_lease: no acknowledged upload chunk within the transfer deadline",
        }
    }

    /// Whether the reason speaks against the upload line: only a transfer that stands still does.
    pub fn blames_upload_line(self) -> (blames: bool)
        ensures
            blames == (self == StaleReason::NoNetworkProgress),
    {
        match self {
            StaleReason::NoNetworkProgress => true,
            _ => false,
        }
    }
}

/// What the verdict on an attempt looks at.
#[derive(Clone, Copy, Debug, PartialEq, Eq, Structural)]
pub struct LeaseSnapshot {
    pub phase: Option<AttemptPhase>,
    pub phase_started_at: Option<Timestamp>,
    pub last_heartbeat_at: Option<Timestamp>,
    pub last_progress_at: Option<Timestamp>,
    pub upload_started_at: Option<Timestamp>,
    pub updated_at: Timestamp,
    pub total_bytes: Option<i64>,
}

/// The first of two readings that is there, or the third.
pub open spec fn first_known(
    first: Option<Timestamp>,
    second: Option<Timestamp>,
    last: Timestamp,
) -> Timestamp {
    match first {
        Some(at) => at,
        None => match second {
            Some(at) => at,
            None => last,
        },
    }
}

/// Whether `secs` seconds have gone by since `since`.
pub open spec fn elapsed(since: Timestamp, now: int, secs: int) -> bool {
    now - since@ >= secs * NANOS_PER_SEC
}

/// Since when the attempt is in its phase.
pub open spec fn phase_since(lease: LeaseSnapshot) -> Timestamp {
    first_known(lease.phase_started_at, lease.upload_started_at, lease.updated_at)
}

/// Whether an attempt is abandoned at `now`, and why.
pub open spec fn verdict(lease: LeaseSnapshot, now: int) -> Option<StaleReason> {
    match lease.phase {
        None => if elapsed(
            first_known(lease.last_progress_at, lease.upload_started_at, lease.updated_at),
            now,
            NO_PROGRESS_TIMEOUT_SECS as int,
        ) {
            Some(StaleReason::NoNetworkProgress)
        } else {
            None
        },
        Some(phase) => if lease.last_heartbeat_at matches Some(beat) && elapsed(
            beat,
            now,
            HEARTBEAT_STALE_AFTER_SECS as int,
        ) {
            Some(StaleReason::HeartbeatLost)
        } else {
            match phase {
                AttemptPhase::Preprocessing => if now - phase_since(lease)@ >= work_deadline(
                    lease.total_bytes,
                ) {
                    Some(StaleReason::PreprocessTimeout)
                } else {
                    None
                },
                AttemptPhase::Queued => if elapsed(
                    phase_since(lease),
                    now,
                    QUEUE_TIMEOUT_SECS as int,
                ) {
                    Some(StaleReason::QueueTimeout)
                } else {
                    None
                },
                AttemptPhase::Transferring => if elapsed(
                    match lease.last_progress_at {
                        Some(at) => at,
                        None => phase_since(lease),
                    },
                    now,
                    NO_PROGRESS_TIMEOUT_SECS as int,
                ) {
                    Some(StaleReason::NoNetworkProgress)
                } else {
                    None
                },
            }
        },
    }
}

fn first_of(first: Option<Timestamp>, second: Option<Timestamp>, last: Timestamp) -> (at: Timestamp)
    ensures
        at == first_known(first, second, last),
{
    match first {
        Some(at) => at,
        None => match second {
            Some(at) => at,
            None => last,
        },
    }
}

fn has_elapsed(since: &Timestamp, now: &Timestamp, secs: u64) -> (yes: bool)
    ensures
        yes == elapsed(*since, now@, secs as int),
{
    now.since(since) >= secs as i128 * 1_000_000_000i128
}

/// Whether an attempt is abandoned, and why.
///
/// A row without a phase is judged by the transfer deadline alone. A sign of life counts against
/// the owner only where one was ever given.
pub fn classify_stale_lease(lease: &LeaseSnapshot, now: Timestamp) -> (found: Option<StaleReason>)
    ensures
        found == verdict(*lease, now@),
{
    let phase: AttemptPhase = match lease.phase {
        Some(phase) => phase,
        None => {
            let since: Timestamp = first_of(
                lease.last_progress_at,
                lease.upload_started_at,
                lease.updated_at,
            );
            return if has_elapsed(&since, &now, NO_PROGRESS_TIMEOUT_SECS) {
                Some(StaleReason::NoNetworkProgress)
            } else {
                None
            };
        },
    };
    if let Some(beat) = lease.last_heartbeat_at {
        if has_elapsed(&beat, &now, HEARTBEAT_STALE_AFTER_SECS) {
            return Some(StaleReason::HeartbeatLost);
        }
    }
    let since: Timestamp = first_of(
        lease.phase_started_at,
        lease.upload_started_at,
        lease.updated_at,
    );
    match phase {
        AttemptPhase::Preprocessing => {
            let limit: u128 = preprocess_deadline(lease.total_bytes).nanos();
            if now.since(&since) >= limit as i128 {
                Some(StaleReason::PreprocessTimeout)
            } else {
                None
            }
        },
        AttemptPhase::Queued => if has_elapsed(&since, &now, QUEUE_TIMEOUT_SECS) {
            Some(StaleReason::QueueTimeout)
        } else {
            None
        },
        AttemptPhase::Transferring => {
            let progress: Timestamp = match lease.last_progress_at {
                Some(at) => at,
                None => since,
            };
            if has_elapsed(&progress, &now, NO_PROGRESS_TIMEOUT_SECS) {
                Some(StaleReason::NoNetworkProgress)
            } else {
                None
            }
        },
    }
}

/// Slow local work of a living owner is not abandoned before its own deadline, however long ago
/// the network last moved.
pub proof fn law_slow_work_is_left_alone(lease: LeaseSnapshot, now: int)
    requires
        lease.phase == Some(AttemptPhase::Preprocessing),
        lease.last_heartbeat_at matches Some(beat) ==> !elapsed(
            beat,
            now,
            HEARTBEAT_STALE_AFTER_SECS as int,
        ),
        now - phase_since(lease)@ < work_deadline(lease.total_bytes),
    ensures
        verdict(lease, now) is None,
{
}

/// An attempt whose owner is dead is abandoned in every phase.
pub proof fn law_no_phase_outlives_its_owner(lease: LeaseSnapshot, beat: Timestamp, now: int)
    requires
        lease.phase is Some,
        lease.last_heartbeat_at == Some(beat),
        elapsed(beat, now, HEARTBEAT_STALE_AFTER_SECS as int),
    ensures
        verdict(lease, now) == Some(StaleReason::HeartbeatLost),
{
}

/// Local work and waiting never speak against the upload line.
pub proof fn law_only_a_transfer_blames_the_line(lease: LeaseSnapshot, now: int)
    requires
        verdict(lease, now) == Some(StaleReason::NoNetworkProgress),
    ensures
        lease.phase is None || lease.phase == Some(AttemptPhase::Transferring),
{
}

/// What is abandoned once stays so: time alone brings no attempt back.
pub proof fn law_time_brings_nothing_back(lease: LeaseSnapshot, now: int, later: int)
    requires
        verdict(lease, now) is Some,
        now <= later,
    ensures
        verdict(lease, later) is Some,
{
}

/// Until when an attempt is left alone at the longest, in nanoseconds of the clock.
pub open spec fn given_up_at(lease: LeaseSnapshot) -> int {
    match lease.phase {
        None => first_known(lease.last_progress_at, lease.upload_started_at, lease.updated_at)@
            + NO_PROGRESS_TIMEOUT_SECS * NANOS_PER_SEC,
        Some(AttemptPhase::Preprocessing) => phase_since(lease)@ + work_deadline(
            lease.total_bytes,
        ),
        Some(AttemptPhase::Queued) => phase_since(lease)@ + QUEUE_TIMEOUT_SECS * NANOS_PER_SEC,
        Some(AttemptPhase::Transferring) => (match lease.last_progress_at {
            Some(at) => at,
            None => phase_since(lease),
        })@ + NO_PROGRESS_TIMEOUT_SECS * NANOS_PER_SEC,
    }
}

/// No attempt is held for ever: each has a time from which on it is abandoned, whatever is known
/// of it, also one that has neither a phase nor a sign of life.
pub proof fn law_no_attempt_is_held_for_ever(lease: LeaseSnapshot, now: int)
    ensures
        now >= given_up_at(lease) ==> verdict(lease, now) is Some,
        lease.last_heartbeat_at is None ==> (verdict(lease, now) is Some <==> now >= given_up_at(
            lease,
        )),
        work_deadline(lease.total_bytes) <= (PREPROCESS_BASE_SECS + PREPROCESS_PER_GIB_SECS
            * MAX_COUNTED_GIB) * NANOS_PER_SEC,
{
}

/// How many attempts are kept of one segment.
pub const ATTEMPT_HISTORY_PER_SEGMENT: usize = 20;

/// What is kept of one attempt.
pub struct AttemptRecord {
    pub id: i64,
    pub attempt_token: String,
    pub line_key: String,
    pub line_source: String,
    pub started_at: Timestamp,
    pub phase_reached: String,
    pub ended_at: Option<Timestamp>,
    pub outcome: Option<String>,
    pub uploaded_bytes: Option<i64>,
    pub last_chunk_index: Option<i64>,
    pub error: Option<String>,
}

/// What is kept of one attempt, as a mathematical value.
pub ghost struct RecordView {
    pub id: i64,
    pub attempt_token: Seq<char>,
    pub line_key: Seq<char>,
    pub line_source: Seq<char>,
    pub started_at: Timestamp,
    pub phase_reached: Seq<char>,
    pub ended_at: Option<Timestamp>,
    pub outcome: Option<Seq<char>>,
    pub uploaded_bytes: Option<i64>,
    pub last_chunk_index: Option<i64>,
    pub error: Option<Seq<char>>,
}

impl View for AttemptRecord {
    type V = RecordView;

    open spec fn view(&self) -> RecordView {
        RecordView {
            id: self.id,
            attempt_token: self.attempt_token@,
            line_key: self.line_key@,
            line_source: self.line_source@,
            started_at: self.started_at,
            phase_reached: self.phase_reached@,
            ended_at: self.ended_at,
            outcome: opt_view(self.outcome),
            uploaded_bytes: self.uploaded_bytes,
            last_chunk_index: self.last_chunk_index,
            error: opt_view(self.error),
        }
    }
}

/// A list of records as a mathematical value.
pub open spec fn record_views(records: Seq<AttemptRecord>) -> Seq<RecordView> {
    records.map_values(|record: AttemptRecord| record@)
}

/// Whether the records stand in the order in which they were opened.
pub open spec fn in_opening_order(records: Seq<RecordView>) -> bool {
    forall|i: int, j: int|
        0 <= i < j < records.len() ==> (#[trigger] records[i]).id < (#[trigger] records[j]).id
}

/// The first record under `token`.
pub open spec fn record_at(records: Seq<RecordView>, token: Seq<char>) -> Option<int>
    decreases records.len(),
{
    if records.len() == 0 {
        None
    } else {
        match record_at(records.drop_last(), token) {
            Some(at) => Some(at),
            None => if records.last().attempt_token == token {
                Some(records.len() - 1)
            } else {
                None
            },
        }
    }
}

/// The last records, as many as are kept.
pub open spec fn newest(records: Seq<RecordView>) -> Seq<RecordView> {
    if records.len() <= ATTEMPT_HISTORY_PER_SEGMENT {
        records
    } else {
        records.skip(records.len() - ATTEMPT_HISTORY_PER_SEGMENT)
    }
}

/// A record that was just opened.
pub open spec fn opened(
    id: i64,
    token: Seq<char>,
    line_key: Seq<char>,
    line_source: Seq<char>,
    now: Timestamp,
) -> RecordView {
    RecordView {
        id,
        attempt_token: token,
        line_key,
        line_source,
        started_at: now,
        phase_reached: "preprocessing"@,
        ended_at: None,
        outcome: None,
        uploaded_bytes: None,
        last_chunk_index: None,
        error: None,
    }
}

/// The records with an attempt opened: one that is open already only has its line renewed.
pub open spec fn with_opened(
    records: Seq<RecordView>,
    id: i64,
    token: Seq<char>,
    line_key: Seq<char>,
    line_source: Seq<char>,
    now: Timestamp,
) -> Seq<RecordView> {
    match record_at(records, token) {
        Some(at) => records.update(at, RecordView { line_key, line_source, ..records[at] }),
        None => records.push(opened(id, token, line_key, line_source, now)),
    }
}

/// The records that are kept after an attempt was opened.
pub open spec fn after_opening(
    records: Seq<RecordView>,
    id: i64,
    token: Seq<char>,
    line_key: Seq<char>,
    line_source: Seq<char>,
    now: Timestamp,
) -> Seq<RecordView> {
    newest(with_opened(records, id, token, line_key, line_source, now))
}

proof fn lemma_record_at(records: Seq<RecordView>, token: Seq<char>)
    ensures
        match record_at(records, token) {
            Some(at) => 0 <= at < records.len() && records[at].attempt_token == token && forall|
                k: int,
            |
                0 <= k < at ==> records[k].attempt_token != token,
            None => forall|k: int| 0 <= k < records.len() ==> records[k].attempt_token != token,
        },
    decreases records.len(),
{
    if records.len() > 0 {
        let rest = records.drop_last();
        lemma_record_at(rest, token);
        assert forall|k: int| 0 <= k < rest.len() implies rest[k] == #[trigger] records[k] by {}
    }
}

fn find_record(records: &Vec<AttemptRecord>, token: &str) -> (found: Option<usize>)
    ensures
        match found {
            Some(at) => at < records.len() && record_at(record_views(records@), token@) == Some(
                at as int,
            ),
            None => record_at(record_views(records@), token@) is None,
        },
{
    let ghost views = record_views(records@);
    let mut i: usize = 0;
    while i < records.len()
        invariant
            i <= records.len(),
            views == record_views(records@),
            forall|k: int| 0 <= k < i ==> views[k].attempt_token != token@,
        decreases records.len() - i,
    {
        if str_eq(records[i].attempt_token.as_str(), token) {
            proof {
                lemma_record_at(views, token@);
                assert(views[i as int].attempt_token == token@);
            }
            return Some(i);
        }
        i = i + 1;
    }
    proof {
        lemma_record_at(views, token@);
    }
    None
}

/// Opens the record of an attempt under `attempt_token`, behind those that were opened before, and
/// forgets the oldest records where there are too many. A claim that is tried again under the same
/// token keeps its beginning.
pub fn open_attempt_history(
    records: &mut Vec<AttemptRecord>,
    next_id: i64,
    attempt_token: &str,
    line_key: &str,
    line_source: &str,
    now: Timestamp,
)
    requires
        in_opening_order(record_views(old(records)@)),
        forall|i: int|
            0 <= i < old(records)@.len() ==> (#[trigger] record_views(old(records)@)[i]).id
                < next_id,
    ensures
        in_opening_order(record_views(final(records)@)),
        record_views(final(records)@) == after_opening(
            record_views(old(records)@),
            next_id,
            attempt_token@,
            line_key@,
            line_source@,
            now,
        ),
{
    let ghost before = record_views(records@);
    match find_record(records, attempt_token) {
        Some(at) => {
            let held: &AttemptRecord = &records[at];
            let renewed = AttemptRecord {
                id: held.id,
                attempt_token: own(held.attempt_token.as_str()),
                line_key: own(line_key),
                line_source: own(line_source),
                started_at: held.started_at,
                phase_reached: own(held.phase_reached.as_str()),
                ended_at: held.ended_at,
                outcome: opt_own(&held.outcome),
                uploaded_bytes: held.uploaded_bytes,
                last_chunk_index: held.last_chunk_index,
                error: opt_own(&held.error),
            };
            records.set(at, renewed);
            assert(record_views(records@) =~= before.update(
                at as int,
                RecordView {
                    line_key: line_key@,
                    line_source: line_source@,
                    ..before[at as int]
                },
            ));
        },
        None => {
            records.push(
                AttemptRecord {
                    id: next_id,
                    attempt_token: own(attempt_token),
                    line_key: own(line_key),
                    line_source: own(line_source),
                    started_at: now,
                    phase_reached: own("preprocessing"),
                    ended_at: None,
                    outcome: None,
                    uploaded_bytes: None,
                    last_chunk_index: None,
                    error: None,
                },
            );
            assert(record_views(records@) =~= before.push(
                opened(next_id, attempt_token@, line_key@, line_source@, now),
            ));
        },
    }
    proof {
        law_the_history_stays_bounded(
            before,
            next_id,
            attempt_token@,
            line_key@,
            line_source@,
            now,
        );
    }
    prune_attempt_history(records);
}

/// Forgets the oldest records where there are more than are kept.
fn prune_attempt_history(records: &mut Vec<AttemptRecord>)
    ensures
        record_views(final(records)@) == newest(record_views(old(records)@)),
{
    let ghost before = record_views(records@);
    let ghost total = records@.len();
    assert(before.skip(0) =~= before);
    while records.len() > ATTEMPT_HISTORY_PER_SEGMENT
        invariant
            before.len() == total,
            records@.len() <= total,
            total > ATTEMPT_HISTORY_PER_SEGMENT ==> records@.len() >= ATTEMPT_HISTORY_PER_SEGMENT,
            total <= ATTEMPT_HISTORY_PER_SEGMENT ==> records@.len() == total,
            record_views(records@) == before.skip(total - records@.len()),
        decreases records.len(),
    {
        let ghost now = records@;
        let _ = records.remove(0);
        proof {
            assert(records@ =~= now.drop_first());
            assert(record_views(records@) =~= record_views(now).drop_first());
            assert(before.skip(total - now.len()).drop_first() =~= before.skip(
                total - now.len() + 1,
            ));
        }
    }
}

/// How far a phase is on the way of an attempt.
pub open spec fn phase_rank(phase: AttemptPhase) -> int {
    match phase {
        AttemptPhase::Preprocessing => 1,
        AttemptPhase::Queued => 2,
        AttemptPhase::Transferring => 3,
    }
}

/// How far the phase is that a stored name stands for; a name without a phase comes before all.
pub open spec fn rank_of_name(name: Seq<char>) -> int {
    match named_phase(name) {
        Some(phase) => phase_rank(phase),
        None => 0,
    }
}

/// The name of the furthest phase, where `held` is stored and `phase` is reached.
pub open spec fn furthest(held: Seq<char>, phase: AttemptPhase) -> Seq<char> {
    if rank_of_name(held) > phase_rank(phase) {
        held
    } else {
        phase_name(phase)
    }
}

/// The name of the furthest phase, where `held` is stored and `phases` are reached in turn.
pub open spec fn furthest_of(held: Seq<char>, phases: Seq<AttemptPhase>) -> Seq<char>
    decreases phases.len(),
{
    if phases.len() == 0 {
        held
    } else {
        furthest(furthest_of(held, phases.drop_last()), phases.last())
    }
}

/// What is noted of an attempt's way never goes back: in whatever order phases are reached, none
/// of them is further than what is noted in the end, and what was noted before is not either.
pub proof fn law_the_furthest_phase_stays(held: Seq<char>, phases: Seq<AttemptPhase>)
    ensures
        rank_of_name(furthest_of(held, phases)) >= rank_of_name(held),
        forall|i: int|
            0 <= i < phases.len() ==> rank_of_name(furthest_of(held, phases)) >= phase_rank(
                #[trigger] phases[i],
            ),
        furthest_of(held, phases) == held || exists|i: int|
            0 <= i < phases.len() && furthest_of(held, phases) == phase_name(#[trigger] phases[i]),
    decreases phases.len(),
{
    if phases.len() > 0 {
        let front = phases.drop_last();
        law_the_furthest_phase_stays(held, front);
        law_stored_phase_is_read_back(phases.last());
        assert forall|i: int| 0 <= i < phases.len() implies rank_of_name(furthest_of(held, phases))
            >= phase_rank(#[trigger] phases[i]) by {
            if i < front.len() {
                assert(front[i] == phases[i]);
            }
        }
        if furthest_of(held, phases) == furthest_of(held, front) {
            if furthest_of(held, front) != held {
                let i = choose|i: int|
                    0 <= i < front.len() && furthest_of(held, front) == phase_name(
                        #[trigger] front[i],
                    );
                assert(phases[i] == front[i]);
            }
        } else {
            assert(furthest_of(held, phases) == phase_name(phases[phases.len() - 1]));
        }
    }
}

fn rank_of(phase: AttemptPhase) -> (rank: u8)
    ensures
        rank == phase_rank(phase),
{
    match phase {
        AttemptPhase::Preprocessing => 1,
        AttemptPhase::Queued => 2,
        AttemptPhase::Transferring => 3,
    }
}

fn furthest_name(held: &str, phase: AttemptPhase) -> (name: String)
    ensures
        name@ == furthest(held@, phase),
{
    let rank: u8 = match AttemptPhase::parse(held) {
        Some(reached) => rank_of(reached),
        None => 0,
    };
    if rank > rank_of(phase) {
        own(held)
    } else {
        own(phase.as_str())
    }
}

/// Notes the furthest phase that the attempt under `token` reached.
pub fn note_attempt_phase(
    records: &mut Vec<AttemptRecord>,
    attempt_token: &str,
    phase: AttemptPhase,
) -> (found: bool)
    ensures
        match record_at(record_views(old(records)@), attempt_token@) {
            Some(at) => found && record_views(final(records)@) == record_views(
                old(records)@,
            ).update(
                at,
                RecordView {
                    phase_reached: furthest(record_views(old(records)@)[at].phase_reached, phase),
                    ..record_views(old(records)@)[at]
                },
            ),
            None => !found && record_views(final(records)@) == record_views(old(records)@),
        },
{
    let ghost before = record_views(records@);
    match find_record(records, attempt_token) {
        Some(at) => {
            let held: &AttemptRecord = &records[at];
            assert(before[at as int] == held@);
            let noted = AttemptRecord {
                id: held.id,
                attempt_token: own(held.attempt_token.as_str()),
                line_key: own(held.line_key.as_str()),
                line_source: own(held.line_source.as_str()),
                started_at: held.started_at,
                phase_reached: furthest_name(held.phase_reached.as_str(), phase),
                ended_at: held.ended_at,
                outcome: opt_own(&held.outcome),
                uploaded_bytes: held.uploaded_bytes,
                last_chunk_index: held.last_chunk_index,
                error: opt_own(&held.error),
            };
            records.set(at, noted);
            assert(record_views(records@) =~= before.update(
                at as int,
                RecordView {
                    phase_reached: furthest(before[at as int].phase_reached, phase),
                    ..before[at as int]
                },
            ));
            true
        },
        None => false,
    }
}

/// The record of an attempt after it was closed with an error that may be shown.
pub open spec fn closed_record(
    record: RecordView,
    outcome: Seq<char>,
    uploaded_bytes: i64,
    last_chunk_index: Option<i64>,
    error: Option<Seq<char>>,
    now: Timestamp,
) -> RecordView {
    RecordView {
        ended_at: Some(now),
        outcome: Some(outcome),
        uploaded_bytes: Some(uploaded_bytes),
        last_chunk_index,
        error,
        ..record
    }
}

/// Whether the attempt under `token` has a record that is still open.
pub open spec fn is_running(records: Seq<RecordView>, token: Seq<char>) -> bool {
    record_at(records, token) matches Some(at) && records[at].ended_at is None
}

/// The records after the attempt under `token` was closed: only an open one is.
pub open spec fn after_closing(
    records: Seq<RecordView>,
    token: Seq<char>,
    outcome: Seq<char>,
    uploaded_bytes: i64,
    last_chunk_index: Option<i64>,
    error: Option<Seq<char>>,
    now: Timestamp,
) -> Seq<RecordView> {
    if is_running(records, token) {
        let at = record_at(records, token)->0;
        records.update(
            at,
            closed_record(
                records[at],
                outcome,
                uploaded_bytes,
                last_chunk_index,
                error,
                now,
            ),
        )
    } else {
        records
    }
}

/// An error, where there is one, without signatures and credentials.
pub open spec fn shown_error(error: Option<Seq<char>>) -> Option<Seq<char>> {
    match error {
        Some(text) => Some(redacted_text(text)),
        None => None,
    }
}

/// Closes the record of the attempt under `token`, where it is still open. Signatures and
/// credentials are taken out of the error before it is stored.
pub fn close_attempt_history(
    records: &mut Vec<AttemptRecord>,
    attempt_token: &str,
    outcome: &str,
    uploaded_bytes: i64,
    last_chunk_index: Option<i64>,
    error: Option<String>,
    now: Timestamp,
) -> (closed: bool)
    ensures
        closed == is_running(record_views(old(records)@), attempt_token@),
        record_views(final(records)@) == after_closing(
            record_views(old(records)@),
            attempt_token@,
            outcome@,
            uploaded_bytes,
            last_chunk_index,
            shown_error(opt_view(error)),
            now,
        ),
{
    let shown: Option<String> = match &error {
        Some(text) => Some(redact_sensitive(text.as_str())),
        None => None,
    };
    store_end(records, attempt_token, outcome, uploaded_bytes, last_chunk_index, shown, now)
}

/// Closes the record of the attempt under `token`, where it is still open, with an error that may
/// be shown.
pub fn store_end(
    records: &mut Vec<AttemptRecord>,
    attempt_token: &str,
    outcome: &str,
    uploaded_bytes: i64,
    last_chunk_index: Option<i64>,
    error: Option<String>,
    now: Timestamp,
) -> (closed: bool)
    ensures
        closed == is_running(record_views(old(records)@), attempt_token@),
        record_views(final(records)@) == after_closing(
            record_views(old(records)@),
            attempt_token@,
            outcome@,
            uploaded_bytes,
            last_chunk_index,
            opt_view(error),
            now,
        ),
{
    let ghost before = record_views(records@);
    match find_record(records, attempt_token) {
        Some(at) => {
            let held: &AttemptRecord = &records[at];
            if held.ended_at.is_some() {
                return false;
            }
            let ended = AttemptRecord {
                id: held.id,
                attempt_token: own(held.attempt_token.as_str()),
                line_key: own(held.line_key.as_str()),
                line_source: own(held.line_source.as_str()),
                started_at: held.started_at,
                phase_reached: own(held.phase_reached.as_str()),
                ended_at: Some(now),
                outcome: Some(own(outcome)),
                uploaded_bytes: Some(uploaded_bytes),
                last_chunk_index,
                error,
            };
            records.set(at, ended);
            assert(record_views(records@) =~= before.update(
                at as int,
                closed_record(
                    before[at as int],
                    outcome@,
                    uploaded_bytes,
                    last_chunk_index,
                    opt_view(error),
                    now,
                ),
            ));
            true
        },
        None => false,
    }
}

/// Opening never keeps more records than are kept, and forgets none but the oldest: the order in
/// which they were opened stays.
pub proof fn law_the_history_stays_bounded(
    records: Seq<RecordView>,
    id: i64,
    token: Seq<char>,
    line_key: Seq<char>,
    line_source: Seq<char>,
    now: Timestamp,
)
    requires
        in_opening_order(records),
        forall|i: int| 0 <= i < records.len() ==> (#[trigger] records[i]).id < id,
    ensures
        after_opening(records, id, token, line_key, line_source, now).len()
            <= ATTEMPT_HISTORY_PER_SEGMENT,
        in_opening_order(after_opening(records, id, token, line_key, line_source, now)),
        ({
            let all = with_opened(records, id, token, line_key, line_source, now);
            let kept = after_opening(records, id, token, line_key, line_source, now);
            &&& kept.len() <= all.len()
            &&& kept == all.skip(all.len() - kept.len())
            &&& kept.len() < all.len() ==> kept.len() == ATTEMPT_HISTORY_PER_SEGMENT
        }),
{
    lemma_record_at(records, token);
    let all = with_opened(records, id, token, line_key, line_source, now);
    assert(all.skip(0) =~= all);
}

/// How an attempt ended is written down once: closing it a second time changes nothing, whatever
/// the second report says.
pub proof fn law_the_first_end_stays(
    records: Seq<RecordView>,
    token: Seq<char>,
    outcome: Seq<char>,
    uploaded_bytes: i64,
    last_chunk_index: Option<i64>,
    error: Option<Seq<char>>,
    now: Timestamp,
    other_outcome: Seq<char>,
    other_bytes: i64,
    other_chunk: Option<i64>,
    other_error: Option<Seq<char>>,
    later: Timestamp,
)
    ensures
        ({
            let once = after_closing(
                records,
                token,
                outcome,
                uploaded_bytes,
                last_chunk_index,
                error,
                now,
            );
            &&& !is_running(once, token)
            &&& after_closing(
                once,
                token,
                other_outcome,
                other_bytes,
                other_chunk,
                other_error,
                later,
            ) == once
        }),
{
    lemma_record_at(records, token);
    if is_running(records, token) {
        let at = record_at(records, token)->0;
        let once = after_closing(
            records,
            token,
            outcome,
            uploaded_bytes,
            last_chunk_index,
            error,
            now,
        );
        lemma_record_at(once, token);
        assert(once[at].attempt_token == token);
        assert(record_at(once, token) == Some(at)) by {
            let found = record_at(once, token)->0;
            if found < at {
                assert(once[found] == records[found]);
            } else if found > at {
                assert(once[at].attempt_token != token);
            }
        }
    }
}

/// An attempt that is opened twice under one token keeps its beginning.
pub proof fn law_a_reopened_attempt_keeps_its_beginning(
    records: Seq<RecordView>,
    at: int,
    id: i64,
    token: Seq<char>,
    line_key: Seq<char>,
    line_source: Seq<char>,
    now: Timestamp,
)
    requires
        records.len() <= ATTEMPT_HISTORY_PER_SEGMENT,
        record_at(records, token) == Some(at),
    ensures
        after_opening(records, id, token, line_key, line_source, now).len() == records.len(),
        after_opening(records, id, token, line_key, line_source, now)[at].started_at
            == records[at].started_at,
{
    lemma_record_at(records, token);
}

} // verus!
