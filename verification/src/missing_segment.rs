//! Segments that are not uploaded yet: when they are tried, how they are queued, and what becomes
//! of an attempt that nobody owns any more.
use std::collections::HashMap;
use vstd::prelude::*;

use crate::attempt_lease::{classify_stale_lease, named_phase, verdict, AttemptPhase, LeaseSnapshot,
    StaleReason};
use crate::order::{key_ids, ordered_ids, sorted_keys, SortKey};
use crate::text::{opt_view, own, str_eq};
use crate::time::{in_clock_range, Span, Timestamp, NANOS_PER_SEC};

verus! {

/// How many fallback lines the failure counter goes through.
pub const LINE_INDEX_MODULUS: i64 = 3;

/// The failure counter after one more failure.
pub open spec fn rotated(current: int) -> int {
    if current < 0 {
        0
    } else {
        (current + 1) % LINE_INDEX_MODULUS as int
    }
}

/// The failure counter after one more failure.
pub fn next_line_index(current: i64) -> (next: i64)
    requires
        current < i64::MAX,
    ensures
        next == rotated(current as int),
        0 <= next < LINE_INDEX_MODULUS,
{
    if current < 0 {
        0
    } else {
        (current + 1) % LINE_INDEX_MODULUS
    }
}

/// After how many seconds a segment is tried again, by how often it was tried.
pub open spec fn retry_secs(attempts: int) -> int {
    if attempts <= 0 {
        600
    } else if attempts == 1 {
        1800
    } else if attempts == 2 {
        3600
    } else if attempts == 3 {
        7200
    } else {
        21600
    }
}

/// After how long a segment is tried again, by how often it was tried.
pub fn retry_delay_for_attempt(attempts: i64) -> (delay: Span)
    ensures
        delay@ == retry_secs(attempts as int) * NANOS_PER_SEC,
{
    if attempts <= 0 {
        Span::from_secs(600)
    } else if attempts == 1 {
        Span::from_secs(1800)
    } else if attempts == 2 {
        Span::from_secs(3600)
    } else if attempts == 3 {
        Span::from_secs(7200)
    } else {
        Span::from_secs(21600)
    }
}

/// A later attempt never waits shorter than an earlier one.
pub proof fn law_retries_slow_down(earlier: int, later: int)
    requires
        earlier <= later,
    ensures
        retry_secs(earlier) <= retry_secs(later),
        600 <= retry_secs(earlier) <= 21600,
{
}

/// The place of a recovered part: its recorded place, within what is there.
pub open spec fn place(count: int, order: int) -> int {
    if order <= 0 {
        0
    } else if order <= count {
        order
    } else {
        count
    }
}

/// The place of a recovered part among `existing_count` parts.
pub fn normalize_segment_order(existing_count: usize, segment_order: i64) -> (index: usize)
    ensures
        index == place(existing_count as int, segment_order as int),
{
    if segment_order <= 0 {
        return 0;
    }
    if segment_order as u64 <= existing_count as u64 {
        segment_order as usize
    } else {
        existing_count
    }
}

/// One part of a submission.
pub struct Video {
    pub title: Option<String>,
    pub filename: String,
    pub desc: String,
}

/// A submission and its parts.
pub struct Studio {
    pub title: String,
    pub videos: Vec<Video>,
}

/// Puts a recovered part at its recorded place; the others keep their order.
pub fn insert_video_at_order(videos: &mut Vec<Video>, video: Video, segment_order: i64)
    ensures
        final(videos)@ == old(videos)@.insert(
            place(old(videos)@.len() as int, segment_order as int),
            video,
        ),
{
    let index: usize = normalize_segment_order(videos.len(), segment_order);
    videos.insert(index, video);
}

/// Puts a recovered part at its recorded place in a submission.
pub fn patch_studio_videos(studio: &mut Studio, video: Video, segment_order: i64)
    ensures
        final(studio).videos@ == old(studio).videos@.insert(
            place(old(studio).videos@.len() as int, segment_order as int),
            video,
        ),
        final(studio).title == old(studio).title,
{
    insert_video_at_order(&mut studio.videos, video, segment_order);
}

/// A segment that is not uploaded yet, as it is stored.
pub struct UploadMissingSegment {
    pub id: i64,
    pub live_streamer_id: i64,
    pub streamer_info_id: i64,
    pub upload_session_id: Option<i64>,
    pub aid: Option<i64>,
    pub file_path: String,
    pub danmaku_file_path: Option<String>,
    pub segment_order: i64,
    pub status: String,
    pub attempts: i64,
    pub line_index: i64,
    pub next_retry_at: Timestamp,
    pub last_error: Option<String>,
    pub created_at: Timestamp,
    pub updated_at: Timestamp,
    pub normalized_file_path: Option<String>,
    pub lifecycle_version: i64,
    pub video_json: Option<String>,
    pub total_bytes: Option<i64>,
    pub uploaded_bytes: i64,
    pub current_line: Option<String>,
    pub upload_started_at: Option<Timestamp>,
    pub last_progress_at: Option<Timestamp>,
    pub attempt_token: Option<String>,
    pub attempt_phase: Option<String>,
    pub phase_started_at: Option<Timestamp>,
    pub last_heartbeat_at: Option<Timestamp>,
    pub line_source: Option<String>,
    pub last_chunk_index: Option<i64>,
    pub last_chunk_started_at: Option<Timestamp>,
    pub last_chunk_error: Option<String>,
}

/// Notes that an attempt failed: the segment is tried again after its delay.
pub fn mark_retry_failure(row: &mut UploadMissingSegment, error: String, now: Timestamp)
    requires
        old(row).attempts < i64::MAX,
        old(row).line_index < i64::MAX,
        in_clock_range(now@ + retry_secs(old(row).attempts + 1) * NANOS_PER_SEC),
    ensures
        final(row).status@ == "failed"@,
        final(row).next_retry_at@ == now@ + retry_secs(old(row).attempts + 1) * NANOS_PER_SEC,
        *final(row) == (UploadMissingSegment {
            attempts: (old(row).attempts + 1) as i64,
            line_index: rotated(old(row).line_index as int) as i64,
            status: final(row).status,
            last_error: Some(error),
            next_retry_at: final(row).next_retry_at,
            updated_at: now,
            ..*old(row)
        }),
{
    row.attempts = row.attempts + 1;
    row.line_index = next_line_index(row.line_index);
    row.status = own("failed");
    row.last_error = Some(error);
    row.next_retry_at = now.plus(&retry_delay_for_attempt(row.attempts));
    row.updated_at = now;
}

/// Notes that an attempt succeeded.
pub fn mark_retry_success(row: &mut UploadMissingSegment, now: Timestamp)
    ensures
        final(row).status@ == "succeeded"@,
        *final(row) == (UploadMissingSegment {
            status: final(row).status,
            updated_at: now,
            ..*old(row)
        }),
{
    row.status = own("succeeded");
    row.updated_at = now;
}

/// The place of a segment that comes behind `successful_count` uploaded and
/// `missing_before_or_at_end` missing ones.
pub fn next_segment_order(successful_count: usize, missing_before_or_at_end: usize) -> (order: i64)
    requires
        successful_count + missing_before_or_at_end <= usize::MAX,
        successful_count + missing_before_or_at_end <= i64::MAX,
    ensures
        order == successful_count + missing_before_or_at_end,
{
    (successful_count + missing_before_or_at_end) as i64
}

/// Whether a status is one from which a segment is tried again.
pub open spec fn is_retryable(status: Seq<char>) -> bool {
    status == "pending"@ || status == "failed"@
}

/// Whether a segment is to be tried again without anyone asking for it.
pub fn is_due_for_silent_recovery(
    status: &str,
    next_retry_at: Timestamp,
    now: Timestamp,
) -> (due: bool)
    ensures
        due == (is_retryable(status@) && next_retry_at@ <= now@),
{
    (str_eq(status, "pending") || str_eq(status, "failed")) && next_retry_at.at_or_before(&now)
}

/// Whether a segment may be deleted.
pub fn can_delete_missing_segment(status: &str) -> (may: bool)
    ensures
        may == is_retryable(status@),
{
    str_eq(status, "pending") || str_eq(status, "failed")
}

/// Makes a segment due at once, because someone asked for it.
pub fn reset_for_manual_retry(row: &mut UploadMissingSegment, now: Timestamp)
    ensures
        final(row).status@ == "failed"@,
        opt_view(final(row).last_error) == Some("manual retry requested from uploading state"@),
        *final(row) == (UploadMissingSegment {
            status: final(row).status,
            last_error: final(row).last_error,
            next_retry_at: now,
            updated_at: now,
            ..*old(row)
        }),
{
    row.status = own("failed");
    row.last_error = Some(own("manual retry requested from uploading state"));
    row.next_retry_at = now;
    row.updated_at = now;
}

/// Whether the attempt under `token` still owns the row.
pub open spec fn owned_under(row: UploadMissingSegment, token: Seq<char>) -> bool {
    row.lifecycle_version == 2 && row.status@ == "uploading"@ && opt_view(row.attempt_token)
        == Some(token)
}

fn still_owned(row: &UploadMissingSegment, token: &str) -> (yes: bool)
    ensures
        yes == owned_under(*row, token@),
{
    let same: bool = match &row.attempt_token {
        Some(held) => str_eq(held.as_str(), token),
        None => false,
    };
    row.lifecycle_version == 2 && str_eq(row.status.as_str(), "uploading") && same
}

/// Moves the attempt under `token` into `phase`, where it still owns the row: the phase's deadline
/// begins anew and a sign of life is given.
pub fn record_phase(
    row: &mut UploadMissingSegment,
    attempt_token: &str,
    phase: AttemptPhase,
    now: Timestamp,
) -> (owned: bool)
    ensures
        owned == owned_under(*old(row), attempt_token@),
        owned ==> opt_view(final(row).attempt_phase) == Some(crate::attempt_lease::phase_name(phase)),
        *final(row) == (if owned {
            UploadMissingSegment {
                attempt_phase: final(row).attempt_phase,
                phase_started_at: Some(now),
                last_heartbeat_at: Some(now),
                updated_at: now,
                ..*old(row)
            }
        } else {
            *old(row)
        }),
{
    if !still_owned(row, attempt_token) {
        return false;
    }
    row.attempt_phase = Some(own(phase.as_str()));
    row.phase_started_at = Some(now);
    row.last_heartbeat_at = Some(now);
    row.updated_at = now;
    true
}

/// Gives a sign of life of the attempt under `token`, where it still owns the row. The phase's
/// deadline stays.
pub fn record_heartbeat(
    row: &mut UploadMissingSegment,
    attempt_token: &str,
    now: Timestamp,
) -> (owned: bool)
    ensures
        owned == owned_under(*old(row), attempt_token@),
        *final(row) == (if owned {
            UploadMissingSegment { last_heartbeat_at: Some(now), ..*old(row) }
        } else {
            *old(row)
        }),
{
    if !still_owned(row, attempt_token) {
        return false;
    }
    row.last_heartbeat_at = Some(now);
    true
}

/// A row that is being uploaded, as far as the verdict on it needs it.
pub struct LeaseRow {
    pub id: i64,
    pub attempt_token: Option<String>,
    pub attempt_phase: Option<String>,
    pub phase_started_at: Option<Timestamp>,
    pub last_heartbeat_at: Option<Timestamp>,
    pub last_progress_at: Option<Timestamp>,
    pub upload_started_at: Option<Timestamp>,
    pub updated_at: Timestamp,
    pub total_bytes: Option<i64>,
}

/// What the verdict on a row looks at. A phase without a known name counts as none.
pub open spec fn snapshot_of(row: LeaseRow) -> LeaseSnapshot {
    LeaseSnapshot {
        phase: match row.attempt_phase {
            Some(name) => named_phase(name@),
            None => None,
        },
        phase_started_at: row.phase_started_at,
        last_heartbeat_at: row.last_heartbeat_at,
        last_progress_at: row.last_progress_at,
        upload_started_at: row.upload_started_at,
        updated_at: row.updated_at,
        total_bytes: row.total_bytes,
    }
}

impl LeaseRow {
    /// What the verdict on the row looks at.
    pub fn snapshot(&self) -> (snapshot: LeaseSnapshot)
        ensures
            snapshot == snapshot_of(*self),
    {
        LeaseSnapshot {
            phase: match &self.attempt_phase {
                Some(name) => AttemptPhase::parse(name.as_str()),
                None => None,
            },
            phase_started_at: self.phase_started_at,
            last_heartbeat_at: self.last_heartbeat_at,
            last_progress_at: self.last_progress_at,
            upload_started_at: self.upload_started_at,
            updated_at: self.updated_at,
            total_bytes: self.total_bytes,
        }
    }
}

/// What is to be done with a row that is being uploaded.
pub enum StaleStep {
    /// Its attempt is alive.
    Keep,
    /// Its attempt is abandoned, and nothing proves whose it was: it is left to a person.
    Inspect(StaleReason),
    /// Its attempt is abandoned: it is first asked to stop.
    Cancel { reason: StaleReason, token: String },
}

/// What came of asking an attempt to stop.
#[derive(Clone, Copy, Debug, PartialEq, Eq, Structural)]
pub enum CancelAttemptResult {
    /// It ran here and has stopped.
    Exited,
    /// It runs here and does not stop.
    TimedOut,
    /// It does not run here.
    NotRegistered,
}

/// Whether `step` is what is to be done at `now` with a row that is being uploaded.
pub open spec fn calls_for(row: LeaseRow, now: Timestamp, step: StaleStep) -> bool {
    match verdict(snapshot_of(row), now@) {
        None => step == StaleStep::Keep,
        Some(reason) => match row.attempt_token {
            None => step == StaleStep::Inspect(reason),
            Some(token) => step matches StaleStep::Cancel { reason: why, token: held } && why
                == reason && held@ == token@,
        },
    }
}

/// What is to be done with a row that is being uploaded.
pub fn stale_step(row: &LeaseRow, now: Timestamp) -> (step: StaleStep)
    ensures
        calls_for(*row, now, step),
{
    match classify_stale_lease(&row.snapshot(), now) {
        None => StaleStep::Keep,
        Some(reason) => match &row.attempt_token {
            None => StaleStep::Inspect(reason),
            Some(token) => StaleStep::Cancel { reason, token: own(token.as_str()) },
        },
    }
}

/// Under which name the end of an abandoned attempt is stored; none where it still runs, so that
/// the row is left for the next round and no second upload of the file begins.
pub fn after_cancel(result: CancelAttemptResult) -> (outcome: Option<&'static str>)
    ensures
        match result {
            CancelAttemptResult::Exited => outcome matches Some(name) && name@ == "cancelled"@,
            CancelAttemptResult::NotRegistered => outcome matches Some(name) && name@ == "stale"@,
            CancelAttemptResult::TimedOut => outcome is None,
        },
{
    match result {
        CancelAttemptResult::Exited => Some("cancelled"),
        CancelAttemptResult::NotRegistered => Some("stale"),
        CancelAttemptResult::TimedOut => None,
    }
}

/// What is told of the segments that are not uploaded yet.
pub struct MissingSegmentHealth {
    /// How many rows there are of each status.
    pub status_counts: HashMap<String, i64>,
    /// How many rows are being uploaded by an abandoned attempt.
    pub stale_uploading_count: i64,
    /// For how long the oldest of them has stood still.
    pub oldest_stale_uploading_secs: Option<i64>,
}

/// Since when a row has stood still.
pub open spec fn still_since(snapshot: LeaseSnapshot) -> Timestamp {
    match snapshot.last_progress_at {
        Some(at) => at,
        None => match snapshot.phase_started_at {
            Some(at) => at,
            None => match snapshot.upload_started_at {
                Some(at) => at,
                None => snapshot.updated_at,
            },
        },
    }
}

/// Whole seconds in a number of nanoseconds, rounded towards zero.
pub open spec fn whole_secs(nanos: int) -> int {
    if nanos >= 0 {
        nanos / NANOS_PER_SEC as int
    } else {
        -((-nanos) / NANOS_PER_SEC as int)
    }
}

/// For how long each of the abandoned rows has stood still, in seconds.
pub open spec fn stale_ages(rows: Seq<LeaseRow>, now: Timestamp) -> Seq<int>
    decreases rows.len(),
{
    if rows.len() == 0 {
        Seq::<int>::empty()
    } else {
        let rest = stale_ages(rows.drop_last(), now);
        let snapshot = snapshot_of(rows.last());
        if verdict(snapshot, now@) is Some {
            rest.push(whole_secs(now@ - still_since(snapshot)@))
        } else {
            rest
        }
    }
}

/// The largest of some numbers.
pub open spec fn largest(numbers: Seq<int>) -> Option<int>
    decreases numbers.len(),
{
    if numbers.len() == 0 {
        None
    } else {
        match largest(numbers.drop_last()) {
            Some(most) if most >= numbers.last() => Some(most),
            _ => Some(numbers.last()),
        }
    }
}

fn secs_of(nanos: i128) -> (secs: i64)
    requires
        -20_000_000_000_000_000_000_000 < nanos < 20_000_000_000_000_000_000_000,
    ensures
        secs == whole_secs(nanos as int),
{
    if nanos >= 0 {
        (nanos / 1_000_000_000i128) as i64
    } else {
        -(((-nanos) / 1_000_000_000i128) as i64)
    }
}

/// What is told of the segments that are not uploaded yet, by the same verdict that ends their
/// attempts.
pub fn missing_segment_health(
    counts: HashMap<String, i64>,
    uploading: &Vec<LeaseRow>,
    now: Timestamp,
) -> (health: MissingSegmentHealth)
    requires
        uploading.len() <= i64::MAX,
    ensures
        health.status_counts == counts,
        health.stale_uploading_count == stale_ages(uploading@, now).len(),
        match health.oldest_stale_uploading_secs {
            Some(secs) => largest(stale_ages(uploading@, now)) == Some(secs as int),
            None => largest(stale_ages(uploading@, now)) is None,
        },
{
    let mut count: i64 = 0;
    let mut oldest: Option<i64> = None;
    let mut i: usize = 0;
    while i < uploading.len()
        invariant
            i <= uploading.len() <= i64::MAX,
            count == stale_ages(uploading@.take(i as int), now).len(),
            count <= i,
            match oldest {
                Some(secs) => largest(stale_ages(uploading@.take(i as int), now)) == Some(
                    secs as int,
                ),
                None => largest(stale_ages(uploading@.take(i as int), now)) is None,
            },
        decreases uploading.len() - i,
    {
        assert(uploading@.take(i + 1).drop_last() =~= uploading@.take(i as int));
        let snapshot: LeaseSnapshot = uploading[i].snapshot();
        let ghost rest = stale_ages(uploading@.take(i as int), now);
        if classify_stale_lease(&snapshot, now).is_some() {
            let since: Timestamp = match snapshot.last_progress_at {
                Some(at) => at,
                None => match snapshot.phase_started_at {
                    Some(at) => at,
                    None => match snapshot.upload_started_at {
                        Some(at) => at,
                        None => snapshot.updated_at,
                    },
                },
            };
            let _ = now.nanos();
            let _ = since.nanos();
            let age: i64 = secs_of(now.since(&since));
            assert(rest.push(age as int).drop_last() =~= rest);
            count = count + 1;
            oldest =
            match oldest {
                Some(most) => if most >= age {
                    Some(most)
                } else {
                    Some(age)
                },
                None => Some(age),
            };
        }
        i = i + 1;
    }
    assert(uploading@.take(uploading@.len() as int) =~= uploading@);
    MissingSegmentHealth {
        status_counts: counts,
        stale_uploading_count: count,
        oldest_stale_uploading_secs: oldest,
    }
}

/// How many of `steps` do something about their row.
pub open spec fn acted_on(steps: Seq<StaleStep>) -> int
    decreases steps.len(),
{
    if steps.len() == 0 {
        0
    } else {
        acted_on(steps.drop_last()) + (if steps.last() is Keep {
            0int
        } else {
            1
        })
    }
}

/// What is told of the rows that are being uploaded never disagrees with what is done about them:
/// as many are told to stand still as are acted upon, and an age is told where there is one.
pub proof fn law_health_tells_what_is_done(
    rows: Seq<LeaseRow>,
    steps: Seq<StaleStep>,
    now: Timestamp,
)
    requires
        steps.len() == rows.len(),
        forall|i: int| 0 <= i < rows.len() ==> calls_for(#[trigger] rows[i], now, steps[i]),
    ensures
        stale_ages(rows, now).len() == acted_on(steps),
        largest(stale_ages(rows, now)) is Some <==> acted_on(steps) > 0,
    decreases rows.len(),
{
    if rows.len() > 0 {
        let front = rows.drop_last();
        assert forall|i: int| 0 <= i < front.len() implies calls_for(
            #[trigger] front[i],
            now,
            steps.drop_last()[i],
        ) by {
            assert(front[i] == rows[i]);
        }
        law_health_tells_what_is_done(front, steps.drop_last(), now);
        assert(calls_for(rows[rows.len() - 1], now, steps[rows.len() - 1]));
    }
}

/// What came of a request to delete a segment.
pub enum MissingSegmentDeleteClaim {
    /// The row is taken for deletion.
    Claimed(UploadMissingSegment),
    NotFound,
    NotDeletable { status: String },
}

/// Takes a row for deletion, where its status allows it.
pub fn claim_missing_segment_for_delete(
    row: Option<UploadMissingSegment>,
    now: Timestamp,
) -> (claim: MissingSegmentDeleteClaim)
    ensures
        match row {
            None => claim == MissingSegmentDeleteClaim::NotFound,
            Some(row) => if is_retryable(row.status@) {
                &&& claim matches MissingSegmentDeleteClaim::Claimed(taken)
                &&& taken.status@ == "deleting"@
                &&& taken == (UploadMissingSegment { status: taken.status, updated_at: now, ..row })
            } else {
                claim == (MissingSegmentDeleteClaim::NotDeletable { status: row.status })
            },
        },
{
    match row {
        None => MissingSegmentDeleteClaim::NotFound,
        Some(row) => if can_delete_missing_segment(row.status.as_str()) {
            let mut taken: UploadMissingSegment = row;
            taken.status = own("deleting");
            taken.updated_at = now;
            MissingSegmentDeleteClaim::Claimed(taken)
        } else {
            MissingSegmentDeleteClaim::NotDeletable { status: row.status }
        },
    }
}

/// A segment to be queued.
pub struct SegmentRequest {
    pub live_streamer_id: i64,
    pub streamer_info_id: i64,
    pub upload_session_id: Option<i64>,
    pub aid: Option<i64>,
    pub file_path: String,
    pub danmaku_file_path: Option<String>,
    pub segment_order: i64,
    /// Why the segment is queued.
    pub reason: String,
}

/// Whether a status is one of a segment that waits or is being uploaded.
pub open spec fn is_open(status: Seq<char>) -> bool {
    status == "pending"@ || status == "uploading"@ || status == "failed"@
}

/// Whether row `i` is the open row of the file `path` of a room.
pub open spec fn is_open_row(
    rows: Seq<UploadMissingSegment>,
    room: i64,
    path: Seq<char>,
    i: int,
) -> bool {
    0 <= i < rows.len() && rows[i].live_streamer_id == room && rows[i].file_path@ == path
        && is_open(rows[i].status@)
}

/// The first open row of a file.
pub open spec fn open_row(rows: Seq<UploadMissingSegment>, room: i64, path: Seq<char>) -> Option<int>
    decreases rows.len(),
{
    if rows.len() == 0 {
        None
    } else {
        match open_row(rows.drop_last(), room, path) {
            Some(at) => Some(at),
            None => if is_open_row(rows, room, path, rows.len() - 1) {
                Some(rows.len() - 1)
            } else {
                None
            },
        }
    }
}

/// Whether `row` is a fresh row for `request`.
pub open spec fn fresh_row(
    row: UploadMissingSegment,
    id: i64,
    request: SegmentRequest,
    failed: bool,
    next_retry_at: int,
    now: Timestamp,
) -> bool {
    &&& row.status@ == (if failed {
        "failed"@
    } else {
        "pending"@
    })
    &&& row.next_retry_at@ == next_retry_at
    &&& row == (UploadMissingSegment {
        id,
        live_streamer_id: request.live_streamer_id,
        streamer_info_id: request.streamer_info_id,
        upload_session_id: request.upload_session_id,
        aid: request.aid,
        file_path: request.file_path,
        danmaku_file_path: request.danmaku_file_path,
        segment_order: request.segment_order,
        status: row.status,
        attempts: if failed {
            1
        } else {
            0
        },
        line_index: if failed {
            1
        } else {
            0
        },
        next_retry_at: row.next_retry_at,
        last_error: Some(request.reason),
        created_at: now,
        updated_at: now,
        normalized_file_path: None,
        lifecycle_version: 1,
        video_json: None,
        total_bytes: None,
        uploaded_bytes: 0,
        current_line: None,
        upload_started_at: None,
        last_progress_at: None,
        attempt_token: None,
        attempt_phase: None,
        phase_started_at: None,
        last_heartbeat_at: None,
        line_source: None,
        last_chunk_index: None,
        last_chunk_started_at: None,
        last_chunk_error: None,
    })
}

/// Whether the open row of the file of `request`, where there is one, can count one more attempt.
pub open spec fn room_to_fail(rows: Seq<UploadMissingSegment>, request: SegmentRequest) -> bool {
    open_row(rows, request.live_streamer_id, request.file_path@) matches Some(at)
        ==> rows[at].attempts < i64::MAX
}

/// Whether `row` is `before` with `request` merged into it: a failure resets the retry state, a
/// segment that never was tried keeps it.
pub open spec fn merged_row(
    row: UploadMissingSegment,
    before: UploadMissingSegment,
    request: SegmentRequest,
    failed: bool,
    next_retry_at: int,
    now: Timestamp,
) -> bool {
    &&& row.status@ == (if failed {
        "failed"@
    } else {
        before.status@
    })
    &&& row.next_retry_at@ == (if failed {
        next_retry_at
    } else {
        before.next_retry_at@
    })
    &&& row == (UploadMissingSegment {
        upload_session_id: if failed || before.upload_session_id is None {
            request.upload_session_id
        } else {
            before.upload_session_id
        },
        aid: if before.aid is None {
            request.aid
        } else {
            before.aid
        },
        segment_order: request.segment_order,
        status: row.status,
        attempts: (before.attempts + (if failed {
            1int
        } else {
            0
        })) as i64,
        line_index: if failed {
            1
        } else {
            before.line_index
        },
        next_retry_at: row.next_retry_at,
        last_error: Some(request.reason),
        updated_at: now,
        ..before
    })
}

/// Whether `after` is `rows` with `request` queued: merged into the open row of its file where
/// there is one, and added as a row of its own otherwise.
pub open spec fn queued(
    rows: Seq<UploadMissingSegment>,
    after: Seq<UploadMissingSegment>,
    id: i64,
    request: SegmentRequest,
    failed: bool,
    next_retry_at: int,
    now: Timestamp,
) -> bool {
    match open_row(rows, request.live_streamer_id, request.file_path@) {
        Some(at) => {
            &&& after.len() == rows.len()
            &&& merged_row(after[at], rows[at], request, failed, next_retry_at, now)
            &&& after == rows.update(at, after[at])
        },
        None => {
            &&& after.len() == rows.len() + 1
            &&& fresh_row(after[rows.len() as int], id, request, failed, next_retry_at, now)
            &&& after == rows.push(after[rows.len() as int])
        },
    }
}

proof fn lemma_open_row(rows: Seq<UploadMissingSegment>, room: i64, path: Seq<char>)
    ensures
        match open_row(rows, room, path) {
            Some(at) => is_open_row(rows, room, path, at) && forall|k: int|
                0 <= k < at ==> !is_open_row(rows, room, path, k),
            None => forall|k: int| !is_open_row(rows, room, path, k),
        },
    decreases rows.len(),
{
    if rows.len() > 0 {
        let rest = rows.drop_last();
        lemma_open_row(rest, room, path);
        assert forall|k: int| 0 <= k < rest.len() implies #[trigger] is_open_row(
            rows,
            room,
            path,
            k,
        ) == is_open_row(rest, room, path, k) by {
            assert(rest[k] == rows[k]);
        }
        match open_row(rest, room, path) {
            Some(at) => {
                assert(is_open_row(rest, room, path, at));
                assert(is_open_row(rows, room, path, at));
            },
            None => {},
        }
    }
}

fn find_open_row(rows: &Vec<UploadMissingSegment>, room: i64, path: &str) -> (found: Option<usize>)
    ensures
        match found {
            Some(at) => at < rows.len() && open_row(rows@, room, path@) == Some(at as int),
            None => open_row(rows@, room, path@) is None,
        },
{
    let mut i: usize = 0;
    while i < rows.len()
        invariant
            i <= rows.len(),
            forall|k: int| 0 <= k < i ==> !is_open_row(rows@, room, path@, k),
        decreases rows.len() - i,
    {
        let status: &str = rows[i].status.as_str();
        if rows[i].live_streamer_id == room && str_eq(rows[i].file_path.as_str(), path) && (str_eq(
            status,
            "pending",
        ) || str_eq(status, "uploading") || str_eq(status, "failed")) {
            proof {
                lemma_open_row(rows@, room, path@);
                assert(is_open_row(rows@, room, path@, i as int));
            }
            return Some(i);
        }
        i = i + 1;
    }
    proof {
        lemma_open_row(rows@, room, path@);
    }
    None
}

fn enqueue_segment(
    rows: &mut Vec<UploadMissingSegment>,
    next_id: i64,
    request: SegmentRequest,
    failed: bool,
    next_retry_at: Timestamp,
    now: Timestamp,
)
    requires
        failed ==> room_to_fail(old(rows)@, request),
    ensures
        queued(
            old(rows)@,
            final(rows)@,
            next_id,
            request,
            failed,
            next_retry_at@,
            now,
        ),
{
    let ghost before = rows@;
    let status: String = if failed {
        own("failed")
    } else {
        own("pending")
    };
    let count: i64 = if failed {
        1
    } else {
        0
    };
    match find_open_row(rows, request.live_streamer_id, request.file_path.as_str()) {
        Some(at) => {
            proof {
                lemma_open_row(before, request.live_streamer_id, request.file_path@);
            }
            let mut row: UploadMissingSegment = rows.remove(at);
            if failed || row.upload_session_id.is_none() {
                row.upload_session_id = request.upload_session_id;
            }
            if row.aid.is_none() {
                row.aid = request.aid;
            }
            row.segment_order = request.segment_order;
            if failed {
                row.attempts = row.attempts + 1;
                row.status = status;
                row.line_index = 1;
                row.next_retry_at = next_retry_at;
            }
            row.last_error = Some(request.reason);
            row.updated_at = now;
            rows.insert(at, row);
            assert(rows@ =~= before.update(at as int, row));
        },
        None => {
            rows.push(
                UploadMissingSegment {
                    id: next_id,
                    live_streamer_id: request.live_streamer_id,
                    streamer_info_id: request.streamer_info_id,
                    upload_session_id: request.upload_session_id,
                    aid: request.aid,
                    file_path: request.file_path,
                    danmaku_file_path: request.danmaku_file_path,
                    segment_order: request.segment_order,
                    status,
                    attempts: count,
                    line_index: count,
                    next_retry_at,
                    last_error: Some(request.reason),
                    created_at: now,
                    updated_at: now,
                    normalized_file_path: None,
                    lifecycle_version: 1,
                    video_json: None,
                    total_bytes: None,
                    uploaded_bytes: 0,
                    current_line: None,
                    upload_started_at: None,
                    last_progress_at: None,
                    attempt_token: None,
                    attempt_phase: None,
                    phase_started_at: None,
                    last_heartbeat_at: None,
                    line_source: None,
                    last_chunk_index: None,
                    last_chunk_started_at: None,
                    last_chunk_error: None,
                },
            );
            assert(rows@ =~= before.push(rows@[before.len() as int]));
        },
    }
}

/// Queues a segment whose upload failed: it is tried again after the delay of one attempt.
pub fn enqueue_missing_segment(
    rows: &mut Vec<UploadMissingSegment>,
    next_id: i64,
    request: SegmentRequest,
    now: Timestamp,
)
    requires
        in_clock_range(now@ + retry_secs(1) * NANOS_PER_SEC),
        room_to_fail(old(rows)@, request),
    ensures
        queued(
            old(rows)@,
            final(rows)@,
            next_id,
            request,
            true,
            now@ + retry_secs(1) * NANOS_PER_SEC,
            now,
        ),
{
    let retry_at: Timestamp = now.plus(&retry_delay_for_attempt(1));
    enqueue_segment(rows, next_id, request, true, retry_at, now);
}

/// Queues a segment that never was tried: it is due at once, and nothing counts as an attempt.
pub fn enqueue_pending_segment(
    rows: &mut Vec<UploadMissingSegment>,
    next_id: i64,
    request: SegmentRequest,
    now: Timestamp,
)
    ensures
        queued(old(rows)@, final(rows)@, next_id, request, false, now@, now),
{
    enqueue_segment(rows, next_id, request, false, now, now);
}

/// Whether no file has two open rows.
pub open spec fn one_open_row_each(rows: Seq<UploadMissingSegment>) -> bool {
    forall|i: int, j: int, room: i64, path: Seq<char>|
        is_open_row(rows, room, path, i) && is_open_row(rows, room, path, j) ==> i == j
}

/// Queueing a file again gives it no second open row.
pub proof fn law_a_file_is_queued_once(
    rows: Seq<UploadMissingSegment>,
    after: Seq<UploadMissingSegment>,
    id: i64,
    request: SegmentRequest,
    failed: bool,
    next_retry_at: int,
    now: Timestamp,
)
    requires
        one_open_row_each(rows),
        queued(rows, after, id, request, failed, next_retry_at, now),
    ensures
        one_open_row_each(after),
{
    lemma_open_row(rows, request.live_streamer_id, request.file_path@);
    assert forall|i: int, j: int, room: i64, path: Seq<char>|
        is_open_row(after, room, path, i) && is_open_row(after, room, path, j) implies i == j by {
        match open_row(rows, request.live_streamer_id, request.file_path@) {
            Some(at) => {
                assert(is_open_row(rows, room, path, i)) by {
                    if i != at {
                        assert(after[i] == rows[i]);
                    }
                }
                assert(is_open_row(rows, room, path, j)) by {
                    if j != at {
                        assert(after[j] == rows[j]);
                    }
                }
            },
            None => {
                let n = rows.len() as int;
                if i < n {
                    assert(after[i] == rows[i]);
                    assert(is_open_row(rows, room, path, i));
                }
                if j < n {
                    assert(after[j] == rows[j]);
                    assert(is_open_row(rows, room, path, j));
                }
            },
        }
    }
}

/// The largest place of the rows of a session.
pub open spec fn last_place(rows: Seq<UploadMissingSegment>, session: i64) -> Option<int>
    decreases rows.len(),
{
    if rows.len() == 0 {
        None
    } else {
        let rest = last_place(rows.drop_last(), session);
        if rows.last().upload_session_id != Some(session) {
            rest
        } else {
            match rest {
                Some(most) if most >= rows.last().segment_order => Some(most),
                _ => Some(rows.last().segment_order as int),
            }
        }
    }
}

/// How many rows of a session are open.
pub open spec fn open_count(rows: Seq<UploadMissingSegment>, session: i64) -> int
    decreases rows.len(),
{
    if rows.len() == 0 {
        0
    } else {
        open_count(rows.drop_last(), session) + (if rows.last().upload_session_id == Some(session)
            && is_open(rows.last().status@) {
            1int
        } else {
            0
        })
    }
}

/// A number cut off at the largest of 64 bits.
pub open spec fn capped(number: int) -> int {
    if number > i64::MAX {
        i64::MAX as int
    } else {
        number
    }
}

/// The place for another missing segment of a session: behind every place that is taken, and
/// behind the uploaded and the open ones together.
pub open spec fn place_behind(
    rows: Seq<UploadMissingSegment>,
    session: i64,
    successful_count: int,
) -> int {
    let behind_rows = match last_place(rows, session) {
        Some(most) => capped(most + 1),
        None => 0,
    };
    let behind_parts = capped(capped(successful_count) + open_count(rows, session));
    if behind_rows >= behind_parts {
        behind_rows
    } else {
        behind_parts
    }
}

/// The place for another missing segment of a session.
pub fn next_missing_segment_order(
    rows: &Vec<UploadMissingSegment>,
    upload_session_id: i64,
    successful_count: usize,
) -> (order: i64)
    requires
        rows.len() <= i64::MAX,
    ensures
        order == place_behind(rows@, upload_session_id, successful_count as int),
{
    let mut most: Option<i64> = None;
    let mut count: i64 = 0;
    let mut i: usize = 0;
    while i < rows.len()
        invariant
            i <= rows.len() <= i64::MAX,
            0 <= count <= i,
            count == open_count(rows@.take(i as int), upload_session_id),
            match most {
                Some(order) => last_place(rows@.take(i as int), upload_session_id) == Some(
                    order as int,
                ),
                None => last_place(rows@.take(i as int), upload_session_id) is None,
            },
        decreases rows.len() - i,
    {
        assert(rows@.take(i + 1).drop_last() =~= rows@.take(i as int));
        let row: &UploadMissingSegment = &rows[i];
        let mine: bool = match row.upload_session_id {
            Some(session) => session == upload_session_id,
            None => false,
        };
        if mine {
            most =
            match most {
                Some(order) => if order >= row.segment_order {
                    Some(order)
                } else {
                    Some(row.segment_order)
                },
                None => Some(row.segment_order),
            };
            let status: &str = row.status.as_str();
            if str_eq(status, "pending") || str_eq(status, "uploading") || str_eq(
                status,
                "failed",
            ) {
                count = count + 1;
            }
        }
        i = i + 1;
    }
    assert(rows@.take(rows@.len() as int) =~= rows@);
    let behind_rows: i64 = match most {
        Some(order) => if order == i64::MAX {
            i64::MAX
        } else {
            order + 1
        },
        None => 0,
    };
    let done: i64 = if successful_count as u64 > i64::MAX as u64 {
        i64::MAX
    } else {
        successful_count as i64
    };
    let behind_parts: i64 = if count > i64::MAX - done {
        i64::MAX
    } else {
        done + count
    };
    if behind_rows >= behind_parts {
        behind_rows
    } else {
        behind_parts
    }
}

/// The place for another missing segment is behind every place of its session that is taken.
pub proof fn law_the_place_is_not_taken(
    rows: Seq<UploadMissingSegment>,
    session: i64,
    successful_count: int,
    i: int,
)
    requires
        0 <= i < rows.len(),
        rows[i].upload_session_id == Some(session),
        rows[i].segment_order < i64::MAX,
    ensures
        place_behind(rows, session, successful_count) > rows[i].segment_order,
{
    lemma_last_place(rows, session, i);
}

proof fn lemma_last_place(rows: Seq<UploadMissingSegment>, session: i64, i: int)
    requires
        0 <= i < rows.len(),
        rows[i].upload_session_id == Some(session),
    ensures
        last_place(rows, session) matches Some(most) && most >= rows[i].segment_order,
    decreases rows.len(),
{
    let rest = rows.drop_last();
    if i < rest.len() {
        assert(rest[i] == rows[i]);
        lemma_last_place(rest, session, i);
    }
}

/// The keys of the rows of a session that are due.
pub open spec fn due_row_keys(
    rows: Seq<UploadMissingSegment>,
    session: i64,
    now: Timestamp,
) -> Seq<SortKey>
    decreases rows.len(),
{
    if rows.len() == 0 {
        Seq::<SortKey>::empty()
    } else {
        let rest = due_row_keys(rows.drop_last(), session, now);
        let row = rows.last();
        if row.upload_session_id == Some(session) && is_retryable(row.status@)
            && row.next_retry_at@ <= now@ {
            rest.push(SortKey { major: row.segment_order as i128, minor: 0, id: row.id })
        } else {
            rest
        }
    }
}

/// The rows of a session that are due, by their place.
pub fn due_missing_segments_for_session(
    rows: &Vec<UploadMissingSegment>,
    upload_session_id: i64,
    now: Timestamp,
) -> (ids: Vec<i64>)
    ensures
        ids@ == key_ids(sorted_keys(due_row_keys(rows@, upload_session_id, now))),
{
    let mut keys: Vec<SortKey> = Vec::new();
    let mut i: usize = 0;
    while i < rows.len()
        invariant
            i <= rows.len(),
            keys@ == due_row_keys(rows@.take(i as int), upload_session_id, now),
        decreases rows.len() - i,
    {
        assert(rows@.take(i + 1).drop_last() =~= rows@.take(i as int));
        let row: &UploadMissingSegment = &rows[i];
        let mine: bool = match row.upload_session_id {
            Some(session) => session == upload_session_id,
            None => false,
        };
        if mine && is_due_for_silent_recovery(row.status.as_str(), row.next_retry_at, now) {
            keys.push(SortKey { major: row.segment_order as i128, minor: 0, id: row.id });
        }
        i = i + 1;
    }
    assert(rows@.take(rows@.len() as int) =~= rows@);
    proof {
        crate::order::law_ordering_only_reorders(keys@);
    }
    ordered_ids(&keys, keys.len())
}

} // verus!
