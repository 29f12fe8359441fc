//! What single calls do to the rows of uploads and of sessions.
use crate::attempt_lease::{note_attempt_phase, record_views, AttemptPhase, AttemptRecord};
use crate::download::segments::MediaValidation;
use crate::guarantees::recovery::law_a_file_is_uploaded_once;
use crate::guarantees::upload::{
    law_a_phase_is_never_taken_back, law_a_record_is_found_by_its_token,
};
use crate::lifecycle_backfill::{
    after_batch, parking_order, part_name, session_step, snapshot_kind, BackfillJournal, BatchEnd,
    SessionStep, SnapshotKind,
};
use crate::missing_segment::{
    after_cancel, can_delete_missing_segment, claim_missing_segment_for_delete,
    insert_video_at_order, is_due_for_silent_recovery, mark_retry_failure, mark_retry_success,
    next_line_index, next_segment_order, patch_studio_videos, record_heartbeat, record_phase,
    reset_for_manual_retry, CancelAttemptResult, MissingSegmentDeleteClaim, Studio,
    UploadMissingSegment, Video,
};
use crate::recovery_eligibility::{
    audit_row, check_recovery_eligibility, choose_uid, finalized_session_for_streamer_info,
    mark_source_missing, replay_recovery_audits, AuditReplay, AuditRow, RecoveryEligibility,
    UidStep,
};
use crate::recovery_scheduler::{due_rows, ActiveGroups, DueRow, GroupGuard};
use crate::segment_enrollment::{
    after_enrollment_failure, baseline_count, enrolled_order, existing_enrollment, is_choice,
    is_manifest, new_enrollment, newest_where, recent_enough, same_broadcast, stored_total_bytes,
    EnrollStep, EnrollmentRequest, OutboxHealth, SegmentEnrollment, SessionChoice, SessionRow,
};
use crate::submission_scheduler::{
    due_submission_session_ids, includes_recent_blocked, SubmissionRow, SubmissionTrigger,
};
use crate::text::opt_view;
use crate::time::Timestamp;
use vstd::prelude::*;

verus! {

/// A segment that failed waits: it counts one failure more, goes on over the next of three lines,
/// keeps the error, and is tried again after half an hour, an hour, two hours and then six.
pub proof fn law_a_failed_segment_waits(
    row: &mut UploadMissingSegment,
    error: String,
    now: Timestamp,
)
    requires
        call_ensures(mark_retry_failure, (row, error, now), ()),
        0 <= old(row).attempts < i64::MAX,
        0 <= old(row).line_index < i64::MAX,
    ensures
        final(row).status@ == "failed"@,
        final(row).attempts == old(row).attempts + 1,
        final(row).line_index == (old(row).line_index + 1) % 3,
        final(row).last_error == Some(error),
        final(row).updated_at == now,
        final(row).next_retry_at@ - now@ == (if old(row).attempts == 0 {
            30 * 60
        } else if old(row).attempts == 1 {
            60 * 60
        } else if old(row).attempts == 2 {
            2 * 60 * 60
        } else {
            6 * 60 * 60
        }) * 1_000_000_000,
        final(row).id == old(row).id,
        final(row).file_path == old(row).file_path,
        final(row).upload_session_id == old(row).upload_session_id,
        final(row).segment_order == old(row).segment_order,
{
}

/// A segment that went up is told so, and nothing else of it changes but its time.
pub proof fn law_an_uploaded_segment_is_told_so(row: &mut UploadMissingSegment, now: Timestamp)
    requires
        call_ensures(mark_retry_success, (row, now), ()),
    ensures
        final(row).status@ == "succeeded"@,
        final(row).updated_at == now,
        final(row).attempts == old(row).attempts,
        final(row).id == old(row).id,
        final(row).last_error == old(row).last_error,
        final(row).segment_order == old(row).segment_order,
{
}

/// A segment is tried again unasked once its time has come while it waits or has failed, and may
/// be deleted in the same states.
pub proof fn law_which_segments_are_tried_unasked(
    status: &str,
    at: Timestamp,
    now: Timestamp,
    due: bool,
    may: bool,
)
    requires
        call_ensures(is_due_for_silent_recovery, (status, at, now), due),
        call_ensures(can_delete_missing_segment, (status,), may),
    ensures
        due == ((status@ == "pending"@ || status@ == "failed"@) && at@ <= now@),
        may == (status@ == "pending"@ || status@ == "failed"@),
{
}

/// A segment that is asked for by hand is due at once, and says why.
pub proof fn law_asked_for_by_hand(row: &mut UploadMissingSegment, now: Timestamp)
    requires
        call_ensures(reset_for_manual_retry, (row, now), ()),
    ensures
        final(row).status@ == "failed"@,
        final(row).next_retry_at == now,
        opt_view(final(row).last_error) == Some("manual retry requested from uploading state"@),
        final(row).attempts == old(row).attempts,
        final(row).line_index == old(row).line_index,
{
}

/// The attempt that holds a row enters its phases in it and gives its signs of life there; any
/// other leaves it alone.
pub proof fn law_a_sign_of_life_is_written_down(
    row: &mut UploadMissingSegment,
    other: &mut UploadMissingSegment,
    token: &str,
    phase: AttemptPhase,
    now: Timestamp,
    entered: bool,
    alive: bool,
)
    requires
        call_ensures(record_phase, (row, token, phase, now), entered),
        call_ensures(record_heartbeat, (other, token, now), alive),
    ensures
        entered == (old(row).lifecycle_version == 2 && old(row).status@ == "uploading"@ && opt_view(
            old(row).attempt_token,
        ) == Some(token@)),
        entered ==> opt_view(final(row).attempt_phase) == Some(
            match phase {
                AttemptPhase::Preprocessing => "preprocessing"@,
                AttemptPhase::Queued => "queued"@,
                AttemptPhase::Transferring => "transferring"@,
            },
        ) && final(row).phase_started_at == Some(now) && final(row).last_heartbeat_at == Some(now),
        !entered ==> *final(row) == *old(row),
        alive == (old(other).lifecycle_version == 2 && old(other).status@ == "uploading"@
            && opt_view(old(other).attempt_token) == Some(token@)),
        alive ==> final(other).last_heartbeat_at == Some(now) && final(other).attempt_phase == old(
            other,
        ).attempt_phase && final(other).phase_started_at == old(other).phase_started_at,
        !alive ==> *final(other) == *old(other),
{
}

/// An attempt that was stopped is told as cancelled, one that is gone as stale; one that does not
/// stop keeps its row.
pub proof fn law_what_becomes_of_a_stopped_attempt(
    result: CancelAttemptResult,
    outcome: Option<&'static str>,
)
    requires
        call_ensures(after_cancel, (result,), outcome),
    ensures
        result == CancelAttemptResult::Exited ==> outcome is Some && outcome->0@ == "cancelled"@,
        result == CancelAttemptResult::NotRegistered ==> outcome is Some && outcome->0@ == "stale"@,
        result == CancelAttemptResult::TimedOut ==> outcome is None,
{
}

/// A segment that waits or has failed is taken for deletion; one in any other state is refused
/// with its state, and one that is not there is not found.
pub proof fn law_which_segments_are_deleted(
    row: Option<UploadMissingSegment>,
    now: Timestamp,
    claim: MissingSegmentDeleteClaim,
)
    requires
        call_ensures(claim_missing_segment_for_delete, (row, now), claim),
    ensures
        row is None ==> claim == MissingSegmentDeleteClaim::NotFound,
        row is Some && (row->0.status@ == "pending"@ || row->0.status@ == "failed"@) ==> (claim
            matches MissingSegmentDeleteClaim::Claimed(taken) && taken.status@ == "deleting"@
            && taken.id == row->0.id && taken.updated_at == now && taken.file_path
            == row->0.file_path),
        row is Some && row->0.status@ != "pending"@ && row->0.status@ != "failed"@ ==> claim == (
        MissingSegmentDeleteClaim::NotDeletable { status: row->0.status }),
{
}

/// A part is put at its place among the others, or at the end where it lies behind them; a studio
/// keeps its title.
pub proof fn law_a_part_is_put_at_its_place(
    videos: &mut Vec<Video>,
    studio: &mut Studio,
    video: Video,
    order: i64,
)
    requires
        call_ensures(insert_video_at_order, (videos, video, order), ()),
        call_ensures(patch_studio_videos, (studio, video, order), ()),
    ensures
        final(videos)@.len() == old(videos)@.len() + 1,
        0 <= order <= old(videos)@.len() ==> final(videos)@[order as int] == video,
        order < 0 ==> final(videos)@[0] == video,
        order > old(videos)@.len() ==> final(videos)@.last() == video,
        final(studio).videos@.len() == old(studio).videos@.len() + 1,
        0 <= order <= old(studio).videos@.len() ==> final(studio).videos@[order as int] == video,
        final(studio).title == old(studio).title,
{
}

/// Lines are taken in turn, and a segment stands behind everything before it.
pub proof fn law_the_next_line_and_place(
    line: i64,
    next: i64,
    done: usize,
    missing: usize,
    order: i64,
)
    requires
        call_ensures(next_line_index, (line,), next),
        call_ensures(next_segment_order, (done, missing), order),
    ensures
        line >= 0 ==> next == (line + 1) % 3,
        line < 0 ==> next == 0,
        order == done + missing,
{
}

/// The answer to whether a segment may be recovered, from the rows themselves: a file that any
/// other row of the room has uploaded is not recovered again, and a segment that waits, is due,
/// has its file and stands alone is.
pub proof fn law_the_answer_on_recovery(
    row: &UploadMissingSegment,
    sessions: &Vec<SessionRow>,
    rows: &Vec<UploadMissingSegment>,
    source_is_file: bool,
    validation: Option<&MediaValidation>,
    now: Timestamp,
    answer: RecoveryEligibility,
    i: int,
)
    requires
        call_ensures(
            check_recovery_eligibility,
            (row, sessions, rows, source_is_file, validation, now),
            answer,
        ),
    ensures
        0 <= i < rows@.len() && rows@[i].id != row.id && rows@[i].live_streamer_id
            == row.live_streamer_id && rows@[i].lifecycle_version == 2 && rows@[i].status@
            == "succeeded"@ && row.normalized_file_path is Some
            && rows@[i].normalized_file_path is Some && rows@[i].normalized_file_path->0@
            == row.normalized_file_path->0@ ==> answer != RecoveryEligibility::Eligible,
        sessions@.len() == 0 && rows@.len() == 0 && source_is_file && validation is None && (
        row.status@ == "pending"@ || row.status@ == "failed"@) && row.next_retry_at@ <= now@
            ==> answer == RecoveryEligibility::Eligible,
        row.next_retry_at@ > now@ ==> answer != RecoveryEligibility::Eligible,
{
    if 0 <= i < rows@.len() && rows@[i].id != row.id && rows@[i].live_streamer_id
        == row.live_streamer_id && rows@[i].lifecycle_version == 2 && rows@[i].status@
        == "succeeded"@ && row.normalized_file_path is Some
        && rows@[i].normalized_file_path is Some && rows@[i].normalized_file_path->0@
        == row.normalized_file_path->0@ {
        law_a_file_is_uploaded_once(
            *row,
            sessions@,
            rows@,
            source_is_file,
            validation,
            now,
            i,
        );
    }
    crate::guarantees::recovery::law_a_waiting_segment_is_recovered(
        *row,
        sessions@,
        rows@,
        source_is_file,
        validation,
        now,
    );
}

/// The rows that a run works on hold every row that is due, whatever else it holds.
pub proof fn law_the_rows_of_a_run(
    rows: &Vec<UploadMissingSegment>,
    sessions: &Vec<SessionRow>,
    session_id: Option<i64>,
    now: Timestamp,
    due: Vec<DueRow>,
    i: int,
)
    requires
        call_ensures(due_rows, (rows, sessions, session_id, now), due),
        0 <= i < rows@.len(),
        rows@[i].status@ == "pending"@ || rows@[i].status@ == "failed"@,
        rows@[i].next_retry_at@ <= now@,
        forall|k: int|
            0 <= k < sessions@.len() && rows@[i].upload_session_id == Some(
                (#[trigger] sessions@[k]).id,
            ) ==> !sessions@[k].finalized,
        session_id is None || session_id == rows@[i].upload_session_id,
    ensures
        exists|k: int|
            0 <= k < due@.len() && (#[trigger] due@[k]).id == rows@[i].id
                && due@[k].upload_session_id == rows@[i].upload_session_id && due@[k].segment_order
                == rows@[i].segment_order,
{
    crate::guarantees::recovery::law_a_due_row_is_taken(rows@, sessions@, session_id, now, i);
    let wanted = DueRow {
        id: rows@[i].id,
        upload_session_id: rows@[i].upload_session_id,
        segment_order: rows@[i].segment_order,
    };
    let k = choose|k: int| 0 <= k < due@.len() && due@[k] == wanted;
    assert(due@[k].id == rows@[i].id);
}

/// What a scan submits holds every session that is due, and a later scan of the same sessions
/// still holds it.
pub proof fn law_the_sessions_of_a_scan(
    rows: &Vec<SubmissionRow>,
    now: Timestamp,
    later: Timestamp,
    include_recent_blocked: bool,
    ids: Vec<i64>,
    ids_later: Vec<i64>,
    i: int,
)
    requires
        call_ensures(due_submission_session_ids, (rows, now, include_recent_blocked), ids),
        call_ensures(due_submission_session_ids, (rows, later, include_recent_blocked), ids_later),
        rows@.len() <= 128,
        now@ <= later@,
    ensures
        forall|id: i64| ids@.contains(id) ==> #[trigger] ids_later@.contains(id),
        0 <= i < rows@.len() && rows@[i].status@ != "finalized"@
            && rows@[i].submit_requested_at is Some && rows@[i].submit_claim_token is None && (
        rows@[i].next_submit_at is None || rows@[i].next_submit_at->0@ <= now@) && opt_view(
            rows@[i].submit_state,
        ) == Some("failed"@) ==> ids@.contains(rows@[i].id),
{
    assert forall|id: i64| ids@.contains(id) implies #[trigger] ids_later@.contains(id) by {
        crate::guarantees::submission::law_a_later_scan_takes_it_too(
            rows@,
            now,
            later,
            include_recent_blocked,
            id,
        );
    }
    if 0 <= i < rows@.len() && rows@[i].status@ != "finalized"@
        && rows@[i].submit_requested_at is Some && rows@[i].submit_claim_token is None && (
    rows@[i].next_submit_at is None || rows@[i].next_submit_at->0@ <= now@) && opt_view(
        rows@[i].submit_state,
    ) == Some("failed"@) {
        crate::guarantees::submission::lemma_states();
        crate::guarantees::submission::law_what_is_due_is_submitted(
            rows@,
            now,
            include_recent_blocked,
            i,
        );
    }
}

/// The first scan looks at lately blocked sessions too, the others do not.
pub proof fn law_the_first_scan_looks_at_all(trigger: SubmissionTrigger, yes: bool)
    requires
        call_ensures(includes_recent_blocked, (trigger,), yes),
    ensures
        trigger == SubmissionTrigger::StartupScan ==> yes,
        trigger == SubmissionTrigger::PeriodicScan ==> !yes,
{
}

/// A lost source is written down, with the reason, and the row given up, in every state but the
/// three that stay.
pub proof fn law_a_lost_source_is_written_down(
    row: &mut UploadMissingSegment,
    reason: &str,
    now: Timestamp,
    changed: bool,
)
    requires
        call_ensures(mark_source_missing, (row, reason, now), changed),
    ensures
        changed == (old(row).status@ != "succeeded"@ && old(row).status@ != "source_missing"@
            && old(
            row,
        ).status@ != "deleting"@),
        changed ==> final(row).status@ == "source_missing"@ && opt_view(final(row).last_error)
            == Some(reason@) && final(row).next_retry_at == now && final(row).attempt_token is None
            && final(row).current_line is None && final(row).attempts == old(row).attempts,
        !changed ==> *final(row) == *old(row),
{
}

/// The closed session of a broadcast that is found is one of its closed sessions, and no other of
/// them was touched later; where none is found there is none.
pub proof fn law_the_closed_session_that_is_found(
    sessions: &Vec<SessionRow>,
    room: i64,
    info: i64,
    found: Option<i64>,
    k: int,
)
    requires
        call_ensures(finalized_session_for_streamer_info, (sessions, room, info), found),
        0 <= k < sessions@.len(),
        sessions@[k].live_streamer_id == room,
        sessions@[k].streamer_info_id == info,
        sessions@[k].finalized,
    ensures
        found is Some,
        exists|i: int|
            0 <= i < sessions@.len() && (#[trigger] sessions@[i]).id == found->0
                && sessions@[i].live_streamer_id == room && sessions@[i].streamer_info_id == info
                && sessions@[i].finalized && sessions@[k].updated_at@ <= sessions@[i].updated_at@,
{
    assert(crate::recovery_eligibility::is_broadcast_session(sessions@, room, info, true, k));
    let i = choose|i: int|
        crate::recovery_eligibility::is_last_finalized(sessions@, room, info, i) && found->0
            == #[trigger] sessions@[i].id;
    crate::guarantees::recovery::law_the_last_closed_session_is_found(
        sessions@,
        room,
        info,
        i,
        k,
    );
}

/// An audit holds what it was made of, and a replay says how far it came.
pub proof fn law_audits_hold_what_they_were_made_of(
    id: i64,
    room: i64,
    info: i64,
    path: &str,
    reason: &str,
    now: Timestamp,
    uid: String,
    row: AuditRow,
    after_id: i64,
    ids: &Vec<i64>,
    accepted: &Vec<bool>,
    replay: AuditReplay,
    stored: &Option<String>,
    number: Option<u128>,
    step: UidStep,
)
    requires
        call_ensures(audit_row, (id, room, info, path, reason, now, uid), row),
        call_ensures(replay_recovery_audits, (after_id, ids, accepted), replay),
        call_ensures(choose_uid, (stored, number), step),
    ensures
        row.id == id && row.live_streamer_id == room && row.streamer_info_id == info
            && row.file_path@ == path@ && row.reason@ == reason@ && row.created_at == now
            && row.event_uid == Some(uid),
        ids@.len() == 0 ==> replay.last_id == after_id,
        ids@.len() > 0 ==> replay.last_id == ids@[ids@.len() - 1],
        replay.rows == ids@.len(),
        stored is Some && number is Some ==> step == UidStep::Use(number->0),
        stored is None || number is None ==> step == UidStep::Assign,
{
}

/// A group is worked on by one run at a time: it is given out where no run holds it, and refused
/// where one does.
pub proof fn law_a_group_is_given_out_once(
    groups: &mut ActiveGroups,
    key: i64,
    guard: Option<GroupGuard>,
    other: i64,
)
    requires
        call_ensures(ActiveGroups::try_claim_group, (groups, key), guard),
    ensures
        guard is Some <==> !old(groups)@.contains(key),
        final(groups)@.contains(key),
        other != key ==> final(groups)@.contains(other) == old(groups)@.contains(other),
{
}

/// An enrollment that fails is tried again three times, after 20, 50 and 100 milliseconds, and is
/// then put into the outbox.
pub proof fn law_when_an_enrollment_is_put_off(failures: usize, step: EnrollStep)
    requires
        call_ensures(after_enrollment_failure, (failures,), step),
        failures >= 1,
    ensures
        failures == 1 ==> (step matches EnrollStep::RetryAfter(delay) && delay@ == 20 * 1_000_000),
        failures == 2 ==> (step matches EnrollStep::RetryAfter(delay) && delay@ == 50 * 1_000_000),
        failures == 3 ==> (step matches EnrollStep::RetryAfter(delay) && delay@ == 100 * 1_000_000),
        failures >= 4 ==> step is Outbox,
{
}

/// A segment stands behind the last row and behind the published parts, from zero on.
pub proof fn law_where_a_segment_is_enrolled(
    max_order: Option<i64>,
    baseline: i64,
    order: i64,
    parts: Option<usize>,
    count: i64,
    bytes: u64,
    stored: i64,
)
    requires
        call_ensures(enrolled_order, (max_order, baseline), order),
        call_ensures(baseline_count, (parts,), count),
        call_ensures(stored_total_bytes, (bytes,), stored),
        baseline >= 0,
    ensures
        order >= baseline,
        max_order is Some && max_order->0 < i64::MAX ==> order > max_order->0,
        max_order is None ==> order == baseline,
        max_order is Some && max_order->0 < i64::MAX && order > baseline ==> order == max_order->0
            + 1,
        parts is None ==> count == 0,
        parts is Some && parts->0 <= i64::MAX ==> count == parts->0,
        bytes <= i64::MAX ==> stored == bytes,
        bytes > i64::MAX ==> stored == i64::MAX,
{
}

/// What is told of an enrollment: of a file that has a row, the row, as a duplicate, with the size
/// that was stored where it makes sense; of a new one, what came in.
pub proof fn law_what_is_told_of_an_enrollment(
    id: i64,
    session: i64,
    order: i64,
    bytes: Option<i64>,
    segment: Option<String>,
    request: &EnrollmentRequest,
    known: SegmentEnrollment,
    fresh: SegmentEnrollment,
)
    requires
        call_ensures(existing_enrollment, (id, session, order, bytes, segment, request), known),
        call_ensures(new_enrollment, (id, session, order, request), fresh),
    ensures
        known.duplicate && !fresh.duplicate,
        known.missing_id == id && fresh.missing_id == id,
        known.upload_session_id == session && fresh.upload_session_id == session,
        known.segment_order == order && fresh.segment_order == order,
        bytes is Some && bytes->0 >= 0 ==> known.total_bytes == bytes->0,
        bytes is None || bytes->0 < 0 ==> known.total_bytes == request.total_bytes,
        fresh.total_bytes == request.total_bytes,
        known.segment_id == segment && fresh.segment_id == request.segment_id,
{
}

/// The session of a segment: the open one of its broadcast before any other of the room, and one
/// of the room only within the window; where neither is there one is created.
pub proof fn law_which_session_is_chosen(
    rows: &Vec<SessionRow>,
    request: &EnrollmentRequest,
    choice: SessionChoice,
    i: int,
)
    requires
        is_choice(rows@, *request, choice),
        0 <= i < rows@.len(),
        rows@[i].live_streamer_id == request.live_streamer_id,
        !rows@[i].finalized,
    ensures
        rows@[i].streamer_info_id == request.streamer_info_id ==> (choice matches
            SessionChoice::Reuse { id } && exists|at: int|
            0 <= at < rows@.len() && (#[trigger] rows@[at]).id == id && rows@[at].live_streamer_id
                == request.live_streamer_id && rows@[at].streamer_info_id
                == request.streamer_info_id && !rows@[at].finalized && rows@[at].updated_at@
                >= rows@[i].updated_at@),
        request.now@ - rows@[i].updated_at@ <= request.recovery_window_minutes * 60 * 1_000_000_000
            ==> !(choice is Create),
        choice matches SessionChoice::Adopt { id } ==> exists|at: int|
            0 <= at < rows@.len() && (#[trigger] rows@[at]).id == id && rows@[at].live_streamer_id
                == request.live_streamer_id && !rows@[at].finalized && request.now@
                - rows@[at].updated_at@ <= request.recovery_window_minutes * 60 * 1_000_000_000,
{
    let same = |r: SessionRow| same_broadcast(r, *request);
    let recent = |r: SessionRow| recent_enough(r, *request);
    if rows@[i].streamer_info_id == request.streamer_info_id {
        assert(same(rows@[i]));
        assert(same_broadcast(rows@[i], *request));
    }
    if request.now@ - rows@[i].updated_at@ <= request.recovery_window_minutes * 60 * 1_000_000_000 {
        assert(recent_enough(rows@[i], *request));
    }
    match choice {
        SessionChoice::Reuse { id } => {
            let at = choose|at: int|
                newest_where(rows@, |r: SessionRow| same_broadcast(r, *request), at) && (
                #[trigger] rows@[at]).id == id;
            assert(same_broadcast(rows@[at], *request));
            assert(rows@[at].id == id);
        },
        SessionChoice::Adopt { id } => {
            let at = choose|at: int|
                newest_where(rows@, |r: SessionRow| recent_enough(r, *request), at) && (
                #[trigger] rows@[at]).id == id;
            assert(recent_enough(rows@[at], *request));
            assert(rows@[at].id == id);
        },
        SessionChoice::Create => {
            assert(!recent_enough(rows@[i], *request));
        },
    }
}

/// A manifest is known by its extension, and the outbox by the number of its manifests and the
/// oldest of them.
pub proof fn law_what_the_outbox_tells(
    extension: Option<&str>,
    yes: bool,
    health: &mut OutboxHealth,
    modified: Option<Timestamp>,
)
    requires
        call_ensures(is_manifest, (extension,), yes),
        call_ensures(OutboxHealth::record, (health, modified), ()),
    ensures
        yes == (extension is Some && extension->0@ == "json"@),
        final(health).count == old(health).count + 1,
        old(health).oldest is Some ==> final(health).oldest is Some && final(health).oldest->0@
            <= old(health).oldest->0@,
        modified is Some ==> final(health).oldest is Some && final(health).oldest->0@
            <= modified->0@,
        final(health).oldest == old(health).oldest || final(health).oldest == modified,
{
}

/// What is done with a session: nothing where it has no rows, is published or is of the present
/// lifecycle throughout; otherwise its ledger is rebuilt, unless its parts cannot be read.
pub proof fn law_what_is_done_with_a_session(
    status: &str,
    versions: &Vec<i64>,
    readable: bool,
    step: SessionStep,
    i: int,
)
    requires
        call_ensures(session_step, (status, versions, readable), step),
    ensures
        versions@.len() == 0 ==> step == SessionStep::SkipEmpty,
        versions@.len() > 0 && status@ == "finalized"@ ==> step == SessionStep::SkipFinalized,
        0 <= i < versions@.len() && versions@[i] != 2 && status@ != "finalized"@ ==> step == (
        if readable {
            SessionStep::Rebuild
        } else {
            SessionStep::Corrupt
        }),
        versions@.len() > 0 && status@ != "finalized"@ && (forall|k: int|
            0 <= k < versions@.len() ==> #[trigger] versions@[k] == 2) ==> step
            == SessionStep::SkipCurrent,
{
    if 0 <= i < versions@.len() && versions@[i] != 2 {
        assert(!crate::lifecycle_backfill::all_current(versions@));
    }
}

/// Batches follow each other until none is left; a trial run stops after its first.
pub proof fn law_batches_follow_each_other(
    sessions: usize,
    dry_run: bool,
    end: BatchEnd,
    index: usize,
    order: i64,
)
    requires
        call_ensures(after_batch, (sessions, dry_run), end),
        call_ensures(parking_order, (index,), order),
    ensures
        sessions == 0 ==> end == BatchEnd::Finished,
        sessions > 0 && dry_run ==> end == BatchEnd::StopDryRun,
        sessions > 0 && !dry_run ==> end == BatchEnd::Next,
        order < 0,
        order == -(index as int) - 1,
{
}

/// A part is known by its title, and by its file where it has none; a snapshot that is blank or
/// says `null` holds nothing.
pub proof fn law_how_parts_are_known(
    title: Option<&str>,
    filename: &str,
    name: &str,
    json: &str,
    kind: SnapshotKind,
)
    requires
        call_ensures(part_name, (title, filename), name),
        call_ensures(snapshot_kind, (json,), kind),
    ensures
        title is Some ==> name@ == title->0@,
        title is None ==> name@ == filename@,
        kind is Absent <==> crate::text::trim_spec(json@).len() == 0
            || crate::text::trim_spec(json@)
            == "null"@,
{
}

/// The journal moves on with a later session only.
pub proof fn law_the_journal_is_moved_on(
    journal: &mut BackfillJournal,
    session: i64,
    migrated: i64,
    synthetic: i64,
    conflicts: i64,
    moved: bool,
)
    requires
        call_ensures(
            BackfillJournal::advance,
            (journal, session, migrated, synthetic, conflicts),
            moved,
        ),
    ensures
        moved == (session > old(journal).last_session_id),
        moved ==> final(journal).last_session_id == session,
        !moved ==> *final(journal) == *old(journal),
{
}

/// The phase of an attempt is noted on the first record with its token, where it is the furthest
/// so far; an attempt that reached its transfer stays there, and no other record is touched.
pub proof fn law_a_phase_is_noted_on_its_record(
    records: &mut Vec<AttemptRecord>,
    token: &str,
    phase: AttemptPhase,
    found: bool,
    at: int,
    other: int,
)
    requires
        call_ensures(note_attempt_phase, (records, token, phase), found),
        0 <= at <= old(records)@.len(),
        forall|i: int| 0 <= i < at ==> (#[trigger] old(records)@[i]).attempt_token@ != token@,
        at < old(records)@.len() ==> old(records)@[at].attempt_token@ == token@,
        0 <= other < old(records)@.len(),
    ensures
        found == (at < old(records)@.len()),
        final(records)@.len() == old(records)@.len(),
        other != at ==> final(records)@[other]@ == old(records)@[other]@,
        found ==> final(records)@[at].attempt_token@ == token@,
        found && phase == AttemptPhase::Transferring && (old(records)@[at].phase_reached@
            == "preprocessing"@ || old(records)@[at].phase_reached@ == "queued"@)
            ==> final(records)@[at].phase_reached@ == "transferring"@,
        found && phase == AttemptPhase::Queued && old(records)@[at].phase_reached@
            == "preprocessing"@ ==> final(records)@[at].phase_reached@ == "queued"@,
        found && old(records)@[at].phase_reached@ == "transferring"@
            ==> final(records)@[at].phase_reached@ == "transferring"@,
        found && phase == AttemptPhase::Preprocessing && old(records)@[at].phase_reached@
            == "queued"@ ==> final(records)@[at].phase_reached@ == "queued"@,
{
    let before = record_views(old(records)@);
    let after = record_views(final(records)@);
    assert forall|i: int| 0 <= i < at implies (#[trigger] before[i]).attempt_token != token@ by {
        assert(before[i] == old(records)@[i]@);
    }
    law_a_record_is_found_by_its_token(before, token@, at);
    assert(after.len() == final(records)@.len());
    assert(after.len() == before.len());
    if at < before.len() {
        law_a_phase_is_never_taken_back(before[at].phase_reached);
        assert(before[at] == old(records)@[at]@);
        assert(after[at] == final(records)@[at]@);
    }
    assert(before[other] == old(records)@[other]@);
    assert(after[other] == final(records)@[other]@);
}

} // verus!
