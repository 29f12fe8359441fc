use biliup_common::attempt_lease::{AttemptPhase, StaleReason};
use biliup_common::missing_segment::{
    after_cancel, can_delete_missing_segment, claim_missing_segment_for_delete,
    due_missing_segments_for_session, enqueue_missing_segment, enqueue_pending_segment,
    insert_video_at_order, is_due_for_silent_recovery, mark_retry_failure, mark_retry_success,
    missing_segment_health, next_line_index, next_missing_segment_order, next_segment_order,
    normalize_segment_order, patch_studio_videos, record_heartbeat, record_phase,
    reset_for_manual_retry, retry_delay_for_attempt, stale_step, CancelAttemptResult, LeaseRow,
    MissingSegmentDeleteClaim, SegmentRequest, StaleStep, Studio, UploadMissingSegment, Video,
};
use biliup_common::time::{Span, Timestamp};
use chrono::TimeZone;
use std::collections::HashMap;

fn at(hour: u32, minute: u32) -> Timestamp {
    let reading = chrono::Utc
        .with_ymd_and_hms(2026, 6, 18, hour, minute, 0)
        .unwrap();
    Timestamp::from_secs(reading.timestamp()).unwrap()
}

fn later(time: Timestamp, secs: i128) -> Timestamp {
    Timestamp::from_nanos(time.nanos() + secs * 1_000_000_000).unwrap()
}

fn video(name: &str) -> Video {
    Video {
        title: Some(name.to_string()),
        filename: name.to_string(),
        desc: String::new(),
    }
}

fn missing_row() -> UploadMissingSegment {
    let now = at(12, 0);
    UploadMissingSegment {
        id: 1,
        live_streamer_id: 10,
        streamer_info_id: 20,
        upload_session_id: Some(30),
        aid: None,
        file_path: "/opt/p3.flv".to_string(),
        danmaku_file_path: None,
        segment_order: 2,
        status: "pending".to_string(),
        attempts: 0,
        line_index: 0,
        next_retry_at: now,
        last_error: None,
        created_at: now,
        updated_at: now,
        normalized_file_path: None,
        lifecycle_version: 1,
        video_json: None,
        total_bytes: None,
        uploaded_bytes: 0,
        current_line: None,
        upload_started_at: None,
        last_progress_at: None,
        attempt_token: None,
        attempt_phase: None,
        phase_started_at: None,
        last_heartbeat_at: None,
        line_source: None,
        last_chunk_index: None,
        last_chunk_started_at: None,
        last_chunk_error: None,
    }
}

fn request(session: Option<i64>, path: &str, order: i64, reason: &str) -> SegmentRequest {
    SegmentRequest {
        live_streamer_id: 10,
        streamer_info_id: 20,
        upload_session_id: session,
        aid: None,
        file_path: path.to_string(),
        danmaku_file_path: None,
        segment_order: order,
        reason: reason.to_string(),
    }
}

fn lease_row(token: Option<&str>, progress: Timestamp) -> LeaseRow {
    LeaseRow {
        id: 1,
        attempt_token: token.map(str::to_string),
        attempt_phase: None,
        phase_started_at: None,
        last_heartbeat_at: None,
        last_progress_at: Some(progress),
        upload_started_at: Some(progress),
        updated_at: progress,
        total_bytes: None,
    }
}

#[test]
fn stale_uploading_lease_waits_five_minutes_and_converges_once() {
    let started = at(12, 0);
    let row = lease_row(Some("lease-a"), started);
    assert!(matches!(
        stale_step(&row, later(started, 4 * 60 + 59)),
        StaleStep::Keep
    ));
    let StaleStep::Cancel { reason, token } = stale_step(&row, later(started, 5 * 60)) else {
        panic!("the lease is stale after five minutes");
    };
    assert_eq!(token, "lease-a");
    assert!(reason.as_error().starts_with("stale_uploading_lease"));
    assert_eq!(after_cancel(CancelAttemptResult::NotRegistered), Some("stale"));
    assert_eq!(after_cancel(CancelAttemptResult::Exited), Some("cancelled"));
    assert_eq!(after_cancel(CancelAttemptResult::TimedOut), None);

    let unowned = lease_row(None, started);
    assert!(matches!(
        stale_step(&unowned, later(started, 5 * 60)),
        StaleStep::Inspect(StaleReason::NoNetworkProgress)
    ));
}

#[test]
fn health_reports_status_counts_and_only_the_stale_uploading_row() {
    let now = at(12, 10);
    let rows = vec![
        lease_row(None, later(now, -30)),
        lease_row(None, later(now, -9 * 60)),
    ];
    let counts = HashMap::from([("pending".to_string(), 1), ("uploading".to_string(), 2)]);
    let health = missing_segment_health(counts.clone(), &rows, now);
    assert_eq!(health.status_counts, counts);
    assert_eq!(health.stale_uploading_count, 1);
    assert_eq!(health.oldest_stale_uploading_secs, Some(540));

    let none = missing_segment_health(HashMap::new(), &Vec::new(), now);
    assert_eq!(none.stale_uploading_count, 0);
    assert_eq!(none.oldest_stale_uploading_secs, None);
}

#[test]
fn pending_segment_is_immediately_due_without_counting_an_upload_attempt() {
    let now = at(12, 5);
    let mut rows = Vec::new();
    let mut asked = request(Some(30), "/tmp/init-failed.flv", 3, "login unavailable");
    asked.danmaku_file_path = Some("/tmp/init-failed.xml".to_string());
    enqueue_pending_segment(&mut rows, 1, asked, now);
    assert_eq!(rows.len(), 1);
    assert_eq!(rows[0].status, "pending");
    assert_eq!(rows[0].attempts, 0);
    assert_eq!(rows[0].line_index, 0);
    assert_eq!(rows[0].next_retry_at, now);
    assert_eq!(rows[0].upload_session_id, Some(30));

    assert_eq!(due_missing_segments_for_session(&rows, 30, now), vec![1]);
    assert_eq!(next_missing_segment_order(&rows, 30, 1), 4);
}

#[test]
fn duplicate_pending_enqueue_keeps_retry_state_and_links_existing_row() {
    let first = at(12, 5);
    let second = later(first, 60);
    let mut rows = Vec::new();
    enqueue_pending_segment(&mut rows, 1, request(None, "/tmp/replayed.flv", 0, "first"), first);
    enqueue_pending_segment(
        &mut rows,
        2,
        request(Some(30), "/tmp/replayed.flv", 1, "second"),
        second,
    );
    assert_eq!(rows.len(), 1);
    assert_eq!(rows[0].status, "pending");
    assert_eq!(rows[0].attempts, 0);
    assert_eq!(rows[0].next_retry_at, first);
    assert_eq!(rows[0].upload_session_id, Some(30));
    assert_eq!(rows[0].segment_order, 1);
    assert_eq!(rows[0].last_error.as_deref(), Some("second"));
}

#[test]
fn a_failed_upload_of_a_queued_file_resets_its_retry_state() {
    let first = at(12, 5);
    let second = later(first, 60);
    let mut rows = Vec::new();
    enqueue_pending_segment(&mut rows, 1, request(Some(30), "/tmp/a.flv", 0, "first"), first);
    enqueue_missing_segment(&mut rows, 2, request(Some(31), "/tmp/a.flv", 4, "again"), second);
    assert_eq!(rows.len(), 1);
    assert_eq!(rows[0].id, 1);
    assert_eq!(rows[0].status, "failed");
    assert_eq!(rows[0].attempts, 1);
    assert_eq!(rows[0].line_index, 1);
    assert_eq!(rows[0].upload_session_id, Some(31));
    assert_eq!(rows[0].next_retry_at, later(second, 30 * 60));

    rows[0].status = "succeeded".to_string();
    enqueue_missing_segment(&mut rows, 3, request(Some(31), "/tmp/a.flv", 4, "new"), second);
    assert_eq!(rows.len(), 2);
    assert_eq!(rows[1].id, 3);

    rows[0].attempts = i64::MAX;
    enqueue_missing_segment(&mut rows, 4, request(Some(31), "/tmp/a.flv", 4, "more"), second);
    assert_eq!((rows[0].attempts, rows[1].attempts), (i64::MAX, 2));
    rows[1].attempts = i64::MAX;
    enqueue_pending_segment(&mut rows, 5, request(Some(31), "/tmp/a.flv", 6, "late"), second);
    assert_eq!((rows[1].attempts, rows[1].segment_order), (i64::MAX, 6));
}

#[test]
fn next_order_counts_missing_segment_between_successful_segments() {
    let now = at(12, 5);
    let mut rows = Vec::new();
    enqueue_missing_segment(
        &mut rows,
        1,
        request(Some(30), "/tmp/middle-missing.flv", 1, "upload failed"),
        now,
    );
    assert_eq!(next_missing_segment_order(&rows, 30, 2), 3);
    assert_eq!(next_missing_segment_order(&rows, 31, 2), 2);
}

#[test]
fn rebuilt_pipeline_starts_after_init_failure_pending_segment() {
    let now = at(12, 5);
    let mut rows = Vec::new();
    enqueue_pending_segment(
        &mut rows,
        1,
        request(Some(30), "/tmp/init-failure-first.flv", 0, "login unavailable"),
        now,
    );
    assert_eq!(
        next_missing_segment_order(&rows, 30, 0),
        1,
        "the rebuilt pipeline must not reuse order 0 for its next failed upload"
    );
}

#[test]
fn due_rows_of_a_session_come_by_their_place() {
    let now = at(12, 0);
    let mut rows = Vec::new();
    for (id, order) in [(1i64, 5i64), (2, 1), (3, 1), (4, 0)] {
        let mut row = missing_row();
        row.id = id;
        row.segment_order = order;
        rows.push(row);
    }
    rows[3].status = "uploading".to_string();
    assert_eq!(due_missing_segments_for_session(&rows, 30, now), vec![2, 3, 1]);
    assert_eq!(
        due_missing_segments_for_session(&rows, 30, later(now, -1)),
        Vec::<i64>::new()
    );
}

#[test]
fn delete_is_allowed_only_for_unrecovered_rows() {
    assert!(can_delete_missing_segment("pending"));
    assert!(can_delete_missing_segment("failed"));
    assert!(!can_delete_missing_segment("uploading"));
    assert!(!can_delete_missing_segment("succeeded"));
}

#[test]
fn claim_missing_segment_for_delete_marks_failed_row_deleting() {
    let now = at(12, 5);
    let mut row = missing_row();
    row.status = "failed".to_string();
    let MissingSegmentDeleteClaim::Claimed(row) = claim_missing_segment_for_delete(Some(row), now)
    else {
        panic!("failed row should be claimed for deletion");
    };
    assert_eq!(row.id, 1);
    assert_eq!(row.status, "deleting");
    assert_eq!(row.updated_at, now);
}

#[test]
fn claim_missing_segment_for_delete_rejects_non_deletable_rows() {
    let now = at(12, 5);
    for status in ["uploading", "succeeded"] {
        let mut row = missing_row();
        row.status = status.to_string();
        match claim_missing_segment_for_delete(Some(row), now) {
            MissingSegmentDeleteClaim::NotDeletable { status: actual } => {
                assert_eq!(actual, status);
            }
            _ => panic!("expected non-deletable claim result"),
        }
    }
    assert!(matches!(
        claim_missing_segment_for_delete(None, now),
        MissingSegmentDeleteClaim::NotFound
    ));
}

#[test]
fn retry_reset_turns_uploading_into_due_failed_row() {
    let mut row = missing_row();
    row.status = "uploading".to_string();
    row.attempts = 7;
    row.next_retry_at = at(13, 0);
    let now = at(12, 5);

    reset_for_manual_retry(&mut row, now);

    assert_eq!(row.status, "failed");
    assert_eq!(row.attempts, 7);
    assert_eq!(
        row.last_error.as_deref(),
        Some("manual retry requested from uploading state")
    );
    assert_eq!(row.next_retry_at, now);
    assert_eq!(row.updated_at, now);
}

#[test]
fn inserts_missing_video_at_recorded_zero_based_order() {
    let mut videos = vec![video("p1"), video("p2"), video("p4")];

    insert_video_at_order(&mut videos, video("p3"), 2);

    let names: Vec<_> = videos.into_iter().map(|v| v.filename).collect();
    assert_eq!(names, vec!["p1", "p2", "p3", "p4"]);
}

#[test]
fn appends_when_recorded_order_is_after_current_end() {
    let mut videos = vec![video("p1"), video("p2")];

    insert_video_at_order(&mut videos, video("p9"), 8);

    let names: Vec<_> = videos.into_iter().map(|v| v.filename).collect();
    assert_eq!(names, vec!["p1", "p2", "p9"]);
}

#[test]
fn clamps_negative_order_to_front() {
    assert_eq!(normalize_segment_order(3, -5), 0);
}

#[test]
fn rotates_upload_lines_through_all_fallbacks() {
    assert_eq!(next_line_index(0), 1);
    assert_eq!(next_line_index(1), 2);
    assert_eq!(next_line_index(2), 0);
    assert_eq!(next_line_index(3), 1);
    assert_eq!(next_line_index(7), 2);
}

#[test]
fn a_negative_counter_begins_anew() {
    assert_eq!(next_line_index(-4), 0);
}

#[test]
fn retry_delay_starts_at_ten_minutes_and_caps_at_six_hours() {
    assert_eq!(retry_delay_for_attempt(0), Span::from_secs(10 * 60));
    assert_eq!(retry_delay_for_attempt(1), Span::from_secs(30 * 60));
    assert_eq!(retry_delay_for_attempt(2), Span::from_secs(3600));
    assert_eq!(retry_delay_for_attempt(3), Span::from_secs(2 * 3600));
    assert_eq!(retry_delay_for_attempt(9), Span::from_secs(6 * 3600));
}

#[test]
fn failure_transition_rotates_line_and_schedules_retry() {
    let mut row = missing_row();
    let now = at(12, 5);

    mark_retry_failure(&mut row, "timeout".to_string(), now);

    assert_eq!(row.status, "failed");
    assert_eq!(row.attempts, 1);
    assert_eq!(row.line_index, 1);
    assert_eq!(row.last_error.as_deref(), Some("timeout"));
    assert_eq!(row.next_retry_at, later(now, 30 * 60));
    assert_eq!(row.updated_at, now);
}

#[test]
fn success_transition_marks_row_succeeded_without_changing_order() {
    let mut row = missing_row();
    row.status = "uploading".to_string();
    row.attempts = 2;
    let now = at(12, 5);

    mark_retry_success(&mut row, now);

    assert_eq!(row.status, "succeeded");
    assert_eq!(row.attempts, 2);
    assert_eq!(row.segment_order, 2);
    assert_eq!(row.updated_at, now);
}

#[test]
fn next_segment_order_counts_successes_and_prior_missing_segments() {
    assert_eq!(next_segment_order(0, 0), 0);
    assert_eq!(next_segment_order(2, 0), 2);
    assert_eq!(next_segment_order(2, 1), 3);
}

#[test]
fn silent_recovery_only_picks_pending_or_failed_rows_that_are_due() {
    let now = at(12, 0);
    assert!(is_due_for_silent_recovery("pending", now, now));
    assert!(is_due_for_silent_recovery("failed", later(now, -60), now));
    assert!(!is_due_for_silent_recovery("failed", later(now, 60), now));
    assert!(!is_due_for_silent_recovery("uploading", now, now));
    assert!(!is_due_for_silent_recovery("succeeded", now, now));
}

#[test]
fn patch_studio_inserts_video_at_recorded_order() {
    let mut studio = Studio {
        title: "archive".to_string(),
        videos: vec![video("p1"), video("p2"), video("p4")],
    };

    patch_studio_videos(&mut studio, video("p3"), 2);

    let names: Vec<_> = studio.videos.into_iter().map(|v| v.filename).collect();
    assert_eq!(names, vec!["p1", "p2", "p3", "p4"]);
}

#[test]
fn only_the_owner_moves_a_lease_on() {
    let now = at(12, 5);
    let mut row = missing_row();
    row.status = "uploading".to_string();
    row.lifecycle_version = 2;
    row.attempt_token = Some("mine".to_string());
    assert!(!record_phase(&mut row, "theirs", AttemptPhase::Queued, now));
    assert_eq!(row.attempt_phase, None);
    assert!(record_phase(&mut row, "mine", AttemptPhase::Queued, now));
    assert_eq!(row.attempt_phase.as_deref(), Some("queued"));
    assert_eq!(row.phase_started_at, Some(now));
    let beat = later(now, 15);
    assert!(record_heartbeat(&mut row, "mine", beat));
    assert_eq!(row.last_heartbeat_at, Some(beat));
    assert_eq!(row.phase_started_at, Some(now));
    row.status = "failed".to_string();
    assert!(!record_heartbeat(&mut row, "mine", beat));
}

#[test]
fn health_counts_what_is_acted_upon() {
    let now = at(12, 10);
    let rows = vec![
        lease_row(Some("alive"), later(now, -30)),
        lease_row(Some("gone"), later(now, -400)),
        lease_row(None, later(now, -600)),
    ];
    let acted = rows
        .iter()
        .filter(|row| !matches!(stale_step(row, now), StaleStep::Keep))
        .count();
    let health = missing_segment_health(HashMap::new(), &rows, now);
    assert_eq!(acted, 2);
    assert_eq!(health.stale_uploading_count, 2);
    assert_eq!(health.oldest_stale_uploading_secs, Some(600));
}
