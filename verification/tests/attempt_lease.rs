use biliup_common::attempt_lease::{
    classify_stale_lease, close_attempt_history, note_attempt_phase, open_attempt_history,
    preprocess_deadline, store_end, AttemptPhase, AttemptRecord, LeaseSnapshot, StaleReason,
    ATTEMPT_HISTORY_PER_SEGMENT, BYTES_PER_GIB,
};
use biliup_common::time::{Span, Timestamp};
use chrono::TimeZone;

fn now() -> Timestamp {
    let reading = chrono::Utc.with_ymd_and_hms(2026, 8, 27, 12, 0, 0).unwrap();
    Timestamp::from_secs(reading.timestamp()).unwrap()
}

fn ago(now: Timestamp, secs: i128) -> Timestamp {
    Timestamp::from_nanos(now.nanos() - secs * 1_000_000_000).unwrap()
}

fn base(now: Timestamp) -> LeaseSnapshot {
    LeaseSnapshot {
        phase: None,
        phase_started_at: None,
        last_heartbeat_at: None,
        last_progress_at: None,
        upload_started_at: None,
        updated_at: now,
        total_bytes: None,
    }
}

#[test]
fn preprocessing_survives_far_beyond_the_transfer_deadline() {
    let now = now();
    let lease = LeaseSnapshot {
        phase: Some(AttemptPhase::Preprocessing),
        phase_started_at: Some(ago(now, 20 * 60)),
        last_heartbeat_at: Some(ago(now, 10)),
        total_bytes: Some(3 * BYTES_PER_GIB + 300 * 1024 * 1024),
        ..base(now)
    };

    assert_eq!(classify_stale_lease(&lease, now), None);
}

#[test]
fn preprocessing_is_reaped_once_its_size_derived_cap_is_passed() {
    let now = now();
    let lease = LeaseSnapshot {
        phase: Some(AttemptPhase::Preprocessing),
        phase_started_at: Some(ago(now, 51 * 60)),
        last_heartbeat_at: Some(ago(now, 10)),
        total_bytes: Some(3 * BYTES_PER_GIB + 300 * 1024 * 1024),
        ..base(now)
    };

    assert_eq!(classify_stale_lease(&lease, now), Some(StaleReason::PreprocessTimeout));
    assert!(!StaleReason::PreprocessTimeout.blames_upload_line());
}

#[test]
fn queueing_behind_the_global_permit_is_not_a_line_failure() {
    let now = now();
    let waiting = LeaseSnapshot {
        phase: Some(AttemptPhase::Queued),
        phase_started_at: Some(ago(now, 75 * 60)),
        last_heartbeat_at: Some(ago(now, 5)),
        ..base(now)
    };
    assert_eq!(classify_stale_lease(&waiting, now), None);

    let expired = LeaseSnapshot {
        phase_started_at: Some(ago(now, 2 * 3600 + 60)),
        ..waiting
    };
    assert_eq!(classify_stale_lease(&expired, now), Some(StaleReason::QueueTimeout));
    assert!(!StaleReason::QueueTimeout.blames_upload_line());
}

#[test]
fn transferring_keeps_the_five_minute_network_rule() {
    let now = now();
    let lease = LeaseSnapshot {
        phase: Some(AttemptPhase::Transferring),
        phase_started_at: Some(ago(now, 30 * 60)),
        last_heartbeat_at: Some(ago(now, 5)),
        last_progress_at: Some(ago(now, 6 * 60)),
        ..base(now)
    };

    assert_eq!(classify_stale_lease(&lease, now), Some(StaleReason::NoNetworkProgress));
    assert!(StaleReason::NoNetworkProgress.blames_upload_line());
}

#[test]
fn a_dead_owner_is_reaped_in_every_phase() {
    let now = now();
    for phase in [
        AttemptPhase::Preprocessing,
        AttemptPhase::Queued,
        AttemptPhase::Transferring,
    ] {
        let lease = LeaseSnapshot {
            phase: Some(phase),
            phase_started_at: Some(ago(now, 4 * 60)),
            last_heartbeat_at: Some(ago(now, 4 * 60)),
            total_bytes: Some(8 * BYTES_PER_GIB),
            ..base(now)
        };
        assert_eq!(
            classify_stale_lease(&lease, now),
            Some(StaleReason::HeartbeatLost),
            "{phase:?} must not outlive its owner"
        );
    }
}

#[test]
fn rows_without_a_phase_keep_the_pre_upgrade_behaviour() {
    let now = now();
    let fresh = LeaseSnapshot {
        upload_started_at: Some(ago(now, 4 * 60)),
        ..base(now)
    };
    assert_eq!(classify_stale_lease(&fresh, now), None);

    let stale = LeaseSnapshot {
        upload_started_at: Some(ago(now, 6 * 60)),
        ..base(now)
    };
    assert_eq!(classify_stale_lease(&stale, now), Some(StaleReason::NoNetworkProgress));
}

#[test]
fn deadlines_are_reached_at_their_last_second() {
    let now = now();
    let transfer = |secs: i128| LeaseSnapshot {
        phase: Some(AttemptPhase::Transferring),
        last_progress_at: Some(ago(now, secs)),
        ..base(now)
    };
    assert_eq!(classify_stale_lease(&transfer(299), now), None);
    assert_eq!(
        classify_stale_lease(&transfer(300), now),
        Some(StaleReason::NoNetworkProgress)
    );
}

#[test]
fn local_work_has_ten_minutes_and_ten_more_for_each_begun_gibibyte() {
    assert_eq!(preprocess_deadline(None), Span::from_secs(20 * 60));
    assert_eq!(preprocess_deadline(Some(0)), Span::from_secs(20 * 60));
    assert_eq!(preprocess_deadline(Some(-5)), Span::from_secs(20 * 60));
    assert_eq!(preprocess_deadline(Some(1)), Span::from_secs(20 * 60));
    assert_eq!(preprocess_deadline(Some(BYTES_PER_GIB)), Span::from_secs(30 * 60));
    assert_eq!(preprocess_deadline(Some(i64::MAX)), Span::from_secs(650 * 60));
}

#[test]
fn phases_are_read_back_under_their_names() {
    for phase in [
        AttemptPhase::Preprocessing,
        AttemptPhase::Queued,
        AttemptPhase::Transferring,
    ] {
        assert_eq!(AttemptPhase::parse(phase.as_str()), Some(phase));
    }
    assert_eq!(AttemptPhase::parse("done"), None);
    assert_eq!(AttemptPhase::Queued.as_str(), "queued");
}

#[test]
fn every_stale_reason_has_its_error_text() {
    assert_eq!(
        StaleReason::HeartbeatLost.as_error(),
        "stale_uploading_lease: attempt owner stopped heartbeating (process gone)"
    );
    assert_eq!(
        StaleReason::PreprocessTimeout.as_error(),
        "preprocess_timeout: local normalization/repair exceeded its size-derived limit"
    );
    assert_eq!(
        StaleReason::QueueTimeout.as_error(),
        "queue_timeout: attempt waited for the global upload permit past its limit"
    );
    assert_eq!(
        StaleReason::NoNetworkProgress.as_error(),
        "stale_uploading_lease: no acknowledged upload chunk within the transfer deadline"
    );
    assert!(!StaleReason::HeartbeatLost.blames_upload_line());
}

#[test]
fn the_history_keeps_the_newest_attempts_and_their_beginning() {
    let start = now();
    let mut records: Vec<AttemptRecord> = Vec::new();
    for i in 0..25i64 {
        open_attempt_history(&mut records, i + 1, &format!("token-{i}"), "bda2", "config", start);
    }
    assert_eq!(records.len(), ATTEMPT_HISTORY_PER_SEGMENT);
    assert_eq!(records[0].id, 6);
    assert_eq!(records[19].attempt_token, "token-24");
    assert_eq!(records[19].phase_reached, "preprocessing");

    let later = Timestamp::from_nanos(start.nanos() + 1).unwrap();
    open_attempt_history(&mut records, 26, "token-24", "tx", "auto", later);
    assert_eq!(records.len(), ATTEMPT_HISTORY_PER_SEGMENT);
    assert_eq!(records[19].started_at, start);
    assert_eq!(records[19].line_key, "tx");

    assert!(note_attempt_phase(&mut records, "token-24", AttemptPhase::Transferring));
    assert!(!note_attempt_phase(&mut records, "token-0", AttemptPhase::Transferring));
    assert_eq!(records[19].phase_reached, "transferring");

    assert!(close_attempt_history(
        &mut records,
        "token-24",
        "failed",
        7,
        Some(3),
        Some("timeout".to_string()),
        later
    ));
    assert_eq!(records[19].ended_at, Some(later));
    assert_eq!(records[19].outcome.as_deref(), Some("failed"));
    assert_eq!(records[19].uploaded_bytes, Some(7));
    assert!(!close_attempt_history(&mut records, "token-24", "again", 9, None, None, later));
    assert_eq!(records[19].outcome.as_deref(), Some("failed"));
}

#[test]
fn every_attempt_is_given_up_in_the_end() {
    let now = now();
    let phases = [
        (None, 300),
        (Some(AttemptPhase::Preprocessing), 1200),
        (Some(AttemptPhase::Queued), 7200),
        (Some(AttemptPhase::Transferring), 300),
    ];
    for (phase, secs) in phases {
        let held = LeaseSnapshot { phase, ..base(ago(now, secs - 1)) };
        assert_eq!(classify_stale_lease(&held, now), None);
        let given_up = LeaseSnapshot { phase, ..base(ago(now, secs)) };
        assert!(classify_stale_lease(&given_up, now).is_some());
    }
}

#[test]
fn the_furthest_phase_stays() {
    let start = now();
    let mut records: Vec<AttemptRecord> = Vec::new();
    open_attempt_history(&mut records, 1, "token", "bda2", "config", start);
    assert!(note_attempt_phase(&mut records, "token", AttemptPhase::Transferring));
    assert!(note_attempt_phase(&mut records, "token", AttemptPhase::Queued));
    assert_eq!(records[0].phase_reached, "transferring");
    records[0].phase_reached = "unheard of".to_string();
    assert!(note_attempt_phase(&mut records, "token", AttemptPhase::Preprocessing));
    assert_eq!(records[0].phase_reached, "preprocessing");
    assert!(note_attempt_phase(&mut records, "token", AttemptPhase::Queued));
    assert_eq!(records[0].phase_reached, "queued");
}

#[test]
fn the_history_holds_no_credentials() {
    let start = now();
    let mut records: Vec<AttemptRecord> = Vec::new();
    open_attempt_history(&mut records, 1, "one", "bda2", "config", start);
    open_attempt_history(&mut records, 2, "two", "bda2", "config", start);
    assert!(close_attempt_history(
        &mut records,
        "one",
        "failed",
        0,
        None,
        Some("PUT https://up.example/part?sig=1 failed, token=abc".to_string()),
        start
    ));
    assert_eq!(
        records[0].error.as_deref(),
        Some("PUT https://up.example/part failed, token=[REDACTED]")
    );
    assert!(store_end(&mut records, "two", "failed", 0, None, Some("shown".to_string()), start));
    assert_eq!(records[1].error.as_deref(), Some("shown"));
}
