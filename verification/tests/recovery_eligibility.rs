use biliup_common::download::segments::{InvalidMediaReason, MediaValidation};
use biliup_common::missing_segment::UploadMissingSegment;
use biliup_common::recovery_eligibility::{
    assign_uid, audit_page, audit_uid, check_recovery_eligibility, choose_uid,
    assign_fresh_uid, audit_row, finalized_session_for_streamer_info, mark_source_missing, record_recovery_audit,
    replay_recovery_audits, RecoveryEligibility, UidStep,
};
use biliup_common::recovery_scheduler::{due_rows, DueRow};
use biliup_common::segment_enrollment::SessionRow;
use biliup_common::time::Timestamp;

fn at(second: i64) -> Timestamp {
    Timestamp::from_secs(second).unwrap()
}

fn row(id: i64, status: &str) -> UploadMissingSegment {
    UploadMissingSegment {
        id,
        live_streamer_id: 1,
        streamer_info_id: 2,
        upload_session_id: Some(10),
        aid: None,
        file_path: "a.flv".to_string(),
        danmaku_file_path: None,
        segment_order: 0,
        status: status.to_string(),
        attempts: 0,
        line_index: 0,
        next_retry_at: at(100),
        last_error: None,
        created_at: at(1),
        updated_at: at(1),
        normalized_file_path: Some("/work/a.flv".to_string()),
        lifecycle_version: 2,
        video_json: None,
        total_bytes: None,
        uploaded_bytes: 0,
        current_line: None,
        upload_started_at: None,
        last_progress_at: None,
        attempt_token: None,
        attempt_phase: None,
        phase_started_at: None,
        last_heartbeat_at: None,
        line_source: None,
        last_chunk_index: None,
        last_chunk_started_at: None,
        last_chunk_error: None,
    }
}

fn session(id: i64, finalized: bool) -> SessionRow {
    SessionRow {
        id,
        live_streamer_id: 1,
        streamer_info_id: 2,
        finalized,
        updated_at: at(1),
    }
}

fn check(row: &UploadMissingSegment, sessions: Vec<SessionRow>) -> RecoveryEligibility {
    check_recovery_eligibility(row, &sessions, &Vec::new(), true, None, at(100))
}

#[test]
fn a_due_row_with_its_file_is_recovered() {
    assert_eq!(check(&row(1, "pending"), vec![session(10, false)]), RecoveryEligibility::Eligible);
    assert_eq!(check(&row(1, "failed"), vec![]), RecoveryEligibility::Eligible);
}

#[test]
fn every_objection_has_its_cause() {
    assert_eq!(check(&row(1, "succeeded"), vec![]), RecoveryEligibility::AlreadySucceeded);
    assert_eq!(
        check(&row(1, "pending"), vec![session(10, true)]),
        RecoveryEligibility::FinalizedRejected
    );
    let mut legacy = row(1, "pending");
    legacy.lifecycle_version = 1;
    assert_eq!(
        check(&legacy, vec![session(10, true)]),
        RecoveryEligibility::LegacyFinalizedEdit
    );
    let mut unbound = row(1, "pending");
    unbound.upload_session_id = None;
    assert_eq!(
        check(&unbound, vec![session(11, true)]),
        RecoveryEligibility::FinalizedRejected
    );
    assert_eq!(
        check(&unbound, vec![session(11, true), session(12, false)]),
        RecoveryEligibility::Eligible
    );
    let mut running = row(1, "uploading");
    running.attempt_token = Some("t".to_string());
    assert_eq!(check(&running, vec![]), RecoveryEligibility::AlreadyRunning);
    let mut early = row(1, "pending");
    early.next_retry_at = at(101);
    assert_eq!(check(&early, vec![]), RecoveryEligibility::Conflict);
    assert_eq!(
        check_recovery_eligibility(
            &row(1, "pending"),
            &vec![],
            &vec![row(2, "succeeded")],
            true,
            None,
            at(100)
        ),
        RecoveryEligibility::Conflict
    );
    assert_eq!(
        check_recovery_eligibility(&row(1, "pending"), &vec![], &vec![], false, None, at(100)),
        RecoveryEligibility::SourceMissing
    );
    let bad = MediaValidation::Invalid { reason: InvalidMediaReason::Empty };
    assert_eq!(
        check_recovery_eligibility(
            &row(1, "pending"),
            &vec![],
            &vec![],
            true,
            Some(&bad),
            at(100)
        ),
        RecoveryEligibility::InvalidMedia
    );
}

#[test]
fn the_codes_are_stable() {
    let codes = [
        (RecoveryEligibility::Eligible, "eligible"),
        (RecoveryEligibility::AlreadySucceeded, "already_succeeded"),
        (RecoveryEligibility::AlreadyRunning, "already_running"),
        (RecoveryEligibility::SourceMissing, "source_missing"),
        (RecoveryEligibility::FinalizedRejected, "finalized_rejected"),
        (RecoveryEligibility::LegacyFinalizedEdit, "legacy_finalized_edit"),
        (RecoveryEligibility::InvalidMedia, "invalid_media"),
        (RecoveryEligibility::Conflict, "conflict"),
    ];
    for (answer, code) in codes {
        assert_eq!(answer.code(), code);
    }
}

#[test]
fn a_vanished_source_ends_the_row() {
    let mut lost = row(1, "failed");
    assert!(mark_source_missing(&mut lost, "gone", at(5)));
    assert_eq!(lost.status, "source_missing");
    assert_eq!(lost.last_error.as_deref(), Some("gone"));
    assert!(!mark_source_missing(&mut lost, "again", at(6)));
    assert_eq!(
        check_recovery_eligibility(&lost, &vec![], &vec![], true, None, at(200)),
        RecoveryEligibility::Conflict
    );
}

#[test]
fn a_finalized_broadcast_is_found_by_its_newest_session() {
    let mut newest = session(3, true);
    newest.updated_at = at(2);
    let sessions = vec![newest, session(9, true), session(12, false)];
    assert_eq!(finalized_session_for_streamer_info(&sessions, 1, 2), Some(3));
    assert_eq!(finalized_session_for_streamer_info(&vec![], 1, 2), None);
    assert_eq!(
        finalized_session_for_streamer_info(&vec![session(3, true)], 1, 2),
        Some(3)
    );
}

#[test]
fn durable_audit_replay_keeps_one_event_per_business_uid() {
    let mut first = record_recovery_audit(1, 1, 2, "a.flv", "gone", at(5));
    let second = record_recovery_audit(2, 1, 2, "a.flv", "gone", at(5));
    let UidStep::Use(uid) = audit_uid(&first) else {
        panic!("a fresh row has an identifier");
    };
    assert_eq!(audit_uid(&first), UidStep::Use(uid));
    assert_ne!(audit_uid(&first), audit_uid(&second));
    assert_eq!(first.event_uid.as_deref().map(str::len), Some(36));
    assert!(!assign_uid(&mut first, "other"));

    first.event_uid = None;
    assert_eq!(audit_uid(&first), UidStep::Assign);
    assert!(assign_uid(&mut first, "00000000-0000-4000-8000-0000000000ff"));
    assert_eq!(audit_uid(&first), UidStep::Use(0x0000_0000_0000_4000_8000_0000_0000_00ff));
    assert_eq!(choose_uid(&Some("x".to_string()), None), UidStep::Assign);
    assert_eq!(choose_uid(&Some("x".to_string()), Some(7)), UidStep::Use(7));

    let mut third = audit_row(3, 1, 2, "a.flv", "gone", at(5), "odd".to_string());
    assert_eq!((third.id, third.event_uid.as_deref()), (3, Some("odd")));
    assert!(!assign_fresh_uid(&mut third));
    assert_eq!(audit_uid(&third), UidStep::Assign);
    third.event_uid = None;
    assert!(assign_fresh_uid(&mut third));
    assert!(matches!(audit_uid(&third), UidStep::Use(_)));

    let rows = vec![second, first];
    assert_eq!(audit_page(&rows, 0, 10), vec![1, 2]);
    assert_eq!(audit_page(&rows, 1, 10), vec![2]);
    assert_eq!(audit_page(&rows, 0, 1), vec![1]);
    let replay = replay_recovery_audits(0, &vec![1, 2], &vec![true, false]);
    assert_eq!((replay.last_id, replay.rows, replay.accepted), (2, 2, 1));
    let nothing = replay_recovery_audits(7, &vec![], &vec![]);
    assert_eq!((nothing.last_id, nothing.rows, nothing.accepted), (7, 0, 0));
}

#[test]
fn due_rows_come_by_session_and_place() {
    let mut unbound = row(5, "failed");
    unbound.upload_session_id = None;
    let mut second = row(4, "pending");
    second.segment_order = 1;
    let mut early = row(6, "pending");
    early.next_retry_at = at(101);
    let mut closed = row(7, "pending");
    closed.upload_session_id = Some(11);
    let rows = vec![second, unbound, row(9, "pending"), early, closed, row(8, "uploading")];
    let sessions = vec![session(10, false), session(11, true)];
    let due = |id: i64, upload_session_id: Option<i64>, segment_order: i64| DueRow {
        id,
        upload_session_id,
        segment_order,
    };
    assert_eq!(
        due_rows(&rows, &sessions, None, at(100)),
        vec![due(5, None, 0), due(9, Some(10), 0), due(4, Some(10), 1)]
    );
    assert_eq!(
        due_rows(&rows, &sessions, Some(10), at(100)),
        vec![due(9, Some(10), 0), due(4, Some(10), 1)]
    );
}

#[test]
fn pages_of_the_audit_leave_no_gap() {
    let rows: Vec<_> = [9, 2, 7, 4, 5]
        .into_iter()
        .map(|id| record_recovery_audit(id, 1, 2, "a.flv", "gone", at(5)))
        .collect();
    let mut seen = Vec::new();
    let mut after = 0;
    loop {
        let page = audit_page(&rows, after, 2);
        let accepted = vec![true; page.len()];
        let replay = replay_recovery_audits(after, &page, &accepted);
        if page.is_empty() {
            assert_eq!(replay.last_id, 9);
            break;
        }
        after = replay.last_id;
        seen.extend(page);
    }
    assert_eq!(seen, vec![2, 4, 5, 7, 9]);
    assert_eq!(audit_page(&rows, 0, 0), vec![2]);
}
