use biliup_common::segment_enrollment::ledger::{EnrollmentLedger, AWAITING_UPLOAD};
use biliup_common::segment_enrollment::{
    after_enrollment_failure, baseline_count, choose_session, enrolled_order, existing_enrollment,
    fresh_manifest_name, is_manifest, manifest_name, new_enrollment, normalize_segment_path,
    read_snapshot, stored_total_bytes, EnrollStep, EnrollmentRequest, EnrollmentStore, OutboxHealth,
    PathComponent, SessionChoice, SessionRow, DEFAULT_OUTBOX_DIRECTORY,
};
use biliup_common::time::{Span, Timestamp};

fn at(second: i64) -> Timestamp {
    Timestamp::from_secs(second).unwrap()
}

fn parts(path: &str) -> Vec<PathComponent> {
    let mut found = Vec::new();
    if path.starts_with('/') {
        found.push(PathComponent::RootDir);
    }
    for name in path.split('/').filter(|name| !name.is_empty()) {
        found.push(match name {
            "." => PathComponent::CurDir,
            ".." => PathComponent::ParentDir,
            other => PathComponent::Normal(other.to_string()),
        });
    }
    found
}

#[test]
fn a_segment_is_known_by_one_path() {
    let here = parts("/work");
    assert_eq!(normalize_segment_path(&here, &parts("a/./b.flv"), false), parts("/work/a/b.flv"));
    assert_eq!(normalize_segment_path(&here, &parts("../b.flv"), false), parts("/b.flv"));
    assert_eq!(normalize_segment_path(&here, &parts("/x/../y"), true), parts("/y"));
    assert_eq!(normalize_segment_path(&here, &parts("/../../y"), true), parts("/y"));
}

fn request() -> EnrollmentRequest {
    EnrollmentRequest {
        live_streamer_id: 1,
        streamer_info_id: 2,
        file_path: "a.flv".to_string(),
        normalized_file_path: "/work/a.flv".to_string(),
        danmaku_file_path: None,
        total_bytes: 9,
        now: at(10_000),
        recovery_window_minutes: 10,
        segment_id: Some("seg".to_string()),
    }
}

fn session(id: i64, info: i64, finalized: bool, updated: i64) -> SessionRow {
    SessionRow {
        id,
        live_streamer_id: 1,
        streamer_info_id: info,
        finalized,
        updated_at: at(updated),
    }
}

#[test]
fn the_newest_open_session_of_the_broadcast_is_used() {
    let rows = vec![session(5, 2, false, 1), session(6, 2, false, 2), session(7, 3, false, 9_999)];
    assert_eq!(choose_session(&rows, &request()), SessionChoice::Reuse { id: 6 });
}

#[test]
fn a_recent_session_of_the_room_is_adopted() {
    let rows = vec![session(5, 2, true, 9_999), session(7, 3, false, 9_400)];
    assert_eq!(choose_session(&rows, &request()), SessionChoice::Adopt { id: 7 });
    let old = vec![session(7, 3, false, 9_399)];
    assert_eq!(choose_session(&old, &request()), SessionChoice::Create);
    assert_eq!(choose_session(&Vec::new(), &request()), SessionChoice::Create);
}

#[test]
fn the_database_is_asked_three_more_times() {
    assert!(matches!(after_enrollment_failure(1), EnrollStep::RetryAfter(_)));
    assert!(matches!(after_enrollment_failure(3), EnrollStep::RetryAfter(_)));
    assert!(matches!(after_enrollment_failure(4), EnrollStep::Outbox));
    let EnrollStep::RetryAfter(first) = after_enrollment_failure(1) else {
        panic!("the first failure is retried");
    };
    let EnrollStep::RetryAfter(second) = after_enrollment_failure(2) else {
        panic!("the second failure is retried");
    };
    assert!(second.at_least(&first));
    assert!(!first.is_zero());
}

#[test]
fn a_new_segment_comes_after_all_others() {
    assert_eq!(enrolled_order(None, 0), 0);
    assert_eq!(enrolled_order(Some(4), 0), 5);
    assert_eq!(enrolled_order(Some(1), 7), 7);
    assert_eq!(baseline_count(None), 0);
    assert_eq!(baseline_count(Some(3)), 3);
    assert_eq!(stored_total_bytes(u64::MAX), i64::MAX);
    assert_eq!(stored_total_bytes(5), 5);
}

#[test]
fn what_is_there_already_is_told_as_it_is() {
    let again = existing_enrollment(3, 4, 5, Some(77), None, &request());
    assert!(again.duplicate);
    assert_eq!(again.total_bytes, 77);
    assert_eq!(again.segment_id, None);
    let kept = existing_enrollment(3, 4, 5, None, Some("held".to_string()), &request());
    assert_eq!(kept.total_bytes, 9);
    assert_eq!(kept.segment_id.as_deref(), Some("held"));
    let fresh = new_enrollment(3, 4, 5, &request());
    assert!(!fresh.duplicate);
    assert_eq!(fresh.segment_id.as_deref(), Some("seg"));
    assert_eq!(fresh.normalized_file_path, "/work/a.flv");
    assert_eq!((fresh.missing_id, fresh.upload_session_id, fresh.segment_order), (3, 4, 5));
}

#[test]
fn the_outbox_has_names_of_its_own() {
    assert_eq!(
        manifest_name(at(2), 255),
        "enrollment-2000-000000000000000000000000000000ff.json"
    );
    assert_eq!(
        manifest_name(Timestamp::from_nanos(-1).unwrap(), 0),
        "enrollment--1-00000000000000000000000000000000.json"
    );
    let first = fresh_manifest_name(at(2));
    assert!(first.starts_with("enrollment-2000-"));
    assert_ne!(first, fresh_manifest_name(at(2)));
    assert!(is_manifest(Some("json")));
    assert!(!is_manifest(Some("tmp")));
    assert!(!is_manifest(None));
    assert_eq!(EnrollmentStore::production().outbox_directory(), DEFAULT_OUTBOX_DIRECTORY);
    assert_eq!(EnrollmentStore::new("x".to_string()).outbox_directory(), "x");
}

#[test]
fn the_outbox_is_as_old_as_its_oldest_file() {
    let mut health = OutboxHealth::default();
    health.record(Some(at(20)));
    health.record(None);
    health.record(Some(at(10)));
    health.record(Some(at(30)));
    assert_eq!(health.count, 4);
    assert_eq!(health.oldest, Some(at(10)));
    assert_eq!(at(20).saturating_since(&at(10)), Span::from_secs(10));
}

fn ledger(sessions: Vec<SessionRow>) -> EnrollmentLedger {
    let snapshots = sessions.iter().map(|_| None).collect();
    EnrollmentLedger { rows: vec![], sessions, snapshots }
}

fn request_for(path: &str) -> EnrollmentRequest {
    EnrollmentRequest { normalized_file_path: path.to_string(), ..request() }
}

#[test]
fn a_new_segment_gets_a_row_in_a_new_session() {
    let mut ledger = ledger(vec![]);
    let enrolled = ledger.enroll_in_database(40, 7, &request());
    assert_eq!(enrolled, new_enrollment(40, 7, 0, &request()));
    assert_eq!(ledger.sessions.len(), 1);
    assert_eq!(ledger.sessions[0].id, 7);
    assert_eq!(ledger.sessions[0].streamer_info_id, 2);
    assert!(!ledger.sessions[0].finalized);
    assert_eq!(ledger.snapshots, [Some("[]".to_string())]);
    let row = &ledger.rows[0];
    assert_eq!((row.id, row.upload_session_id, row.segment_order), (40, Some(7), 0));
    assert_eq!(row.status, "pending");
    assert_eq!(row.last_error.as_deref(), Some(AWAITING_UPLOAD));
    assert_eq!(row.normalized_file_path.as_deref(), Some("/work/a.flv"));
    assert_eq!((row.lifecycle_version, row.total_bytes), (2, Some(9)));
    assert_eq!(row.next_retry_at, at(10_000));
}

#[test]
fn a_file_that_is_enrolled_again_is_a_duplicate() {
    let mut ledger = ledger(vec![session(7, 2, false, 9_999)]);
    let first = ledger.enroll_in_database(40, 8, &request());
    let again = EnrollmentRequest { total_bytes: 77, ..request() };
    let second = ledger.enroll_in_database(41, 9, &again);
    assert!(second.duplicate);
    assert_eq!(second.missing_id, first.missing_id);
    assert_eq!(second.upload_session_id, 7);
    assert_eq!(second.segment_order, first.segment_order);
    assert_eq!(second.total_bytes, 9);
    assert_eq!(ledger.rows.len(), 1);
    assert_eq!(ledger.sessions.len(), 1);
}

#[test]
fn places_follow_the_rows_and_the_published_parts() {
    let mut ledger = ledger(vec![session(7, 2, false, 9_999)]);
    ledger.snapshots = vec![Some(r#"[{"title":"a"}, 1, null]"#.to_string())];
    let orders: Vec<i64> = ["/work/a.flv", "/work/b.flv", "/work/c.flv"]
        .iter()
        .zip(40..)
        .map(|(path, id)| ledger.enroll_in_database(id, 8, &request_for(path)).segment_order)
        .collect();
    assert_eq!(orders, [3, 4, 5]);
}

#[test]
fn an_adopted_session_goes_on_with_the_broadcast() {
    let mut ledger = ledger(vec![session(5, 2, true, 9_999), session(7, 3, false, 9_400)]);
    assert_eq!(ledger.find_or_create_session(8, &request()), 1);
    assert_eq!(ledger.sessions[1].streamer_info_id, 2);
    assert_eq!(ledger.sessions[1].updated_at, at(10_000));
    assert_eq!(ledger.sessions[0].updated_at, at(9_999));
    assert_eq!(ledger.find_or_create_session(8, &request()), 1);
    assert_eq!(ledger.sessions.len(), 2);
}

#[test]
fn a_snapshot_tells_how_many_parts_were_published() {
    let told = |text: &str| read_snapshot(&Some(text.to_string()));
    assert_eq!(told("[]"), Some(0));
    assert_eq!(told(" [ {\"filename\": \"[,]\"} , [1, 2] ]\n"), Some(2));
    assert_eq!(told("{}"), None);
    assert_eq!(told("[1,]"), None);
    assert_eq!(told(""), None);
    assert_eq!(read_snapshot(&None), None);

    for (snapshot, place) in [(Some("[1, 2]"), 2), (Some("[1, 2"), 0), (None, 0)] {
        let mut ledger = ledger(vec![session(7, 2, false, 9_999)]);
        ledger.snapshots = vec![snapshot.map(str::to_string)];
        assert_eq!(ledger.enroll_in_database(40, 8, &request()).segment_order, place);
    }
    let mut counted = ledger(vec![session(7, 2, false, 9_999)]);
    let placed = counted.place_segment(40, 0, Some(5), &request());
    assert_eq!(placed, new_enrollment(40, 7, 5, &request()));
    assert_eq!(counted.rows[0].segment_order, 5);
}
