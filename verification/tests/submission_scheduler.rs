use biliup_common::submission_scheduler::{
    due_submission_session_ids, includes_recent_blocked, scan_due_submissions,
    SessionSubmissionOutcome, SubmissionRow, SubmissionTrigger, BLOCKED_RECHECK_SECS,
    MAX_SCAN_CANDIDATES,
};
use biliup_common::time::{Span, Timestamp};

fn noon() -> Timestamp {
    Timestamp::from_secs(1_788_091_200).unwrap()
}

fn later(secs: u64) -> Timestamp {
    noon().plus(&Span::from_secs(secs))
}

fn session(
    id: i64,
    status: &str,
    requested_at: Option<Timestamp>,
    next_at: Option<Timestamp>,
    submit_state: Option<&str>,
    claim: Option<&str>,
) -> SubmissionRow {
    SubmissionRow {
        id,
        status: status.to_string(),
        submit_requested_at: requested_at,
        submit_claim_token: claim.map(str::to_string),
        next_submit_at: next_at,
        submit_state: submit_state.map(str::to_string),
        updated_at: noon(),
    }
}

#[test]
fn fake_clock_selects_only_safe_due_sessions() {
    let now = noon();
    let rows = vec![
        session(1, "uploading", Some(now), None, None, None),
        session(2, "uploading", Some(now), Some(later(1)), Some("failed"), None),
        session(3, "uploading", None, None, None, None),
        session(4, "finalized", Some(now), None, None, None),
        session(5, "uploading", Some(now), None, Some("submitting"), Some("held")),
        session(6, "uploading", Some(now), None, Some("ok_no_aid"), None),
        session(7, "uploading", Some(now), None, Some("submitting"), None),
        session(8, "uploading", Some(now), None, Some("blocked_missing_segments"), None),
    ];
    assert_eq!(due_submission_session_ids(&rows, now, false), vec![1]);
    assert_eq!(due_submission_session_ids(&rows, now, true), vec![1, 8]);
    assert_eq!(due_submission_session_ids(&rows, later(1), false), vec![1, 2]);
}

#[test]
fn a_blocked_session_is_looked_at_again_after_a_while() {
    let rows =
        vec![session(8, "uploading", Some(noon()), None, Some("blocked_missing_segments"), None)];
    assert!(due_submission_session_ids(&rows, later(BLOCKED_RECHECK_SECS - 1), false).is_empty());
    assert_eq!(
        due_submission_session_ids(&rows, later(BLOCKED_RECHECK_SECS), false),
        vec![8]
    );
}

#[test]
fn a_scan_takes_no_more_than_its_share() {
    let rows: Vec<SubmissionRow> = (0..MAX_SCAN_CANDIDATES as i64 + 5)
        .map(|id| session(1_000 - id, "uploading", Some(noon()), None, None, None))
        .collect();
    let ids = due_submission_session_ids(&rows, noon(), false);
    assert_eq!(ids.len(), MAX_SCAN_CANDIDATES);
    assert!(ids.windows(2).all(|pair| pair[0] < pair[1]));
}

#[test]
fn only_the_first_scan_looks_at_recent_blocks() {
    assert!(includes_recent_blocked(SubmissionTrigger::StartupScan));
    assert!(!includes_recent_blocked(SubmissionTrigger::PeriodicScan));
}

#[test]
fn startup_scan_reconciles_a_missed_blocked_event_without_network() {
    let rows = vec![session(10, "uploading", Some(noon()), None, None, None)];
    let ids = due_submission_session_ids(
        &rows,
        noon(),
        includes_recent_blocked(SubmissionTrigger::StartupScan),
    );
    let summary =
        scan_due_submissions(ids.len(), &vec![(ids[0], SessionSubmissionOutcome::Blocked)]);
    assert_eq!(summary.candidates, 1);
    assert_eq!(summary.blocked, vec![10]);
}

#[test]
fn every_outcome_has_its_list() {
    let summary = scan_due_submissions(
        9,
        &vec![
            (1, SessionSubmissionOutcome::Blocked),
            (2, SessionSubmissionOutcome::Submitted),
            (3, SessionSubmissionOutcome::RetryScheduled),
            (4, SessionSubmissionOutcome::ClaimedElsewhere),
            (5, SessionSubmissionOutcome::ManualInspectionRequired),
            (6, SessionSubmissionOutcome::NotRequested),
            (7, SessionSubmissionOutcome::NotDue),
            (8, SessionSubmissionOutcome::Finalized),
            (9, SessionSubmissionOutcome::Failed),
        ],
    );
    assert_eq!(summary.blocked, vec![1]);
    assert_eq!(summary.submitted, vec![2]);
    assert_eq!(summary.retry_scheduled, vec![3]);
    assert_eq!(summary.claimed_elsewhere, vec![4]);
    assert_eq!(summary.manual_inspection, vec![5]);
    assert_eq!(summary.skipped, vec![6, 7, 8]);
    assert_eq!(summary.failed, vec![9]);
}
