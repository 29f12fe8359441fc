use biliup_common::recovery_eligibility::RecoveryEligibility;
use biliup_common::recovery_scheduler::{
    group_due_rows, group_key, recover_due_segments, ActiveGroups, ClaimResult, DueRow,
    RecoveryScanResult,
};

#[test]
fn a_group_is_driven_by_one_run_at_a_time() {
    let mut groups = ActiveGroups::new();
    let guard = groups
        .try_claim_group(4242)
        .expect("first run owns the group");
    assert!(
        groups.try_claim_group(4242).is_none(),
        "a second run must not reorder a session that is already recovering"
    );
    groups.release(guard);
    assert!(
        groups.try_claim_group(4242).is_some(),
        "the group must be released once its run ends"
    );
}

#[test]
fn unbound_rows_never_collide_with_session_groups() {
    assert_eq!(group_key(Some(7), 7), 7);
    assert_eq!(group_key(None, 7), -7);
    assert_ne!(group_key(None, 7), group_key(Some(7), 99));
}

#[test]
fn rows_are_grouped_by_session_in_their_order() {
    let row = |id: i64, session: Option<i64>| DueRow {
        id,
        upload_session_id: session,
        segment_order: 0,
    };
    let groups = group_due_rows(&vec![
        row(5, None),
        row(1, Some(7)),
        row(2, Some(8)),
        row(3, Some(7)),
    ]);
    let found: Vec<(i64, Vec<i64>)> = groups.into_iter().map(|g| (g.key, g.rows)).collect();
    assert_eq!(found, vec![(-5, vec![5]), (7, vec![1, 3]), (8, vec![2])]);
}

#[test]
fn claims_are_started_or_skipped_with_their_reason() {
    let mut result = RecoveryScanResult::new();
    result.record_busy(9);
    assert!(recover_due_segments(
        &mut result,
        &vec![1, 2, 3],
        &vec![
            ClaimResult::Rejected(RecoveryEligibility::SourceMissing),
            ClaimResult::Claimed,
            ClaimResult::Failed,
        ],
    ));
    assert_eq!(result.started, vec![2]);
    assert_eq!(
        result.skipped,
        vec![
            (1, "source_missing".to_string()),
            (3, "claim_failed".to_string())
        ]
    );
    assert_eq!(result.busy_sessions, vec![9]);
    assert!(!recover_due_segments(
        &mut result,
        &vec![4],
        &vec![ClaimResult::Rejected(RecoveryEligibility::Conflict)],
    ));
    assert_eq!(result.skipped[2], (4, "conflict".to_string()));
}
