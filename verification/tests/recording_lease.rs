use biliup_common::recording_lease::notice::{
    claim, claim_afresh, claimable_ids, format_shanghai, is_configured, mark_not_configured,
    notification_message, notification_retry_delay, record_failure, record_sent,
    scan_recording_lease_notifications, NoticeEvent, NoticeScan, NoticeStep,
};
use biliup_common::recording_lease::replacement::{
    after_write, cancel, cancel_lease, new_lease, replace_lease, supersede, write_failure,
    WriteFailure,
};
use biliup_common::recording_lease::{
    admission_decision, admit_detected_session, apply_initial_state, complete_grace_session,
    due_action, due_lease_ids, scan_due_recording_leases, start_grace,
    transition_to_expired_paused, ActiveRecordingSnapshot, AdmissionDecision, DueAction,
    DueOutcome, LeaseError, RecordingLease, RecordingLeaseState, RoomState,
};
use biliup_common::time::{Span, Timestamp};

fn at(second: i64) -> Timestamp {
    Timestamp::from_secs(second).unwrap()
}

fn snapshot(started: i64) -> ActiveRecordingSnapshot {
    ActiveRecordingSnapshot {
        streamer_info_id: 7,
        live_session_key: Some("session-7".to_string()),
        recording_started_at: at(started),
    }
}

fn lease(id: i64, expires: i64) -> RecordingLease {
    RecordingLease {
        id,
        live_streamer_id: 1,
        expires_at: at(expires),
        customer_note: "需求甲".to_string(),
        state: "scheduled".to_string(),
        grace_streamer_info_id: None,
        grace_live_session_key: None,
        pause_owned_by_lease: false,
        effective_paused_at: None,
        notification_status: "none".to_string(),
        notification_claim_token: None,
        notification_claimed_at: None,
        notification_attempts: 0,
        next_notification_at: None,
        last_notification_error: None,
        notified_at: None,
        created_at: at(1),
        updated_at: at(1),
    }
}

fn is_current(lease: &RecordingLease) -> bool {
    ["scheduled", "grace_current_session", "expired_paused"].contains(&lease.state.as_str())
}

fn current(leases: &[RecordingLease]) -> Option<&RecordingLease> {
    leases.iter().filter(|lease| is_current(lease)).max_by_key(|lease| lease.id)
}

fn replace(
    leases: &mut Vec<RecordingLease>,
    expires: i64,
    note: &str,
    expected: Option<i64>,
    now: i64,
) -> Result<i64, LeaseError> {
    let plan = replace_lease(current(leases), expected)?;
    if let Some(id) = plan.supersedes {
        let held = leases.iter_mut().find(|lease| lease.id == id).unwrap();
        assert!(supersede(held, at(now)));
    }
    let made = new_lease(1, at(expires), note, at(now));
    let id = leases.len() as i64 + 1;
    let mut stored = lease(id, expires);
    stored.live_streamer_id = made.live_streamer_id;
    stored.customer_note = made.customer_note;
    stored.state = made.state;
    stored.created_at = made.created_at;
    stored.updated_at = made.updated_at;
    leases.push(stored);
    Ok(id)
}

fn held(leases: &mut [RecordingLease], id: i64) -> &mut RecordingLease {
    leases.iter_mut().find(|lease| lease.id == id).unwrap()
}

#[test]
fn expiry_boundary_is_inclusive() {
    assert_eq!(due_action(at(10), at(9), None), DueAction::NotDue);
    assert_eq!(due_action(at(10), at(10), None), DueAction::Pause);
    assert_eq!(
        due_action(at(10), at(10), Some(&snapshot(10))),
        DueAction::GraceCurrentSession
    );
    assert_eq!(due_action(at(10), at(11), Some(&snapshot(11))), DueAction::Pause);
}

#[test]
fn replace_and_cancel_keep_a_single_active_lease() {
    let mut leases = Vec::new();
    let first = replace(&mut leases, 100, "需求甲", None, 1).ok().unwrap();
    let second = replace(&mut leases, 200, "需求乙", Some(first), 2).ok().unwrap();
    assert_ne!(first, second);
    assert_eq!(current(&leases).unwrap().id, second);
    assert_eq!(leases.iter().filter(|lease| is_current(lease)).count(), 1);
    let outcome = cancel_lease(Some(held(&mut leases, second))).ok().unwrap();
    assert!(!outcome.already_cancelled);
    assert!(cancel(held(&mut leases, second), at(3)));
    assert!(current(&leases).is_none());
    let again = cancel_lease(Some(held(&mut leases, second))).ok().unwrap();
    assert!(again.already_cancelled);
}

#[test]
fn stale_expected_id_cannot_replace_newer_lease() {
    let mut leases = Vec::new();
    let first = replace(&mut leases, 100, "需求甲", None, 1).ok().unwrap();
    let second = replace(&mut leases, 200, "需求乙", Some(first), 2).ok().unwrap();
    assert!(replace(&mut leases, 300, "旧页面", Some(first), 3).is_err());
    assert_eq!(current(&leases).unwrap().id, second);
}

#[test]
fn concurrent_creates_leave_exactly_one_active_lease() {
    let mut leases = Vec::new();
    assert!(replace(&mut leases, 100, "需求甲", None, 1).is_ok());
    assert!(replace(&mut leases, 200, "需求乙", None, 1).is_err());
    assert_eq!(leases.iter().filter(|lease| is_current(lease)).count(), 1);
    let busy = write_failure(true, "UNIQUE constraint failed");
    assert!(matches!(busy, WriteFailure::Concurrent));
    assert!(matches!(after_write(Err(busy)), Err(Some(LeaseError::ChangedElsewhere))));
    assert!(matches!(after_write(Ok(0)), Err(Some(LeaseError::ChangedElsewhere))));
    assert!(after_write(Ok(1)).is_ok());
    let other = write_failure(false, "disk full");
    assert!(matches!(other, WriteFailure::Other));
    assert!(matches!(after_write(Err(other)), Err(None)));
}

#[test]
fn a_lease_that_is_gone_cannot_be_cancelled() {
    assert!(matches!(cancel_lease(None), Err(LeaseError::NotFound)));
    let mut old = lease(1, 100);
    assert!(supersede(&mut old, at(2)));
    assert!(matches!(cancel_lease(Some(&old)), Err(LeaseError::Replaced)));
    assert!(!supersede(&mut old, at(3)));
}

#[test]
fn a_pause_that_the_lease_owns_ends_with_it() {
    let mut paused = lease(1, 100);
    assert!(transition_to_expired_paused(&mut paused, "scheduled", true, at(101)));
    assert!(replace_lease(Some(&paused), Some(1)).ok().unwrap().resume_lease_owned_pause);
    assert!(cancel_lease(Some(&paused)).ok().unwrap().resume_lease_owned_pause);
    let mut manual = lease(2, 100);
    assert!(transition_to_expired_paused(&mut manual, "scheduled", false, at(101)));
    assert!(!cancel_lease(Some(&manual)).ok().unwrap().resume_lease_owned_pause);
}

#[test]
fn matching_grace_session_pauses_once_before_requeue_boundary() {
    let mut held = lease(1, 100);
    let session = snapshot(90);
    assert!(start_grace(&mut held, &session, at(100)));
    let mut kept = Some(held);
    assert!(complete_grace_session(&mut kept, 7, Some("session-7"), false, at(120)));
    let expired = kept.as_ref().unwrap();
    assert_eq!(expired.state, "expired_paused");
    assert_eq!(expired.notification_status, "pending");
    assert!(expired.pause_owned_by_lease);
    assert!(!complete_grace_session(&mut kept, 7, Some("session-7"), true, at(121)));
}

#[test]
fn old_session_completion_cannot_close_replacement_lease() {
    let mut leases = Vec::new();
    let first = replace(&mut leases, 100, "需求甲", None, 1).ok().unwrap();
    assert!(start_grace(held(&mut leases, first), &snapshot(90), at(100)));
    let second = replace(&mut leases, 300, "已延期", Some(first), 110).ok().unwrap();
    assert_eq!(current(&leases).unwrap().id, second);
    let mut kept = leases.pop();
    assert!(!complete_grace_session(&mut kept, 7, Some("session-7"), false, at(120)));
    assert_eq!(kept.unwrap().state, "scheduled");
}

#[test]
fn a_scan_settles_a_due_lease_once() {
    let mut held = lease(1, 100);
    let room = Some(RoomState { active: None, paused: false });
    assert!(matches!(
        scan_due_recording_leases(&mut held, &None, at(100)),
        DueOutcome::WorkerUnavailable
    ));
    assert!(matches!(
        scan_due_recording_leases(&mut held, &room, at(99)),
        DueOutcome::Unchanged
    ));
    assert!(matches!(
        scan_due_recording_leases(&mut held, &room, at(100)),
        DueOutcome::Paused
    ));
    assert!(matches!(
        scan_due_recording_leases(&mut held, &room, at(101)),
        DueOutcome::Unchanged
    ));
    assert!(apply_initial_state(&Some(held)));
    assert!(!apply_initial_state(&None));
    let mut graced = lease(2, 100);
    let live = Some(RoomState { active: Some(snapshot(90)), paused: false });
    assert!(matches!(
        scan_due_recording_leases(&mut graced, &live, at(100)),
        DueOutcome::GraceStarted
    ));
    assert_eq!(graced.grace_streamer_info_id, Some(7));
}

#[test]
fn due_leases_come_by_their_end() {
    let mut done = lease(4, 5);
    done.state = "cancelled".to_string();
    let leases = vec![lease(3, 20), lease(2, 10), lease(1, 10), done, lease(5, 31)];
    assert_eq!(due_lease_ids(&leases, at(30)), vec![1, 2, 3]);
}

#[test]
fn no_session_begins_behind_the_end() {
    let held = lease(1, 100);
    assert!(matches!(
        admission_decision(&held, at(99), Some(7), None, at(99), false),
        Ok(AdmissionDecision::Allow)
    ));
    assert!(matches!(
        admission_decision(&held, at(100), Some(7), None, at(101), false),
        Ok(AdmissionDecision::Block)
    ));
    let mut kept = Some(lease(1, 100));
    let answer = admit_detected_session(&mut kept, Some(7), Some("s"), at(101), false, at(101));
    let answer = answer.ok().unwrap();
    assert!(!answer.admitted && answer.pause_worker);
    assert_eq!(kept.unwrap().state, "expired_paused");
    let free = admit_detected_session(&mut None, None, None, at(1), false, at(1)).ok().unwrap();
    assert!(free.admitted && !free.pause_worker);
    let open = admit_detected_session(&mut None, None, None, at(1), true, at(1)).ok().unwrap();
    assert!(open.admitted && !open.resumed);
    let mut running = Some(lease(1, 100));
    let early = admit_detected_session(&mut running, None, None, at(1), true, at(99));
    assert!(early.ok().unwrap().admitted);
    let mut odd = lease(2, 100);
    odd.state = "strange".to_string();
    assert!(matches!(
        admission_decision(&odd, at(1), None, None, at(1), false),
        Err(LeaseError::UnknownState(_))
    ));
}

#[test]
fn states_are_read_back_from_their_names() {
    for state in [
        RecordingLeaseState::Scheduled,
        RecordingLeaseState::GraceCurrentSession,
        RecordingLeaseState::ExpiredPaused,
        RecordingLeaseState::Superseded,
        RecordingLeaseState::Cancelled,
    ] {
        assert_eq!(RecordingLeaseState::parse(state.as_str()).ok().unwrap(), state);
    }
    assert!(RecordingLeaseState::parse("").is_err());
    assert_eq!(
        lease(1, 2).parsed_state().ok().unwrap(),
        RecordingLeaseState::Scheduled
    );
    assert_eq!(lease(1, 2).projection().customer_note, "需求甲");
}

fn expired(id: i64) -> RecordingLease {
    let mut held = lease(id, 100);
    held.state = "expired_paused".to_string();
    held.effective_paused_at = Some(at(101));
    held.notification_status = "pending".to_string();
    held.next_notification_at = Some(at(101));
    held
}

fn run_notices(
    leases: &mut Vec<RecordingLease>,
    webhook: Option<&str>,
    now: i64,
    sends: bool,
    calls: &mut usize,
) -> usize {
    let mut scan = NoticeScan::begin(webhook, leases, at(now));
    let mut token = String::new();
    loop {
        match scan.step {
            NoticeStep::NoteNotConfigured => {
                for held in leases.iter_mut() {
                    mark_not_configured(held, at(now));
                }
                scan_recording_lease_notifications(&mut scan, NoticeEvent::Noted);
            }
            NoticeStep::Claim(id) => {
                let taken = claim_afresh(held(leases, id), at(now));
                let claimed = taken.is_some();
                token = taken.unwrap_or_default();
                scan_recording_lease_notifications(&mut scan, NoticeEvent::Claimed(claimed));
            }
            NoticeStep::Send(id) => {
                *calls += 1;
                if sends {
                    let recorded = record_sent(held(leases, id), &token, at(now));
                    scan_recording_lease_notifications(&mut scan, NoticeEvent::Sent { recorded });
                } else {
                    record_failure(held(leases, id), &token, "HTTP 500", at(now));
                    scan_recording_lease_notifications(&mut scan, NoticeEvent::Failed);
                }
            }
            NoticeStep::Finished(sent) => return sent,
        }
    }
}

#[test]
fn successful_notification_is_persisted_and_not_sent_twice() {
    let mut leases = vec![expired(1)];
    let mut calls = 0;
    let webhook = Some("http://127.0.0.1:1/");
    assert_eq!(run_notices(&mut leases, webhook, 101, true, &mut calls), 1);
    assert_eq!(run_notices(&mut leases, webhook, 200, true, &mut calls), 0);
    assert_eq!(calls, 1);
    assert_eq!(leases[0].notification_status, "sent");
    assert_eq!(leases[0].notified_at, Some(at(101)));
}

#[test]
fn failed_notification_uses_first_retry_delay() {
    let mut leases = vec![expired(1)];
    let mut calls = 0;
    run_notices(&mut leases, Some("http://127.0.0.1:1/"), 101, false, &mut calls);
    let failed = &leases[0];
    assert_eq!(failed.notification_status, "failed");
    assert_eq!(failed.next_notification_at, Some(at(161)));
    assert_eq!(failed.notification_attempts, 1);
    assert_eq!(failed.last_notification_error.as_deref(), Some("HTTP 500"));
    assert_eq!(calls, 1);
}

#[test]
fn without_an_address_nothing_is_sent() {
    assert!(!is_configured(None));
    assert!(!is_configured(Some(" ")));
    assert!(is_configured(Some("x")));
    let mut leases = vec![expired(1)];
    let mut calls = 0;
    assert_eq!(run_notices(&mut leases, None, 101, true, &mut calls), 0);
    assert_eq!(calls, 0);
    assert_eq!(leases[0].notification_status, "not_configured");
}

#[test]
fn a_claim_holds_for_five_minutes() {
    let mut held = expired(1);
    assert!(claim(&mut held, "a", at(101)));
    assert!(!claim(&mut held, "b", at(101)));
    assert!(!record_sent(&mut held, "b", at(102)));
    assert!(claimable_ids(&vec![expired(1), held], at(101)) == vec![1]);
    let mut stuck = expired(2);
    assert!(claim(&mut stuck, "a", at(101)));
    assert!(!claim(&mut stuck, "b", at(400)));
    assert!(claim(&mut stuck, "b", at(401)));
    assert!(!record_sent(&mut stuck, "a", at(402)));
    assert!(record_sent(&mut stuck, "b", at(402)));
}

#[test]
fn the_waits_grow_to_an_hour() {
    let waits: Vec<Span> = (0..7).map(notification_retry_delay).collect();
    let expected: Vec<Span> =
        [60, 60, 300, 900, 3600, 3600, 3600].into_iter().map(Span::from_secs).collect();
    assert_eq!(waits, expected);
}

#[test]
fn times_are_shown_on_the_clock_of_shanghai() {
    assert_eq!(format_shanghai(at(100)), "1970-01-01 08:01:40");
    assert_eq!(format_shanghai(at(-1)), "1970-01-01 07:59:59");
    assert_eq!(format_shanghai(Timestamp::from_nanos(-1).unwrap()), "1970-01-01 07:59:59");
}

#[test]
fn the_notice_names_the_customer_and_the_times() {
    let (title, content) = notification_message(&expired(9), "甲");
    assert_eq!(title, "⏰ 客户录制到期，已暂停后续录制");
    assert_eq!(
        content,
        "客户/需求：需求甲\n主播：甲\n约定到期：1970-01-01 08:01:40 (Asia/Shanghai)\n实际暂停：1970-01-01 08:01:41\n租约事件：#9"
    );
    let mut graced = expired(9);
    graced.customer_note = "  ".to_string();
    graced.grace_streamer_info_id = Some(7);
    graced.effective_paused_at = None;
    let (_, content) = notification_message(&graced, "甲");
    assert!(content.starts_with("客户/需求：（未填写）\n"));
    assert!(content.contains("\n本场结束：未知\n实际暂停：未知\n"));
}

#[test]
fn every_refusal_has_a_message() {
    for error in [
        LeaseError::UnknownState("odd".to_string()),
        LeaseError::ChangedElsewhere,
        LeaseError::NotFound,
        LeaseError::Replaced,
    ] {
        assert!(!error.message().is_empty());
    }
    assert!(LeaseError::UnknownState("odd".to_string()).message().contains("odd"));
}
