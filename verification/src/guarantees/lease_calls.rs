//! What single calls answer for the lease of a room, and what they leave in it.
use crate::guarantees::lease::law_states_have_their_names;
use crate::recording_lease::notice::{
    claim, is_configured, mark_not_configured, notification_message, record_failure, record_sent,
};
use crate::recording_lease::replacement::{
    after_write, cancel, cancel_lease, new_lease, replace_lease, supersede, write_failure,
    CancelLeaseOutcome, NewLease, Replacement, WriteFailure,
};
use crate::recording_lease::{
    admission_decision, admit_detected_session, apply_initial_state, complete_grace_session,
    due_action, lemma_state_names, start_grace, str_view, transition_to_expired_paused,
    ActiveRecordingSnapshot, Admission, AdmissionDecision, DueAction, LeaseError, RecordingLease,
    RecordingLeaseProjection,
};
use crate::text::{contains_text, lower_spec, opt_view, trim_spec};
use crate::time::Timestamp;
use vstd::prelude::*;

verus! {

/// Under a waiting lease whose end has come, a session that goes on and began no later than the
/// end is let in, and the lease then gives the grace to it and to no other.
pub proof fn law_the_session_that_goes_on_is_let_in(
    lease: &mut Option<RecordingLease>,
    id: Option<i64>,
    key: Option<&str>,
    started: Timestamp,
    now: Timestamp,
    answer: Result<Admission, LeaseError>,
    decision: Result<AdmissionDecision, LeaseError>,
)
    requires
        call_ensures(admit_detected_session, (lease, id, key, started, true, now), answer),
        (*old(lease)) is Some,
        call_ensures(
            admission_decision,
            (&(*old(lease))->0, now, id, key, started, true),
            decision,
        ),
        (*old(lease))->0.state@ == "scheduled"@,
        (*old(lease))->0.expires_at@ <= now@,
        started@ <= (*old(lease))->0.expires_at@,
    ensures
        decision == Ok::<AdmissionDecision, LeaseError>(AdmissionDecision::AllowAndStartGrace),
        answer is Ok,
        answer->Ok_0.admitted,
        answer->Ok_0.resumed,
        !answer->Ok_0.pause_worker,
        (*final(lease)) is Some,
        (*final(lease))->0.state@ == "grace_current_session"@,
        (*final(lease))->0.grace_streamer_info_id == id,
        opt_view((*final(lease))->0.grace_live_session_key) == str_view(key),
        (*final(lease))->0.expires_at@ == (*old(lease))->0.expires_at@,
        (*final(lease))->0.id == (*old(lease))->0.id,
{
    lemma_state_names();
    let before = (*old(lease))->0;
    let after = (*final(lease))->0;
    assert(before@.state == "scheduled"@);
    assert(after@.state == "grace_current_session"@);
    assert(after@.grace_streamer_info_id == id);
    assert(after@.grace_live_session_key == str_view(key));
    assert(after@.expires_at == before@.expires_at);
    assert(after@.id == before@.id);
}

/// A session that is new, or that began after the end, is kept out by a waiting lease whose end
/// has come; before the end every session is let in. Without a lease every session is.
pub proof fn law_who_is_let_in(
    lease: &mut Option<RecordingLease>,
    id: Option<i64>,
    key: Option<&str>,
    started: Timestamp,
    reused: bool,
    now: Timestamp,
    answer: Result<Admission, LeaseError>,
)
    requires
        call_ensures(admit_detected_session, (lease, id, key, started, reused, now), answer),
        (*old(lease)) is Some ==> (*old(lease))->0.state@ == "scheduled"@,
    ensures
        (*final(lease)) is Some == (*old(lease)) is Some,
        answer is Ok,
        (*old(lease)) is None || now@ < (*old(lease))->0.expires_at@ ==> answer->Ok_0.admitted
            && !answer->Ok_0.resumed && !answer->Ok_0.pause_worker,
        (*old(lease)) is Some && now@ < (*old(lease))->0.expires_at@ ==> (*final(lease))->0.state@
            == "scheduled"@,
        (*old(lease)) is Some && now@ >= (*old(lease))->0.expires_at@ && (!reused
            || started@ > (*old(lease))->0.expires_at@) ==> !answer->Ok_0.admitted
            && answer->Ok_0.pause_worker
            && (*final(lease))->0.state@ == "expired_paused"@
            && (*final(lease))->0.pause_owned_by_lease
            && (*final(lease))->0.effective_paused_at == Some(now),
{
    lemma_state_names();
    if (*old(lease)) is Some {
        assert((*old(lease))->0@.state == "scheduled"@);
        assert((*final(lease))->0@.state == (*final(lease))->0.state@);
        assert((*final(lease))->0@.pause_owned_by_lease == (*final(lease))->0.pause_owned_by_lease);
        assert((*final(lease))->0@.effective_paused_at == (*final(lease))->0.effective_paused_at);
    }
}

/// A state without a known name is refused under that name, and nothing is changed.
pub proof fn law_an_unknown_state_is_refused(
    lease: &mut Option<RecordingLease>,
    id: Option<i64>,
    key: Option<&str>,
    started: Timestamp,
    reused: bool,
    now: Timestamp,
    answer: Result<Admission, LeaseError>,
)
    requires
        call_ensures(admit_detected_session, (lease, id, key, started, reused, now), answer),
        (*old(lease)) is Some,
        (*old(lease))->0.state@ != "scheduled"@,
        (*old(lease))->0.state@ != "grace_current_session"@,
        (*old(lease))->0.state@ != "expired_paused"@,
        (*old(lease))->0.state@ != "superseded"@,
        (*old(lease))->0.state@ != "cancelled"@,
    ensures
        answer is Err,
        answer->Err_0 is UnknownState,
        answer->Err_0->UnknownState_0@ == (*old(lease))->0.state@,
        (*final(lease)) is Some,
        (*final(lease))->0@ == (*old(lease))->0@,
{
    law_states_have_their_names((*old(lease))->0.state@);
    assert((*old(lease))->0@.state == (*old(lease))->0.state@);
}

/// The grace goes to the session that is recorded, and only under a waiting lease whose end has
/// come.
pub proof fn law_when_the_grace_begins(
    lease: &mut RecordingLease,
    session: &ActiveRecordingSnapshot,
    now: Timestamp,
    changed: bool,
)
    requires
        call_ensures(start_grace, (lease, session, now), changed),
    ensures
        changed <==> old(lease).state@ == "scheduled"@ && old(lease).expires_at@ <= now@,
        changed ==> final(lease).state@ == "grace_current_session"@
            && final(lease).grace_streamer_info_id == Some(session.streamer_info_id) && opt_view(
            final(lease).grace_live_session_key) == opt_view(session.live_session_key)
            && final(lease).updated_at == now,
        !changed ==> final(lease)@ == old(lease)@,
        final(lease)@.expires_at == old(lease)@.expires_at,
        final(lease)@.notification_status == old(lease)@.notification_status,
{
    let after = final(lease)@;
    assert(after.state == final(lease).state@);
    assert(after.grace_streamer_info_id == final(lease).grace_streamer_info_id);
    assert(after.grace_live_session_key == opt_view(final(lease).grace_live_session_key));
    assert(after.updated_at == final(lease).updated_at);
}

/// What is to be done with a lease by the clock: nothing before its end; from then on a session
/// that began no later than the end may finish, and the room is paused otherwise.
pub proof fn law_what_the_clock_asks_for(
    expires: Timestamp,
    now: Timestamp,
    active: Option<&ActiveRecordingSnapshot>,
    action: DueAction,
)
    requires
        call_ensures(due_action, (expires, now, active), action),
    ensures
        now@ < expires@ ==> action == DueAction::NotDue,
        now@ >= expires@ && active is Some && active->0.recording_started_at@ <= expires@
            ==> action == DueAction::GraceCurrentSession,
        now@ >= expires@ && active is Some && active->0.recording_started_at@ > expires@ ==> action
            == DueAction::Pause,
        now@ >= expires@ && active is None ==> action == DueAction::Pause,
{
}

/// A lease ends only out of the state that it is expected in, and a notice is then due at once; a
/// room whose lease has ended starts out paused.
pub proof fn law_how_a_lease_ends(
    lease: &mut RecordingLease,
    from: &str,
    owned: bool,
    now: Timestamp,
    changed: bool,
    stored: &Option<RecordingLease>,
    pause: bool,
)
    requires
        call_ensures(transition_to_expired_paused, (lease, from, owned, now), changed),
        call_ensures(apply_initial_state, (stored,), pause),
    ensures
        changed <==> old(lease).state@ == from@,
        !changed ==> final(lease)@ == old(lease)@,
        changed ==> {
            let after = final(lease)@;
            &&& after.state == "expired_paused"@
            &&& after.pause_owned_by_lease == owned
            &&& after.effective_paused_at == Some(now)
            &&& after.notification_status == "pending"@
            &&& after.next_notification_at == Some(now)
            &&& after.notification_claim_token is None
            &&& after.notification_claimed_at is None
            &&& after.updated_at == now
            &&& after.notification_attempts == old(lease)@.notification_attempts
            &&& after.grace_streamer_info_id == old(lease)@.grace_streamer_info_id
        },
        stored is None ==> !pause,
        stored is Some ==> pause == (stored->0.state@ == "expired_paused"@),
{
    if stored is Some {
        assert(stored->0@.state == stored->0.state@);
    }
}

/// The end of the session that has the grace ends the lease, the end of another does not; the
/// pause is the lease's own, unless the room was paused already.
pub proof fn law_the_end_of_a_session(
    lease: &mut Option<RecordingLease>,
    id: i64,
    key: Option<&str>,
    already: bool,
    now: Timestamp,
    ended: bool,
)
    requires
        call_ensures(complete_grace_session, (lease, id, key, already, now), ended),
    ensures
        (*old(lease)) is None ==> !ended,
        (*old(lease)) is Some ==> (ended <==> (*old(lease))->0@.state
            == "grace_current_session"@ && (
        (*old(lease))->0@.grace_streamer_info_id == Some(id) || (key is Some && key->0@.len() > 0
            && (*old(lease))->0@.grace_live_session_key == Some(key->0@)))),
        ended ==> (*final(lease)) is Some && (*final(lease))->0@.state == "expired_paused"@
            && (*final(lease))->0@.pause_owned_by_lease == !already
            && (*final(lease))->0@.effective_paused_at
            == Some(now) && (*final(lease))->0@.notification_status == "pending"@,
        !ended && (*old(lease)) is Some ==> (*final(lease)) is Some && (*final(lease))->0@
            == (*old(lease))->0@,
{
}

/// A notice can be sent where there is an address; without one it is noted so, on a lease that has
/// ended and whose notice waits.
pub proof fn law_a_notice_without_an_address(
    webhook: Option<&str>,
    yes: bool,
    lease: &mut RecordingLease,
    now: Timestamp,
    changed: bool,
)
    requires
        call_ensures(is_configured, (webhook,), yes),
        call_ensures(mark_not_configured, (lease, now), changed),
    ensures
        yes <==> webhook is Some && trim_spec(webhook->0@).len() > 0,
        changed <==> old(lease)@.state == "expired_paused"@ && (old(lease)@.notification_status
            == "pending"@ || old(lease)@.notification_status == "failed"@),
        changed ==> final(lease)@.notification_status == "not_configured"@
            && final(lease)@.updated_at == now && final(lease)@.state == "expired_paused"@,
        !changed ==> final(lease)@ == old(lease)@,
        final(lease)@.notification_attempts == old(lease)@.notification_attempts,
        final(lease)@.next_notification_at == old(lease)@.next_notification_at,
{
}

/// A notice that is taken on is counted and stands under its token; one that waits for its time is
/// not taken on before it.
pub proof fn law_a_notice_is_taken_on(
    lease: &mut RecordingLease,
    token: &str,
    now: Timestamp,
    taken: bool,
)
    requires
        call_ensures(claim, (lease, token, now), taken),
        old(lease)@.state == "expired_paused"@,
        old(lease)@.notification_status == "pending"@ || old(lease)@.notification_status
            == "failed"@,
    ensures
        taken <==> old(lease)@.next_notification_at is None
            || old(lease)@.next_notification_at->0@ <= now@,
        taken ==> {
            let after = final(lease)@;
            &&& after.notification_status == "sending"@
            &&& after.notification_claim_token == Some(token@)
            &&& after.notification_claimed_at == Some(now)
            &&& after.notification_attempts == old(lease)@.notification_attempts + 1
            &&& after.state == "expired_paused"@
        },
        !taken ==> final(lease)@ == old(lease)@,
{
    crate::guarantees::lease::law_who_is_to_be_told(old(lease)@, now@);
}

/// What came of a notice is noted only by who took it on: one that was sent is done; one that was
/// not is tried again, with the beginning of the error, and is free for others.
pub proof fn law_what_came_of_a_notice(
    one: &mut RecordingLease,
    other: &mut RecordingLease,
    token: &str,
    message: &str,
    now: Timestamp,
    changed: bool,
    retry: Timestamp,
)
    requires
        call_ensures(record_sent, (one, token, now), changed),
        call_ensures(record_failure, (other, token, message, now), retry),
        old(other)@.notification_attempts >= 0,
    ensures
        changed <==> old(one)@.notification_status == "sending"@
            && old(one)@.notification_claim_token == Some(token@),
        changed ==> final(one)@.notification_status == "sent"@ && final(one)@.notified_at == Some(
            now) && final(one)@.next_notification_at is None
            && final(one)@.last_notification_error is None,
        !changed ==> final(one)@ == old(one)@,
        old(other)@.notification_attempts <= 1 ==> retry@ == now@ + 60 * 1_000_000_000,
        old(other)@.notification_attempts == 2 ==> retry@ == now@ + 300 * 1_000_000_000,
        old(other)@.notification_attempts == 3 ==> retry@ == now@ + 900 * 1_000_000_000,
        old(other)@.notification_attempts >= 4 ==> retry@ == now@ + 3600 * 1_000_000_000,
        old(other)@.notification_status == "sending"@ && old(other)@.notification_claim_token
            == Some(token@) ==> {
            let after = final(other)@;
            &&& after.notification_status == "failed"@
            &&& after.next_notification_at == Some(retry)
            &&& after.notification_claim_token is None
            &&& after.notification_claimed_at is None
            &&& after.last_notification_error is Some
            &&& message@.len() <= 300 ==> after.last_notification_error == Some(message@)
            &&& after.last_notification_error->0.len() <= 300
        },
        old(other)@.notification_status != "sending"@ || old(other)@.notification_claim_token
            != Some(token@) ==> final(other)@ == old(other)@,
{
    crate::guarantees::lease::law_notices_back_off(old(other)@, now, retry);
    if message@.len() <= 300 {
        assert(crate::text::first_chars(message@, 300) == message@);
    }
}

/// A write that ran into another is told as such; any other failure is not; a write that changed
/// no row, or more than one, came too late.
pub proof fn law_how_a_write_fares(
    unique: bool,
    message: &str,
    failure: WriteFailure,
    rows: u64,
    counted: Result<(), Option<LeaseError>>,
    told: Result<(), Option<LeaseError>>,
)
    requires
        call_ensures(write_failure, (unique, message), failure),
        call_ensures(after_write, (Ok::<u64, WriteFailure>(rows),), counted),
        call_ensures(after_write, (Err::<u64, WriteFailure>(failure),), told),
    ensures
        unique ==> failure == WriteFailure::Concurrent,
        !unique ==> (failure == WriteFailure::Concurrent <==> contains_text(
            lower_spec(message@),
            "database is locked"@,
        )),
        rows == 1 ==> counted is Ok,
        rows != 1 ==> counted == Err::<(), Option<LeaseError>>(
            Some(LeaseError::ChangedElsewhere),
        ),
        failure == WriteFailure::Concurrent ==> told == Err::<(), Option<LeaseError>>(
            Some(LeaseError::ChangedElsewhere),
        ),
        failure == WriteFailure::Other ==> told == Err::<(), Option<LeaseError>>(None),
{
}

/// A lease is replaced by whoever has seen it, and by nobody else; the room goes on where the lease
/// had paused it.
pub proof fn law_who_may_replace_a_lease(
    current: Option<&RecordingLease>,
    expected: Option<i64>,
    plan: Result<Replacement, LeaseError>,
)
    requires
        call_ensures(replace_lease, (current, expected), plan),
    ensures
        plan is Ok <==> (current is None && expected is None) || (current is Some && expected
            == Some(current->0.id)),
        plan is Err ==> plan->Err_0 == LeaseError::ChangedElsewhere,
        plan is Ok ==> plan->Ok_0.supersedes == expected,
        plan is Ok ==> (plan->Ok_0.resume_lease_owned_pause <==> current is Some
            && current->0@.state == "expired_paused"@ && current->0@.pause_owned_by_lease),
{
}

/// A lease that holds the room gives its place up, and one that does not is left as it is; the one
/// that comes in its place waits for its end.
pub proof fn law_how_a_lease_gives_its_place_up(
    one: &mut RecordingLease,
    other: &mut RecordingLease,
    now: Timestamp,
    replaced: bool,
    given_up: bool,
    room: i64,
    expires: Timestamp,
    note: &str,
    made: NewLease,
)
    requires
        call_ensures(supersede, (one, now), replaced),
        call_ensures(cancel, (other, now), given_up),
        call_ensures(new_lease, (room, expires, note, now), made),
    ensures
        replaced <==> old(one)@.state == "scheduled"@ || old(one)@.state
            == "grace_current_session"@ || old(one)@.state == "expired_paused"@,
        replaced ==> final(one)@.state == "superseded"@ && final(one)@.updated_at == now,
        !replaced ==> final(one)@ == old(one)@,
        given_up <==> old(other)@.state == "scheduled"@ || old(other)@.state
            == "grace_current_session"@ || old(other)@.state == "expired_paused"@,
        given_up ==> final(other)@.state == "cancelled"@ && final(other)@.updated_at == now,
        !given_up ==> final(other)@ == old(other)@,
        final(one)@.expires_at == old(one)@.expires_at,
        final(other)@.expires_at == old(other)@.expires_at,
        final(one)@.pause_owned_by_lease == old(one)@.pause_owned_by_lease,
        final(other)@.pause_owned_by_lease == old(other)@.pause_owned_by_lease,
        made.live_streamer_id == room,
        made.expires_at == expires,
        made.customer_note@ == note@,
        made.state@ == "scheduled"@,
        made.created_at == now,
        made.updated_at == now,
{
}

/// What a request to cancel is answered: a lease that is not there is not found, one that was
/// cancelled stays so, one that was replaced is refused, and one that holds the room is given up;
/// the room then goes on where the lease had paused it.
pub proof fn law_what_a_cancellation_is_answered(
    target: Option<&RecordingLease>,
    outcome: Result<CancelLeaseOutcome, LeaseError>,
)
    requires
        call_ensures(cancel_lease, (target,), outcome),
    ensures
        target is None ==> outcome == Err::<CancelLeaseOutcome, LeaseError>(LeaseError::NotFound),
        target is Some && target->0@.state == "cancelled"@ ==> outcome is Ok
            && outcome->Ok_0.already_cancelled && !outcome->Ok_0.resume_lease_owned_pause,
        target is Some && target->0@.state == "superseded"@ ==> outcome == Err::<
            CancelLeaseOutcome,
            LeaseError,
        >(LeaseError::Replaced),
        target is Some && (target->0@.state == "scheduled"@ || target->0@.state
            == "grace_current_session"@ || target->0@.state == "expired_paused"@) ==> outcome is Ok
            && !outcome->Ok_0.already_cancelled && (outcome->Ok_0.resume_lease_owned_pause
            <==> target->0@.state == "expired_paused"@ && target->0@.pause_owned_by_lease),
{
    lemma_state_names();
    law_states_have_their_names("superseded"@);
}

/// What is shown of a lease is what it holds.
pub proof fn law_what_is_shown_of_a_lease(lease: &RecordingLease, shown: RecordingLeaseProjection)
    requires
        call_ensures(RecordingLease::projection, (lease,), shown),
    ensures
        shown.id == lease.id,
        shown.expires_at == lease.expires_at,
        shown.customer_note@ == lease.customer_note@,
        shown.state@ == lease.state@,
        shown.effective_paused_at == lease.effective_paused_at,
        shown.notification_status@ == lease.notification_status@,
        shown.notified_at == lease.notified_at,
        shown.last_notification_error == lease.last_notification_error,
{
}

/// A refusal has its text, and the notice its title.
pub proof fn law_how_refusals_are_worded(
    error: &LeaseError,
    text: String,
    lease: &RecordingLease,
    remark: &str,
    message: (String, String),
)
    requires
        call_ensures(LeaseError::message, (error,), text),
        call_ensures(notification_message, (lease, remark), message),
    ensures
        *error is ChangedElsewhere ==> text@ == "录制期限已被其他页面更新，请刷新后重试"@,
        *error is NotFound ==> text@ == "录制期限不存在"@,
        *error is Replaced ==> text@ == "该录制期限已被替换，请刷新后重试"@,
        *error is UnknownState ==> text@ == "未知录制租约状态："@
            + (*error)->UnknownState_0@,
        message.0@ == "⏰ 客户录制到期，已暂停后续录制"@,
{
}

} // verus!
