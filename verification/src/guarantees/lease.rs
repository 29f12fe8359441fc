//! How a customer's recording ends, and how they are told.
use crate::order::{
    first_keys, key_ids, law_no_key_is_lost, law_ordering_only_reorders,
    law_smaller_keys_come_first, sorted_keys, SortKey,
};
use crate::recording_lease::notice::{
    claimable, claimable_keys, claimed, clock_text, ends_lease, failed, held_under, notice_content,
    notice_step_after, notice_step_at, retried_at, sent, sent_after, NoticeEvent, NoticeScan,
    NoticeStep, NOTICE_LIMIT,
};
use crate::recording_lease::replacement::{cancelled, owns_pause, superseded};
use crate::recording_lease::{
    admission, admitted, after_admission, due, due_keys, grace_ends, is_active, lemma_state_names,
    may_grace, named_state, paused, settled, starts_grace, AdmissionDecision, DueAction,
    DueOutcome, LeaseView,
    RecordingLease, RecordingLeaseState, RoomState,
};
use crate::text::{opt_view, signed_decimal, trim_spec};
use crate::time::Timestamp;
use vstd::prelude::*;

verus! {

/// A session that goes on from before the end of a lease is let finish: once the end has come, a
/// reused session that began no later than the end is let in, the lease turns to its grace and
/// keeps the session's number and key, and the session is let in again under either.
pub proof fn law_a_reused_session_gets_the_grace(
    lease: LeaseView,
    state: RecordingLeaseState,
    now: Timestamp,
    id: i64,
    key: Option<Seq<char>>,
    started: int,
    later: int,
    started_again: int,
    reused_again: bool,
)
    requires
        lease.state == "scheduled"@,
        named_state(lease.state) == Some(state),
        now@ >= lease.expires_at@,
        started <= lease.expires_at@,
    ensures
        ({
            let decision = admission(lease, state, now@, Some(id), key, started, true);
            let after = after_admission(lease, decision, Some(id), key, now);
            &&& decision == AdmissionDecision::AllowAndStartGrace
            &&& admitted(decision).admitted && admitted(decision).resumed && !admitted(
                decision,
            ).pause_worker
            &&& after.state == "grace_current_session"@
            &&& after.grace_streamer_info_id == Some(id)
            &&& after.grace_live_session_key == key
            &&& after.updated_at == now
            &&& after.expires_at == lease.expires_at
            &&& after.customer_note == lease.customer_note
            &&& named_state(after.state) matches Some(next) && admission(
                after,
                next,
                later,
                Some(id),
                None,
                started_again,
                reused_again,
            ) == AdmissionDecision::Allow && (key matches Some(text) && text.len() > 0
                ==> admission(after, next, later, None, key, started_again, reused_again)
                == AdmissionDecision::Allow)
        }),
{
    lemma_state_names();
}

/// Before its end a lease keeps nobody out and is not touched.
pub proof fn law_before_the_end_all_are_let_in(
    lease: LeaseView,
    state: RecordingLeaseState,
    now: Timestamp,
    id: Option<i64>,
    key: Option<Seq<char>>,
    started: int,
    reused: bool,
)
    requires
        lease.state == "scheduled"@,
        named_state(lease.state) == Some(state),
        now@ < lease.expires_at@,
    ensures
        admission(lease, state, now@, id, key, started, reused) == AdmissionDecision::Allow,
        after_admission(
            lease,
            admission(lease, state, now@, id, key, started, reused),
            id,
            key,
            now,
        ) == lease,
        admitted(AdmissionDecision::Allow).admitted,
        !admitted(AdmissionDecision::Allow).pause_worker,
        !admitted(AdmissionDecision::Allow).resumed,
{
    lemma_state_names();
}

/// Once the end has come, a session that is new or that began after the end is kept out, the room
/// is paused by the lease, and the customer is to be told at once.
pub proof fn law_after_the_end_a_new_session_is_kept_out(
    lease: LeaseView,
    state: RecordingLeaseState,
    now: Timestamp,
    id: Option<i64>,
    key: Option<Seq<char>>,
    started: int,
    reused: bool,
)
    requires
        lease.state == "scheduled"@,
        named_state(lease.state) == Some(state),
        now@ >= lease.expires_at@,
        !reused || started > lease.expires_at@,
    ensures
        ({
            let decision = admission(lease, state, now@, id, key, started, reused);
            let after = after_admission(lease, decision, id, key, now);
            &&& decision == AdmissionDecision::Block
            &&& !admitted(decision).admitted && admitted(decision).pause_worker && !admitted(
                decision,
            ).resumed
            &&& after.state == "expired_paused"@
            &&& after.pause_owned_by_lease
            &&& after.effective_paused_at == Some(now)
            &&& after.notification_status == "pending"@
            &&& after.next_notification_at == Some(now)
            &&& after.notification_claim_token is None
            &&& after.notification_claimed_at is None
            &&& after.expires_at == lease.expires_at
            &&& after.id == lease.id
        }),
{
    lemma_state_names();
}

/// Under the grace only its own session is let in, known by its number or by its key, where an
/// empty key knows nothing; any other is kept out and ends the lease.
pub proof fn law_the_grace_is_for_one_session(
    lease: LeaseView,
    state: RecordingLeaseState,
    now: Timestamp,
    id: Option<i64>,
    key: Option<Seq<char>>,
    started: int,
    reused: bool,
)
    requires
        lease.state == "grace_current_session"@,
        named_state(lease.state) == Some(state),
    ensures
        ({
            let decision = admission(lease, state, now@, id, key, started, reused);
            let after = after_admission(lease, decision, id, key, now);
            let same_id = id is Some && lease.grace_streamer_info_id == id;
            let same_key = key is Some && key->0.len() > 0 && lease.grace_live_session_key == key;
            &&& same_id || same_key ==> decision == AdmissionDecision::Allow && after == lease
            &&& !same_id && !same_key ==> decision == AdmissionDecision::Block && after.state
                == "expired_paused"@ && after.pause_owned_by_lease && after.effective_paused_at
                == Some(now) && after.notification_status == "pending"@
        }),
{
    lemma_state_names();
}

/// A lease that has ended keeps everyone out and stays as it is; one that was replaced or
/// cancelled keeps nobody out.
pub proof fn law_an_ended_lease_stays_ended(
    lease: LeaseView,
    now: Timestamp,
    id: Option<i64>,
    key: Option<Seq<char>>,
    started: int,
    reused: bool,
    state: RecordingLeaseState,
)
    requires
        named_state(lease.state) == Some(state),
    ensures
        ({
            let decision = admission(lease, state, now@, id, key, started, reused);
            &&& lease.state == "expired_paused"@ ==> decision == AdmissionDecision::Block
            &&& lease.state == "superseded"@ || lease.state == "cancelled"@ ==> decision
                == AdmissionDecision::Allow
            &&& lease.state == "expired_paused"@ || lease.state == "superseded"@ || lease.state
                == "cancelled"@ ==> after_admission(lease, decision, id, key, now) == lease
        }),
{
    lemma_state_names();
}

/// Five names are known for the state of a lease, and of these three hold the room.
pub proof fn law_states_have_their_names(name: Seq<char>)
    ensures
        named_state("scheduled"@) == Some(RecordingLeaseState::Scheduled),
        named_state("grace_current_session"@) == Some(RecordingLeaseState::GraceCurrentSession),
        named_state("expired_paused"@) == Some(RecordingLeaseState::ExpiredPaused),
        named_state("superseded"@) == Some(RecordingLeaseState::Superseded),
        named_state("cancelled"@) == Some(RecordingLeaseState::Cancelled),
        named_state(name) is Some ==> name == "scheduled"@ || name == "grace_current_session"@
            || name == "expired_paused"@ || name == "superseded"@ || name == "cancelled"@,
        is_active(name) <==> name == "scheduled"@ || name == "grace_current_session"@ || name
            == "expired_paused"@,
        !is_active("superseded"@),
        !is_active("cancelled"@),
{
    lemma_state_names();
}

/// A scan that finds the end come lets a session that was recording since before the end go on
/// under its grace, and pauses the room otherwise; the pause is the lease's own unless the room
/// was paused already. Before the end, and while the room is not there, it does nothing.
pub proof fn law_a_scan_ends_a_lease(lease: LeaseView, room: Option<RoomState>, now: Timestamp)
    ensures
        ({
            let (after, outcome) = settled(lease, room, now);
            let runs = room is Some && room->0.active is Some
                && room->0.active->0.recording_started_at@ <= lease.expires_at@;
            &&& room is None ==> outcome == DueOutcome::WorkerUnavailable && after == lease
            &&& room is Some && now@ < lease.expires_at@ ==> outcome == DueOutcome::Unchanged
                && after == lease
            &&& lease.state != "scheduled"@ ==> after == lease
            &&& lease.state == "scheduled"@ && now@ >= lease.expires_at@ && runs ==> {
                &&& outcome == DueOutcome::GraceStarted
                &&& after.state == "grace_current_session"@
                &&& after.grace_streamer_info_id == Some(room->0.active->0.streamer_info_id)
                &&& after.grace_live_session_key == opt_view(room->0.active->0.live_session_key)
                &&& after.notification_status == lease.notification_status
                &&& after.effective_paused_at == lease.effective_paused_at
            }
            &&& lease.state == "scheduled"@ && now@ >= lease.expires_at@ && room is Some && !runs
                ==> {
                &&& outcome == DueOutcome::Paused
                &&& after.state == "expired_paused"@
                &&& after.pause_owned_by_lease == !room->0.paused
                &&& after.effective_paused_at == Some(now)
                &&& after.notification_status == "pending"@
                &&& after.next_notification_at == Some(now)
                &&& after.notification_claim_token is None
                &&& after.notification_claimed_at is None
            }
        }),
{
}

/// What is due at a reading of the clock: nothing before the end; the grace for a session that
/// began no later than the end; the pause otherwise.
pub proof fn law_the_end_decides(expires: int, now: int, started: Option<int>)
    ensures
        due(expires, now, started) == DueAction::NotDue <==> now < expires,
        due(expires, now, started) == DueAction::GraceCurrentSession <==> now >= expires && started
            is Some && started->0 <= expires,
        due(expires, now, started) == DueAction::Pause <==> now >= expires && (started is None
            || started->0 > expires),
{
}

spec fn end_key(lease: RecordingLease) -> SortKey {
    SortKey { major: lease.expires_at@ as i128, minor: 0, id: lease.id }
}

/// Whether lease `i` has ended and is known by `key`.
spec fn has_end_key(leases: Seq<RecordingLease>, now: Timestamp, i: int, key: SortKey) -> bool {
    0 <= i < leases.len() && may_grace(leases[i]@, now) && end_key(leases[i]) == key
}

proof fn lemma_due_keys(leases: Seq<RecordingLease>, now: Timestamp, key: SortKey)
    ensures
        due_keys(leases, now).contains(key) <==> exists|i: int| has_end_key(leases, now, i, key),
    decreases leases.len(),
{
    let all = due_keys(leases, now);
    if leases.len() > 0 {
        let front = leases.drop_last();
        let rest = due_keys(front, now);
        lemma_due_keys(front, now, key);
        if all.contains(key) {
            let k = choose|k: int| 0 <= k < all.len() && all[k] == key;
            if k < rest.len() {
                assert(rest[k] == key);
                let i = choose|i: int| has_end_key(front, now, i, key);
                assert(has_end_key(leases, now, i, key));
            } else {
                assert(has_end_key(leases, now, leases.len() - 1, key));
            }
        }
        if exists|i: int| has_end_key(leases, now, i, key) {
            let i = choose|i: int| has_end_key(leases, now, i, key);
            if i < front.len() {
                assert(has_end_key(front, now, i, key));
                let k = choose|k: int| 0 <= k < rest.len() && rest[k] == key;
                assert(all[k] == key);
            } else {
                assert(all[all.len() - 1] == key);
            }
        }
    }
}

/// A scan looks at every scheduled lease whose end has come and at no other.
pub proof fn law_every_ended_lease_is_looked_at(
    leases: Seq<RecordingLease>,
    now: Timestamp,
    i: int,
    k: int,
)
    requires
        0 <= i < leases.len(),
        0 <= k < key_ids(sorted_keys(due_keys(leases, now))).len(),
    ensures
        leases[i].state@ == "scheduled"@ && leases[i].expires_at@ <= now@ ==> key_ids(
            sorted_keys(due_keys(leases, now)),
        ).contains(leases[i].id),
        exists|j: int|
            0 <= j < leases.len() && (#[trigger] leases[j]).id == key_ids(
                sorted_keys(due_keys(leases, now)),
            )[k] && leases[j].state@ == "scheduled"@ && leases[j].expires_at@ <= now@,
{
    let keys = due_keys(leases, now);
    let sorted = sorted_keys(keys);
    let ids = key_ids(sorted);
    law_ordering_only_reorders(keys);
    if leases[i].state@ == "scheduled"@ && leases[i].expires_at@ <= now@ {
        let key = end_key(leases[i]);
        lemma_due_keys(leases, now, key);
        assert(has_end_key(leases, now, i, key));
        law_no_key_is_lost(keys, key);
        let c = choose|c: int| 0 <= c < sorted.len() && sorted[c] == key;
        assert(ids[c] == leases[i].id);
    }
    law_no_key_is_lost(keys, sorted[k]);
    lemma_due_keys(leases, now, sorted[k]);
    let j = choose|j: int| has_end_key(leases, now, j, sorted[k]);
    assert(leases[j].id == ids[k]);
}

/// A single lease whose end has come is looked at.
pub proof fn law_an_ended_lease_is_found(leases: Seq<RecordingLease>, now: Timestamp, i: int)
    requires
        0 <= i < leases.len(),
        leases[i].state@ == "scheduled"@,
        leases[i].expires_at@ <= now@,
    ensures
        key_ids(sorted_keys(due_keys(leases, now))).contains(leases[i].id),
{
    let keys = due_keys(leases, now);
    lemma_due_keys(leases, now, end_key(leases[i]));
    assert(has_end_key(leases, now, i, end_key(leases[i])));
    law_ordering_only_reorders(keys);
    assert(keys.len() > 0);
    law_every_ended_lease_is_looked_at(leases, now, i, 0);
}

/// The grace ends with its own session and with no other; the room is then paused, by the lease
/// unless it was paused already, and the customer is to be told.
pub proof fn law_the_grace_ends_with_its_session(
    lease: LeaseView,
    id: i64,
    key: Option<Seq<char>>,
    already_paused: bool,
    now: Timestamp,
)
    ensures
        grace_ends(lease, id, key) <==> lease.state == "grace_current_session"@ && (
        lease.grace_streamer_info_id == Some(id) || (key is Some && key->0.len() > 0
            && lease.grace_live_session_key == key)),
        ({
            let after = paused(lease, !already_paused, now);
            &&& after.state == "expired_paused"@
            &&& after.pause_owned_by_lease == !already_paused
            &&& after.effective_paused_at == Some(now)
            &&& after.notification_status == "pending"@
            &&& after.next_notification_at == Some(now)
            &&& after.notification_claim_token is None
            &&& after.notification_claimed_at is None
            &&& after.notification_attempts == lease.notification_attempts
            &&& after.grace_streamer_info_id == lease.grace_streamer_info_id
        }),
{
}

proof fn lemma_notice_names()
    ensures
        "pending"@ != "sending"@,
        "failed"@ != "sending"@,
        "not_configured"@ != "sending"@,
        "sent"@ != "sending"@,
        "sent"@ != "pending"@,
        "sent"@ != "failed"@,
        "sent"@ != "not_configured"@,
        "pending"@ != "failed"@,
{
    reveal_strlit("pending");
    reveal_strlit("sending");
    reveal_strlit("failed");
    reveal_strlit("not_configured");
    reveal_strlit("sent");
    assert("pending"@[0] == 'p');
    assert("sending"@[0] == 's');
    assert("failed"@[0] == 'f');
    assert("not_configured"@[0] == 'n');
    assert("sent"@.len() == 4);
    assert("sending"@.len() == 7);
}

/// A customer is to be told of an ended lease while the notice has not gone out: at once where no
/// time is set for it and otherwise once that has come, and again where a run that took it on has
/// held it for five minutes without a result.
pub proof fn law_who_is_to_be_told(lease: LeaseView, now: int)
    ensures
        claimable(lease, now) ==> lease.state == "expired_paused"@,
        lease.state == "expired_paused"@ && (lease.notification_status == "pending"@
            || lease.notification_status == "failed"@ || lease.notification_status
            == "not_configured"@) ==> (claimable(lease, now) <==> lease.next_notification_at is None
            || lease.next_notification_at->0@ <= now),
        lease.state == "expired_paused"@ && lease.notification_status == "sending"@ ==> (claimable(
            lease,
            now,
        ) <==> lease.notification_claimed_at is Some && now - lease.notification_claimed_at->0@
            >= 300 * 1_000_000_000),
        claimable(lease, now) ==> lease.notification_status == "pending"@
            || lease.notification_status == "failed"@ || lease.notification_status
            == "not_configured"@ || lease.notification_status == "sending"@,
{
    lemma_notice_names();
}

spec fn notice_key(lease: RecordingLease) -> SortKey {
    SortKey { major: 0, minor: 0, id: lease.id }
}

/// Whether the notice of lease `i` is to be sent and is known by `key`.
spec fn has_notice_key(
    leases: Seq<RecordingLease>,
    now: Timestamp,
    i: int,
    key: SortKey,
) -> bool {
    0 <= i < leases.len() && claimable(leases[i]@, now@) && notice_key(leases[i]) == key
}

proof fn lemma_claimable_keys(leases: Seq<RecordingLease>, now: Timestamp, key: SortKey)
    ensures
        claimable_keys(leases, now).len() <= leases.len(),
        claimable_keys(leases, now).contains(key) <==> exists|i: int|
            has_notice_key(leases, now, i, key),
    decreases leases.len(),
{
    let all = claimable_keys(leases, now);
    if leases.len() > 0 {
        let front = leases.drop_last();
        let rest = claimable_keys(front, now);
        lemma_claimable_keys(front, now, key);
        if all.contains(key) {
            let k = choose|k: int| 0 <= k < all.len() && all[k] == key;
            if k < rest.len() {
                assert(rest[k] == key);
                let i = choose|i: int| has_notice_key(front, now, i, key);
                assert(has_notice_key(leases, now, i, key));
            } else {
                assert(has_notice_key(leases, now, leases.len() - 1, key));
            }
        }
        if exists|i: int| has_notice_key(leases, now, i, key) {
            let i = choose|i: int| has_notice_key(leases, now, i, key);
            if i < front.len() {
                assert(has_notice_key(front, now, i, key));
                let k = choose|k: int| 0 <= k < rest.len() && rest[k] == key;
                assert(all[k] == key);
            } else {
                assert(all[all.len() - 1] == key);
            }
        }
    }
}

/// The leases whose customers one scan tells.
pub open spec fn told(leases: Seq<RecordingLease>, now: Timestamp) -> Seq<i64> {
    key_ids(first_keys(sorted_keys(claimable_keys(leases, now)), NOTICE_LIMIT as int))
}

/// One scan of up to twenty leases tells every customer of an ended lease whose notice has not
/// gone out and is not put off.
pub proof fn law_a_waiting_notice_is_sent(leases: Seq<RecordingLease>, now: Timestamp, i: int)
    requires
        leases.len() <= 20,
        0 <= i < leases.len(),
        leases[i].state@ == "expired_paused"@,
        leases[i].notification_status@ == "pending"@ || leases[i].notification_status@ == "failed"@
            || leases[i].notification_status@ == "not_configured"@,
        leases[i].next_notification_at is None || leases[i].next_notification_at->0@ <= now@,
    ensures
        told(leases, now).contains(leases[i].id),
{
    let keys = claimable_keys(leases, now);
    let sorted = sorted_keys(keys);
    let key = notice_key(leases[i]);
    lemma_claimable_keys(leases, now, key);
    assert(has_notice_key(leases, now, i, key));
    law_ordering_only_reorders(keys);
    law_no_key_is_lost(keys, key);
    let c = choose|c: int| 0 <= c < sorted.len() && sorted[c] == key;
    assert(first_keys(sorted, 20) == sorted);
    assert(told(leases, now)[c] == leases[i].id);
}

/// No more than twenty are told by one scan, the smaller ids first, and nobody whose lease has not
/// ended or whose notice has gone out.
pub proof fn law_nobody_else_is_told(leases: Seq<RecordingLease>, now: Timestamp, p: int, q: int)
    requires
        0 <= p <= q < told(leases, now).len(),
    ensures
        told(leases, now).len() <= 20,
        told(leases, now)[p] <= told(leases, now)[q],
        exists|i: int|
            0 <= i < leases.len() && (#[trigger] leases[i]).id == told(leases, now)[p]
                && leases[i].state@ == "expired_paused"@ && leases[i].notification_status@
                != "sent"@,
{
    let keys = claimable_keys(leases, now);
    let sorted = sorted_keys(keys);
    lemma_notice_names();
    law_ordering_only_reorders(keys);
    assert(first_keys(sorted, 20)[p] == sorted[p]);
    assert(first_keys(sorted, 20)[q] == sorted[q]);
    law_no_key_is_lost(keys, sorted[p]);
    law_no_key_is_lost(keys, sorted[q]);
    lemma_claimable_keys(leases, now, sorted[p]);
    lemma_claimable_keys(leases, now, sorted[q]);
    let i = choose|i: int| has_notice_key(leases, now, i, sorted[p]);
    let j = choose|j: int| has_notice_key(leases, now, j, sorted[q]);
    if p < q {
        law_smaller_keys_come_first(keys, p, q);
    }
    assert(leases[i].id == told(leases, now)[p]);
}

/// A notice that could not be sent is tried again after one minute, then after five, after a
/// quarter of an hour, and after an hour each time from then on.
pub proof fn law_notices_back_off(lease: LeaseView, now: Timestamp, at: Timestamp)
    requires
        retried_at(lease, now, at),
        lease.notification_attempts >= 0,
    ensures
        lease.notification_attempts <= 1 ==> at@ - now@ == 60 * 1_000_000_000,
        lease.notification_attempts == 2 ==> at@ - now@ == 300 * 1_000_000_000,
        lease.notification_attempts == 3 ==> at@ - now@ == 900 * 1_000_000_000,
        lease.notification_attempts >= 4 ==> at@ - now@ == 3600 * 1_000_000_000,
{
}

/// Taking a notice on, sending it and failing to send it leave their marks and touch nothing
/// else: an attempt more and a token; the time at which it went out and no error; the time of
/// the next attempt, the beginning of the error and no token.
pub proof fn law_notices_leave_their_marks(
    lease: LeaseView,
    token: Seq<char>,
    message: Seq<char>,
    at: Timestamp,
    now: Timestamp,
)
    ensures
        ({
            let held = claimed(lease, token, now);
            let gone = sent(lease, now);
            let put_off = failed(lease, message, at, now);
            &&& held.notification_status == "sending"@ && held.notification_claim_token == Some(
                token,
            ) && held.notification_claimed_at == Some(now) && held.notification_attempts
                == lease.notification_attempts + 1 && held.state == lease.state && held.notified_at
                == lease.notified_at && held_under(held, token)
            &&& gone.notification_status == "sent"@ && gone.notified_at == Some(now)
                && gone.next_notification_at is None && gone.last_notification_error is None
                && gone.state == lease.state && gone.notification_attempts
                == lease.notification_attempts
            &&& put_off.notification_status == "failed"@ && put_off.next_notification_at == Some(at)
                && put_off.notification_claim_token is None
                && put_off.notification_claimed_at is None && put_off.notification_attempts
                == lease.notification_attempts && put_off.state == lease.state
            &&& put_off.last_notification_error == Some(
                if message.len() <= 300 {
                    message
                } else {
                    message.take(300)
                },
            )
        }),
{
    assert(message.take(message.len() as int) =~= message);
}

/// A result of the attempt counts only while the notice is held under the same token.
pub proof fn law_only_the_holder_reports(lease: LeaseView, token: Seq<char>)
    ensures
        held_under(lease, token) <==> lease.notification_status == "sending"@
            && lease.notification_claim_token == Some(token),
{
}

/// A scan goes through its leases one by one: a lease that another run holds is passed over, one
/// that was taken on is sent, and both a sent and a failed notice lead on to the next lease; only
/// a notice whose sending was recorded is counted.
pub proof fn law_a_notice_scan_goes_on(scan: NoticeScan, id: i64)
    requires
        scan.wf(),
        scan.step == NoticeStep::Claim(id) || scan.step == NoticeStep::Send(id),
    ensures
        ({
            let next = if scan.done + 1 < scan.ids@.len() {
                NoticeStep::Claim(scan.ids@[scan.done + 1])
            } else {
                NoticeStep::Finished(scan.sent)
            };
            let next_counted = if scan.done + 1 < scan.ids@.len() {
                NoticeStep::Claim(scan.ids@[scan.done + 1])
            } else {
                NoticeStep::Finished((scan.sent + 1) as usize)
            };
            &&& scan.step == NoticeStep::Claim(id) ==> {
                &&& notice_step_after(scan, NoticeEvent::Claimed(true)) == NoticeStep::Send(id)
                &&& notice_step_after(scan, NoticeEvent::Claimed(false)) == next
                &&& !ends_lease(scan, NoticeEvent::Claimed(true))
                &&& ends_lease(scan, NoticeEvent::Claimed(false))
                &&& sent_after(scan, NoticeEvent::Claimed(false)) == scan.sent
            }
            &&& scan.step == NoticeStep::Send(id) ==> {
                &&& notice_step_after(scan, NoticeEvent::Sent { recorded: true }) == next_counted
                &&& notice_step_after(scan, NoticeEvent::Sent { recorded: false }) == next
                &&& notice_step_after(scan, NoticeEvent::Failed) == next
                &&& ends_lease(scan, NoticeEvent::Sent { recorded: true })
                &&& ends_lease(scan, NoticeEvent::Sent { recorded: false })
                &&& ends_lease(scan, NoticeEvent::Failed)
                &&& sent_after(scan, NoticeEvent::Sent { recorded: true }) == scan.sent + 1
                &&& sent_after(scan, NoticeEvent::Sent { recorded: false }) == scan.sent
                &&& sent_after(scan, NoticeEvent::Failed) == scan.sent
            }
        }),
{
}

/// A scan begins with its first lease, and is over at once where there is none.
pub proof fn law_a_notice_scan_begins(ids: Seq<i64>)
    ensures
        ids.len() > 0 ==> notice_step_at(ids, 0, 0) == NoticeStep::Claim(ids[0]),
        ids.len() == 0 ==> notice_step_at(ids, 0, 0) == NoticeStep::Finished(0),
{
}

/// The notice names the customer's note without the blanks round it, or says that there is none;
/// the streamer; the agreed end; the end of the session where there was a grace; the pause; and
/// the lease. Times are those of Shanghai, eight hours ahead of UTC.
pub proof fn law_what_a_notice_says(lease: LeaseView, remark: Seq<char>)
    ensures
        ({
            let note = if trim_spec(lease.customer_note).len() == 0 {
                "（未填写）"@
            } else {
                trim_spec(lease.customer_note)
            };
            let end = clock_text(
                (lease.expires_at@ / 1_000_000_000) as i64,
                (lease.expires_at@ % 1_000_000_000) as u32,
                28800,
            );
            let pause = match lease.effective_paused_at {
                Some(at) => clock_text(
                    (at@ / 1_000_000_000) as i64,
                    (at@ % 1_000_000_000) as u32,
                    28800,
                ),
                None => "未知"@,
            };
            let grace = if lease.grace_streamer_info_id is Some
                || lease.grace_live_session_key is Some {
                "\n本场结束："@ + pause
            } else {
                Seq::<char>::empty()
            };
            notice_content(lease, remark) == "客户/需求："@ + note + "\n主播："@ + remark
                + "\n约定到期："@ + end + " (Asia/Shanghai)"@ + grace + "\n实际暂停："@ + pause
                + "\n租约事件：#"@ + signed_decimal(lease.id as int)
        }),
{
}

/// A lease that gives its place up, or is given up, changes its state and nothing else but its
/// time; the room may go on where its pause was the lease's own.
pub proof fn law_a_lease_makes_way(lease: LeaseView, now: Timestamp)
    ensures
        superseded(lease, now) == (LeaseView { state: "superseded"@, updated_at: now, ..lease }),
        cancelled(lease, now) == (LeaseView { state: "cancelled"@, updated_at: now, ..lease }),
        owns_pause(lease) <==> lease.state == "expired_paused"@ && lease.pause_owned_by_lease,
        !owns_pause(superseded(lease, now)),
        !owns_pause(cancelled(lease, now)),
        owns_pause(paused(lease, true, now)),
        !owns_pause(paused(lease, false, now)),
{
    lemma_state_names();
}

/// The grace begins with a session that asks to be let in where the lease waits, its end has come,
/// and the session goes on and began no later than the end; never otherwise.
pub proof fn law_when_asking_begins_the_grace(
    lease: Option<RecordingLease>,
    now: int,
    id: Option<i64>,
    key: Option<Seq<char>>,
    started: int,
    reused: bool,
)
    ensures
        starts_grace(lease, now, id, key, started, reused) <==> lease is Some
            && lease->0@.state == "scheduled"@ && lease->0@.expires_at@ <= now && reused && started
            <= lease->0@.expires_at@,
{
    lemma_state_names();
}

} // verus!
