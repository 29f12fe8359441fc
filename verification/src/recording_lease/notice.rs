//! The notice that a lease has ended: who sends it, what it says, and when it is tried again.
use vstd::prelude::*;

use crate::identifier::{fresh_uuid, is_fresh_form};
use crate::order::{first_keys, key_ids, ordered_ids, sorted_keys, SortKey};
use crate::recording_lease::{paused, LeaseView, RecordingLease};
use crate::text::{first_chars, own, signed_decimal, signed_decimal_text, str_eq, take_chars, trim,
    trim_spec};
use crate::time::{floor_parts, in_clock_range, Span, Timestamp, NANOS_PER_SEC};

verus! {

/// After how long a notice that is still being sent may be taken over.
pub const CLAIM_TIMEOUT_SECS: u64 = 300;

/// How many notices one scan sends.
pub const NOTICE_LIMIT: usize = 20;

/// How many characters of a failure are kept.
pub const FAILURE_CHARS: usize = 300;

/// How far the clock of the notices runs ahead of UTC, in seconds.
pub const SHANGHAI_OFFSET_SECS: i32 = 28800;

/// What `chrono` prints for the reading `secs` seconds and `nanos` nanoseconds after the epoch, on
/// a clock that runs `offset` seconds ahead, by the pattern of `format_clock`.
pub uninterp spec fn clock_text(secs: i64, nanos: u32, offset: i32) -> Seq<char>;

/// `chrono::DateTime::format` with the pattern `%Y-%m-%d %H:%M:%S`, on the reading that
/// `DateTime::from_timestamp` makes of `secs` and `nanos`, moved by `with_timezone` to a fixed
/// offset. The text is named, not described.
#[verifier::external_body]
fn format_clock(secs: i64, nanos: u32, offset: i32) -> (text: String)
    requires
        nanos < 1_000_000_000,
        in_clock_range(secs * NANOS_PER_SEC + nanos),
        -86_400 < offset < 86_400,
    ensures
        text@ == clock_text(secs, nanos, offset),
{
    let reading = chrono::DateTime::from_timestamp(secs, nanos).expect("reading in range");
    let zone = chrono::FixedOffset::east_opt(offset).expect("offset in range");
    reading.with_timezone(&zone).format("%Y-%m-%d %H:%M:%S").to_string()
}

/// A reading as the notices show it.
pub open spec fn shown_time(reading: Timestamp) -> Seq<char> {
    clock_text(
        (reading@ / NANOS_PER_SEC as int) as i64,
        (reading@ % NANOS_PER_SEC as int) as u32,
        SHANGHAI_OFFSET_SECS,
    )
}

/// A reading as the notices show it: on the clock of Shanghai.
pub fn format_shanghai(value: Timestamp) -> (text: String)
    ensures
        text@ == shown_time(value),
{
    let nanos: i128 = value.nanos();
    let (secs, part): (i64, u32) = floor_parts(nanos);
    format_clock(secs, part, SHANGHAI_OFFSET_SECS)
}

/// Whether there is an address to send notices to.
pub fn is_configured(webhook: Option<&str>) -> (yes: bool)
    ensures
        yes == (webhook matches Some(url) && trim_spec(url@).len() > 0),
{
    match webhook {
        Some(url) => trim(url).as_str().unicode_len() > 0,
        None => false,
    }
}

/// Notes that there is no address to send the notice of this lease to.
pub fn mark_not_configured(lease: &mut RecordingLease, now: Timestamp) -> (changed: bool)
    ensures
        changed == (old(lease)@.state == "expired_paused"@ && (old(lease)@.notification_status
            == "pending"@ || old(lease)@.notification_status == "failed"@)),
        final(lease)@ == (if changed {
            LeaseView {
                notification_status: "not_configured"@,
                updated_at: now,
                ..old(lease)@
            }
        } else {
            old(lease)@
        }),
{
    if !str_eq(lease.state.as_str(), "expired_paused") {
        return false;
    }
    if !str_eq(lease.notification_status.as_str(), "pending") && !str_eq(
        lease.notification_status.as_str(),
        "failed",
    ) {
        return false;
    }
    lease.notification_status = own("not_configured");
    lease.updated_at = now;
    true
}

/// Whether the notice of a lease may be taken on at `now`: it waits and its time has come, or
/// whoever took it on has been silent for too long.
pub open spec fn claimable(lease: LeaseView, now: int) -> bool {
    &&& lease.state == "expired_paused"@
    &&& {
        ||| {
            &&& lease.notification_status == "pending"@ || lease.notification_status == "failed"@
                || lease.notification_status == "not_configured"@
            &&& lease.next_notification_at matches Some(at) ==> at@ <= now
        }
        ||| {
            &&& lease.notification_status == "sending"@
            &&& lease.notification_claimed_at matches Some(at) && at@ + CLAIM_TIMEOUT_SECS
                * NANOS_PER_SEC <= now
        }
    }
}

/// Whether the notice of the lease may be taken on at `now`.
pub fn may_claim(lease: &RecordingLease, now: Timestamp) -> (yes: bool)
    ensures
        yes == claimable(lease@, now@),
{
    if !str_eq(lease.state.as_str(), "expired_paused") {
        return false;
    }
    let status: &str = lease.notification_status.as_str();
    let waits: bool = str_eq(status, "pending") || str_eq(status, "failed") || str_eq(
        status,
        "not_configured",
    );
    let come: bool = match &lease.next_notification_at {
        Some(at) => at.at_or_before(&now),
        None => true,
    };
    let silent: bool = match &lease.notification_claimed_at {
        Some(at) => now.since(at) >= 300_000_000_000i128,
        None => false,
    };
    (waits && come) || (str_eq(status, "sending") && silent)
}

/// The keys of the leases whose notice may be taken on.
pub open spec fn claimable_keys(leases: Seq<RecordingLease>, now: Timestamp) -> Seq<SortKey>
    decreases leases.len(),
{
    if leases.len() == 0 {
        Seq::<SortKey>::empty()
    } else {
        let rest = claimable_keys(leases.drop_last(), now);
        if claimable(leases.last()@, now@) {
            rest.push(SortKey { major: 0, minor: 0, id: leases.last().id })
        } else {
            rest
        }
    }
}

/// The leases whose notice one scan takes on: the oldest first, and no more than the limit.
pub fn claimable_ids(leases: &Vec<RecordingLease>, now: Timestamp) -> (ids: Vec<i64>)
    ensures
        ids@ == key_ids(first_keys(sorted_keys(claimable_keys(leases@, now)), NOTICE_LIMIT as int)),
{
    let mut keys: Vec<SortKey> = Vec::new();
    let mut i: usize = 0;
    while i < leases.len()
        invariant
            i <= leases.len(),
            keys@ == claimable_keys(leases@.take(i as int), now),
        decreases leases.len() - i,
    {
        assert(leases@.take(i + 1).drop_last() =~= leases@.take(i as int));
        if may_claim(&leases[i], now) {
            keys.push(SortKey { major: 0, minor: 0, id: leases[i].id });
        }
        i = i + 1;
    }
    assert(leases@.take(leases@.len() as int) =~= leases@);
    ordered_ids(&keys, NOTICE_LIMIT)
}

/// The lease after its notice was taken on under `token`.
pub open spec fn claimed(lease: LeaseView, token: Seq<char>, now: Timestamp) -> LeaseView {
    LeaseView {
        notification_status: "sending"@,
        notification_claim_token: Some(token),
        notification_claimed_at: Some(now),
        notification_attempts: lease.notification_attempts + 1,
        updated_at: now,
        ..lease
    }
}

/// Takes the notice of the lease on under `token`, where that may be done.
pub fn claim(lease: &mut RecordingLease, token: &str, now: Timestamp) -> (taken: bool)
    requires
        claimable(old(lease)@, now@) ==> old(lease).notification_attempts < i64::MAX,
    ensures
        taken == claimable(old(lease)@, now@),
        final(lease)@ == (if taken {
            claimed(old(lease)@, token@, now)
        } else {
            old(lease)@
        }),
{
    if !may_claim(lease, now) {
        return false;
    }
    lease.notification_status = own("sending");
    lease.notification_claim_token = Some(own(token));
    lease.notification_claimed_at = Some(now);
    lease.notification_attempts = lease.notification_attempts + 1;
    lease.updated_at = now;
    true
}

/// Takes the notice of the lease on under a fresh token, where that may be done.
pub fn claim_afresh(lease: &mut RecordingLease, now: Timestamp) -> (token: Option<String>)
    requires
        claimable(old(lease)@, now@) ==> old(lease).notification_attempts < i64::MAX,
    ensures
        token is Some == claimable(old(lease)@, now@),
        token matches Some(text) ==> is_fresh_form(text@),
        final(lease)@ == (match token {
            Some(text) => claimed(old(lease)@, text@, now),
            None => old(lease)@,
        }),
{
    let token: String = fresh_uuid();
    if claim(lease, token.as_str(), now) {
        Some(token)
    } else {
        None
    }
}

/// The title of the notice.
pub open spec fn notice_title() -> Seq<char> {
    "⏰ 客户录制到期，已暂停后续录制"@
}

/// When the room was paused, as the notice shows it.
pub open spec fn shown_pause(lease: LeaseView) -> Seq<char> {
    match lease.effective_paused_at {
        Some(at) => shown_time(at),
        None => "未知"@,
    }
}

/// The line that a session under the grace adds.
pub open spec fn grace_line(lease: LeaseView) -> Seq<char> {
    if lease.grace_streamer_info_id is Some || lease.grace_live_session_key is Some {
        "\n本场结束："@ + shown_pause(lease)
    } else {
        Seq::<char>::empty()
    }
}

/// What the notice says of the customer.
pub open spec fn shown_note(lease: LeaseView) -> Seq<char> {
    if trim_spec(lease.customer_note).len() == 0 {
        "（未填写）"@
    } else {
        trim_spec(lease.customer_note)
    }
}

/// The text of the notice.
pub open spec fn notice_content(lease: LeaseView, remark: Seq<char>) -> Seq<char> {
    "客户/需求："@ + shown_note(lease) + "\n主播："@ + remark + "\n约定到期："@ + shown_time(
        lease.expires_at,
    ) + " (Asia/Shanghai)"@ + grace_line(lease) + "\n实际暂停："@ + shown_pause(lease)
        + "\n租约事件：#"@ + signed_decimal(lease.id as int)
}

/// The title and the text of the notice of a lease of the room `remark`.
pub fn notification_message(lease: &RecordingLease, remark: &str) -> (message: (String, String))
    ensures
        message.0@ == notice_title(),
        message.1@ == notice_content(lease@, remark@),
{
    let pause: String = match lease.effective_paused_at {
        Some(at) => format_shanghai(at),
        None => own("未知"),
    };
    let trimmed: String = trim(lease.customer_note.as_str());
    let mut content: String = own("客户/需求：");
    if trimmed.as_str().unicode_len() == 0 {
        content.append("（未填写）");
    } else {
        content.append(trimmed.as_str());
    }
    content.append("\n主播：");
    content.append(remark);
    content.append("\n约定到期：");
    content.append(format_shanghai(lease.expires_at).as_str());
    content.append(" (Asia/Shanghai)");
    if lease.grace_streamer_info_id.is_some() || lease.grace_live_session_key.is_some() {
        content.append("\n本场结束：");
        content.append(pause.as_str());
    }
    content.append("\n实际暂停：");
    content.append(pause.as_str());
    content.append("\n租约事件：#");
    content.append(signed_decimal_text(lease.id).as_str());
    assert(content@ =~= notice_content(lease@, remark@));
    (own("⏰ 客户录制到期，已暂停后续录制"), content)
}

/// After how many seconds a notice is tried again, by how often it was tried.
pub open spec fn retry_secs(attempts: int) -> int {
    if attempts == 0 || attempts == 1 {
        60
    } else if attempts == 2 {
        300
    } else if attempts == 3 {
        900
    } else {
        3600
    }
}

/// After how long a notice is tried again, by how often it was tried.
pub fn notification_retry_delay(attempts: i64) -> (delay: Span)
    ensures
        delay@ == retry_secs(attempts as int) * NANOS_PER_SEC,
{
    if attempts == 0 || attempts == 1 {
        Span::from_secs(60)
    } else if attempts == 2 {
        Span::from_secs(300)
    } else if attempts == 3 {
        Span::from_secs(900)
    } else {
        Span::from_secs(3600)
    }
}

/// Whether the notice of a lease is still taken on under `token`.
pub open spec fn held_under(lease: LeaseView, token: Seq<char>) -> bool {
    lease.notification_status == "sending"@ && lease.notification_claim_token == Some(token)
}

/// The lease after its notice was sent.
pub open spec fn sent(lease: LeaseView, at: Timestamp) -> LeaseView {
    LeaseView {
        notification_status: "sent"@,
        notified_at: Some(at),
        next_notification_at: None,
        last_notification_error: None,
        updated_at: at,
        ..lease
    }
}

fn still_held(lease: &RecordingLease, token: &str) -> (yes: bool)
    ensures
        yes == held_under(lease@, token@),
{
    let same: bool = match &lease.notification_claim_token {
        Some(held) => str_eq(held.as_str(), token),
        None => false,
    };
    str_eq(lease.notification_status.as_str(), "sending") && same
}

/// Notes that the notice was sent, where it is still taken on under `token`.
pub fn record_sent(lease: &mut RecordingLease, token: &str, at: Timestamp) -> (changed: bool)
    ensures
        changed == held_under(old(lease)@, token@),
        final(lease)@ == (if changed {
            sent(old(lease)@, at)
        } else {
            old(lease)@
        }),
{
    if !still_held(lease, token) {
        return false;
    }
    lease.notification_status = own("sent");
    lease.notified_at = Some(at);
    lease.next_notification_at = None;
    lease.last_notification_error = None;
    lease.updated_at = at;
    true
}

/// Whether `at` is when the notice of `lease` is tried again after it failed at `now`.
pub open spec fn retried_at(lease: LeaseView, now: Timestamp, at: Timestamp) -> bool {
    at@ == now@ + retry_secs(lease.notification_attempts) * NANOS_PER_SEC
}

/// The lease after its notice could not be sent.
pub open spec fn failed(
    lease: LeaseView,
    message: Seq<char>,
    retry_at: Timestamp,
    now: Timestamp,
) -> LeaseView {
    LeaseView {
        notification_status: "failed"@,
        next_notification_at: Some(retry_at),
        last_notification_error: Some(first_chars(message, FAILURE_CHARS as int)),
        notification_claim_token: None,
        notification_claimed_at: None,
        updated_at: now,
        ..lease
    }
}

/// Notes that the notice could not be sent, where it is still taken on under `token`, and says
/// when it is tried again.
pub fn record_failure(
    lease: &mut RecordingLease,
    token: &str,
    message: &str,
    now: Timestamp,
) -> (retry_at: Timestamp)
    requires
        in_clock_range(
            now@ + retry_secs(old(lease)@.notification_attempts) * NANOS_PER_SEC,
        ),
    ensures
        retried_at(old(lease)@, now, retry_at),
        final(lease)@ == (if held_under(old(lease)@, token@) {
            failed(old(lease)@, message@, retry_at, now)
        } else {
            old(lease)@
        }),
{
    let retry_at: Timestamp = now.plus(&notification_retry_delay(lease.notification_attempts));
    if still_held(lease, token) {
        lease.notification_status = own("failed");
        lease.next_notification_at = Some(retry_at);
        lease.last_notification_error = Some(take_chars(message, FAILURE_CHARS));
        lease.notification_claim_token = None;
        lease.notification_claimed_at = None;
        lease.updated_at = now;
    }
    retry_at
}

/// What a scan of the notices has to do next.
#[derive(Clone, Copy, Debug, PartialEq, Eq, Structural)]
pub enum NoticeStep {
    /// Note on every lease that there is no address.
    NoteNotConfigured,
    /// Take the notice of this lease on.
    Claim(i64),
    /// Send the notice of this lease, which was taken on.
    Send(i64),
    /// The scan is over and has sent so many notices.
    Finished(usize),
}

/// What came of a step.
#[derive(Clone, Copy, Debug, PartialEq, Eq, Structural)]
pub enum NoticeEvent {
    /// The leases were noted to have no address.
    Noted,
    /// The notice was taken on, or another has it.
    Claimed(bool),
    /// The notice went out; `recorded` says whether it was still held under the scan's token.
    Sent { recorded: bool },
    /// The notice could not be sent.
    Failed,
}

/// A scan of the notices.
pub struct NoticeScan {
    pub ids: Vec<i64>,
    /// How many of the leases the scan is done with.
    pub done: usize,
    pub sent: usize,
    pub step: NoticeStep,
}

/// The step at the lease behind the `done` that the scan is done with.
pub open spec fn notice_step_at(ids: Seq<i64>, done: int, sent: int) -> NoticeStep {
    if done < ids.len() {
        NoticeStep::Claim(ids[done])
    } else {
        NoticeStep::Finished(sent as usize)
    }
}

/// How many notices are sent after `event`.
pub open spec fn sent_after(scan: NoticeScan, event: NoticeEvent) -> int {
    match (scan.step, event) {
        (NoticeStep::Send(_), NoticeEvent::Sent { recorded: true }) => scan.sent + 1,
        _ => scan.sent as int,
    }
}

/// Whether `event` ends the work on the lease at hand.
pub open spec fn ends_lease(scan: NoticeScan, event: NoticeEvent) -> bool {
    match (scan.step, event) {
        (NoticeStep::Claim(_), NoticeEvent::Claimed(false)) => true,
        (NoticeStep::Send(_), NoticeEvent::Sent { .. }) => true,
        (NoticeStep::Send(_), NoticeEvent::Failed) => true,
        _ => false,
    }
}

/// The step after `event`; an event that the step does not wait for changes nothing.
pub open spec fn notice_step_after(scan: NoticeScan, event: NoticeEvent) -> NoticeStep {
    match (scan.step, event) {
        (NoticeStep::NoteNotConfigured, NoticeEvent::Noted) => NoticeStep::Finished(0),
        (NoticeStep::Claim(id), NoticeEvent::Claimed(true)) => NoticeStep::Send(id),
        _ => if ends_lease(scan, event) {
            notice_step_at(scan.ids@, scan.done + 1, sent_after(scan, event))
        } else {
            scan.step
        },
    }
}

impl NoticeScan {
    /// What holds of every scan: it sends no more than one notice for each lease it is done with.
    pub open spec fn wf(self) -> bool {
        &&& self.sent <= self.done <= self.ids.len()
        &&& match self.step {
            NoticeStep::NoteNotConfigured => self.done == 0 && self.ids.len() == 0,
            NoticeStep::Claim(id) => self.done < self.ids.len() && id == self.ids@[self.done as int],
            NoticeStep::Send(id) => self.done < self.ids.len() && id == self.ids@[self.done as int],
            NoticeStep::Finished(count) => count == self.sent && self.done == self.ids.len(),
        }
    }

    /// Begins a scan: without an address nothing is sent.
    pub fn begin(webhook: Option<&str>, leases: &Vec<RecordingLease>, now: Timestamp) -> (scan:
        NoticeScan)
        ensures
            scan.wf(),
            scan.sent == 0,
            scan.done == 0,
            if webhook matches Some(url) && trim_spec(url@).len() > 0 {
                &&& scan.ids@ == key_ids(
                    first_keys(sorted_keys(claimable_keys(leases@, now)), NOTICE_LIMIT as int),
                )
                &&& scan.step == notice_step_at(scan.ids@, 0, 0)
            } else {
                scan.ids@.len() == 0 && scan.step == NoticeStep::NoteNotConfigured
            },
    {
        if !is_configured(webhook) {
            return NoticeScan {
                ids: Vec::new(),
                done: 0,
                sent: 0,
                step: NoticeStep::NoteNotConfigured,
            };
        }
        let ids: Vec<i64> = claimable_ids(leases, now);
        let step: NoticeStep = if ids.len() > 0 {
            NoticeStep::Claim(ids[0])
        } else {
            NoticeStep::Finished(0)
        };
        NoticeScan { ids, done: 0, sent: 0, step }
    }
}

/// Goes on with a scan after `event`. A lease whose notice another took on is passed over, and a
/// notice counts as sent only where the scan still held it when it went out.
pub fn scan_recording_lease_notifications(scan: &mut NoticeScan, event: NoticeEvent)
    requires
        old(scan).wf(),
    ensures
        final(scan).wf(),
        final(scan).ids@ == old(scan).ids@,
        final(scan).sent == sent_after(*old(scan), event),
        final(scan).done == old(scan).done + (if ends_lease(*old(scan), event) {
            1int
        } else {
            0
        }),
        final(scan).step == notice_step_after(*old(scan), event),
{
    match (scan.step, event) {
        (NoticeStep::NoteNotConfigured, NoticeEvent::Noted) => {
            scan.step = NoticeStep::Finished(0);
        },
        (NoticeStep::Claim(id), NoticeEvent::Claimed(true)) => {
            scan.step = NoticeStep::Send(id);
        },
        (NoticeStep::Claim(_), NoticeEvent::Claimed(false)) => {
            scan.advance();
        },
        (NoticeStep::Send(_), NoticeEvent::Sent { recorded }) => {
            if recorded {
                scan.sent = scan.sent + 1;
            }
            scan.advance();
        },
        (NoticeStep::Send(_), NoticeEvent::Failed) => {
            scan.advance();
        },
        _ => {},
    }
}

impl NoticeScan {
    fn advance(&mut self)
        requires
            old(self).done < old(self).ids.len(),
            old(self).sent <= old(self).done + 1,
        ensures
            final(self).ids@ == old(self).ids@,
            final(self).sent == old(self).sent,
            final(self).done == old(self).done + 1,
            final(self).step == notice_step_at(
                old(self).ids@,
                old(self).done + 1,
                old(self).sent as int,
            ),
    {
        self.done = self.done + 1;
        self.step =
        if self.done < self.ids.len() {
            NoticeStep::Claim(self.ids[self.done])
        } else {
            NoticeStep::Finished(self.sent)
        };
    }
}

proof fn lemma_status_names()
    ensures
        "sent"@ != "pending"@,
        "sent"@ != "failed"@,
        "sent"@ != "not_configured"@,
        "sent"@ != "sending"@,
        "sending"@ != "pending"@,
        "sending"@ != "failed"@,
        "sending"@ != "not_configured"@,
        "failed"@ != "pending"@,
{
    reveal_strlit("sent");
    reveal_strlit("pending");
    reveal_strlit("failed");
    reveal_strlit("not_configured");
    reveal_strlit("sending");
    assert("sent"@.len() == 4);
    assert("pending"@.len() == 7);
    assert("failed"@.len() == 6);
    assert("not_configured"@.len() == 14);
    assert("sending"@.len() == 7);
    assert("sending"@[0] != "pending"@[0]);
}

/// Every end of a lease is told of: its notice can be taken on from the end on, and not before.
pub proof fn law_every_end_is_told(lease: LeaseView, owned: bool, now: Timestamp, later: int)
    ensures
        claimable(paused(lease, owned, now), later) <==> now@ <= later,
{
    lemma_status_names();
}

/// A notice that was sent is never taken on again, at any time.
pub proof fn law_a_sent_notice_is_not_sent_again(lease: LeaseView, at: Timestamp, later: int)
    ensures
        !claimable(sent(lease, at), later),
{
    lemma_status_names();
}

/// A notice that was taken on is not taken on by another until the one that has it was silent for
/// the whole time that it has.
pub proof fn law_a_taken_notice_is_left_alone(
    lease: LeaseView,
    token: Seq<char>,
    now: Timestamp,
    later: int,
)
    requires
        claimable(lease, now@),
    ensures
        claimable(claimed(lease, token, now), later) <==> now@ + CLAIM_TIMEOUT_SECS * NANOS_PER_SEC
            <= later,
{
    lemma_status_names();
}

/// Whoever lost a notice to another changes nothing of it any more.
pub proof fn law_a_lost_claim_is_powerless(
    lease: LeaseView,
    mine: Seq<char>,
    theirs: Seq<char>,
    now: Timestamp,
)
    requires
        mine != theirs,
    ensures
        !held_under(claimed(lease, theirs, now), mine),
        held_under(claimed(lease, theirs, now), theirs),
{
}

/// A notice that failed is tried again from the end of its delay on, and not before.
pub proof fn law_a_failed_notice_waits(
    lease: LeaseView,
    message: Seq<char>,
    retry_at: Timestamp,
    now: Timestamp,
    later: int,
)
    requires
        lease.state == "expired_paused"@,
        retried_at(lease, now, retry_at),
    ensures
        claimable(failed(lease, message, retry_at, now), later) <==> now@ + retry_secs(
            lease.notification_attempts,
        ) * NANOS_PER_SEC <= later,
{
    lemma_status_names();
    reveal_strlit("sending");
}

} // verus!
