//! How long a room is recorded for: a lease with an end, a grace for the session that is running
//! at that end, and a notice that is sent once.
use vstd::prelude::*;

use crate::order::{key_ids, ordered_ids, sorted_keys, SortKey};
use crate::text::{opt_own, opt_view, own, str_eq};
use crate::time::Timestamp;

pub mod notice;
pub mod replacement;

verus! {

/// The state of a lease.
#[derive(Clone, Copy, Debug, PartialEq, Eq, Structural)]
pub enum RecordingLeaseState {
    Scheduled,
    GraceCurrentSession,
    ExpiredPaused,
    Superseded,
    Cancelled,
}

/// The name under which a state is stored.
pub open spec fn state_name(state: RecordingLeaseState) -> Seq<char> {
    match state {
        RecordingLeaseState::Scheduled => "scheduled"@,
        RecordingLeaseState::GraceCurrentSession => "grace_current_session"@,
        RecordingLeaseState::ExpiredPaused => "expired_paused"@,
        RecordingLeaseState::Superseded => "superseded"@,
        RecordingLeaseState::Cancelled => "cancelled"@,
    }
}

/// The state that a stored name stands for.
pub open spec fn named_state(name: Seq<char>) -> Option<RecordingLeaseState> {
    if name == "scheduled"@ {
        Some(RecordingLeaseState::Scheduled)
    } else if name == "grace_current_session"@ {
        Some(RecordingLeaseState::GraceCurrentSession)
    } else if name == "expired_paused"@ {
        Some(RecordingLeaseState::ExpiredPaused)
    } else if name == "superseded"@ {
        Some(RecordingLeaseState::Superseded)
    } else if name == "cancelled"@ {
        Some(RecordingLeaseState::Cancelled)
    } else {
        None
    }
}

/// Whether a state holds the room's one place for a lease.
pub open spec fn is_active(state: Seq<char>) -> bool {
    state == "scheduled"@ || state == "grace_current_session"@ || state == "expired_paused"@
}

pub(crate) proof fn lemma_state_names()
    ensures
        "scheduled"@ != "grace_current_session"@,
        "scheduled"@ != "expired_paused"@,
        "scheduled"@ != "superseded"@,
        "scheduled"@ != "cancelled"@,
        "grace_current_session"@ != "expired_paused"@,
        "grace_current_session"@ != "superseded"@,
        "grace_current_session"@ != "cancelled"@,
        "expired_paused"@ != "superseded"@,
        "expired_paused"@ != "cancelled"@,
        "superseded"@ != "cancelled"@,
{
    reveal_strlit("scheduled");
    reveal_strlit("grace_current_session");
    reveal_strlit("expired_paused");
    reveal_strlit("superseded");
    reveal_strlit("cancelled");
    assert("scheduled"@[0] != "cancelled"@[0]);
    assert("scheduled"@.len() == 9);
    assert("superseded"@.len() == 10);
    assert("expired_paused"@.len() == 14);
    assert("grace_current_session"@.len() == 21);
}

/// A state that is stored under its name is read back.
pub proof fn law_stored_state_is_read_back(state: RecordingLeaseState)
    ensures
        named_state(state_name(state)) == Some(state),
{
    lemma_state_names();
}

/// Why a request on a lease is refused.
pub enum LeaseError {
    /// The stored state has no known name.
    UnknownState(String),
    /// The lease was changed by someone else meanwhile.
    ChangedElsewhere,
    /// There is no such lease.
    NotFound,
    /// The lease was replaced by a later one.
    Replaced,
}

impl LeaseError {
    /// The text that is shown for a refusal.
    pub open spec fn text(self) -> Seq<char> {
        match self {
            LeaseError::UnknownState(name) => "未知录制租约状态："@ + name@,
            LeaseError::ChangedElsewhere => "录制期限已被其他页面更新，请刷新后重试"@,
            LeaseError::NotFound => "录制期限不存在"@,
            LeaseError::Replaced => "该录制期限已被替换，请刷新后重试"@,
        }
    }

    /// The text that is shown for a refusal.
    pub fn message(&self) -> (text: String)
        ensures
            text@ == self.text(),
    {
        match self {
            LeaseError::UnknownState(name) => {
                let mut text: String = own("未知录制租约状态：");
                text.append(name.as_str());
                text
            },
            LeaseError::ChangedElsewhere => own("录制期限已被其他页面更新，请刷新后重试"),
            LeaseError::NotFound => own("录制期限不存在"),
            LeaseError::Replaced => own("该录制期限已被替换，请刷新后重试"),
        }
    }
}

impl RecordingLeaseState {
    /// The name under which the state is stored.
    pub fn as_str(self) -> (name: &'static str)
        ensures
            name@ == state_name(self),
    {
        match self {
            RecordingLeaseState::Scheduled => "scheduled",
            RecordingLeaseState::GraceCurrentSession => "grace_current_session",
            RecordingLeaseState::ExpiredPaused => "expired_paused",
            RecordingLeaseState::Superseded => "superseded",
            RecordingLeaseState::Cancelled => "cancelled",
        }
    }

    /// The state that a stored name stands for.
    pub fn parse(value: &str) -> (state: Result<RecordingLeaseState, LeaseError>)
        ensures
            match state {
                Ok(found) => named_state(value@) == Some(found),
                Err(error) => named_state(value@) is None && (error matches LeaseError::UnknownState(
                    name,
                ) && name@ == value@),
            },
    {
        if str_eq(value, "scheduled") {
            Ok(RecordingLeaseState::Scheduled)
        } else if str_eq(value, "grace_current_session") {
            Ok(RecordingLeaseState::GraceCurrentSession)
        } else if str_eq(value, "expired_paused") {
            Ok(RecordingLeaseState::ExpiredPaused)
        } else if str_eq(value, "superseded") {
            Ok(RecordingLeaseState::Superseded)
        } else if str_eq(value, "cancelled") {
            Ok(RecordingLeaseState::Cancelled)
        } else {
            Err(LeaseError::UnknownState(own(value)))
        }
    }
}

/// A lease as it is stored.
pub struct RecordingLease {
    pub id: i64,
    pub live_streamer_id: i64,
    pub expires_at: Timestamp,
    pub customer_note: String,
    pub state: String,
    pub grace_streamer_info_id: Option<i64>,
    pub grace_live_session_key: Option<String>,
    pub pause_owned_by_lease: bool,
    pub effective_paused_at: Option<Timestamp>,
    pub notification_status: String,
    pub notification_claim_token: Option<String>,
    pub notification_claimed_at: Option<Timestamp>,
    pub notification_attempts: i64,
    pub next_notification_at: Option<Timestamp>,
    pub last_notification_error: Option<String>,
    pub notified_at: Option<Timestamp>,
    pub created_at: Timestamp,
    pub updated_at: Timestamp,
}

/// A lease as a mathematical value.
pub ghost struct LeaseView {
    pub id: i64,
    pub live_streamer_id: i64,
    pub expires_at: Timestamp,
    pub customer_note: Seq<char>,
    pub state: Seq<char>,
    pub grace_streamer_info_id: Option<i64>,
    pub grace_live_session_key: Option<Seq<char>>,
    pub pause_owned_by_lease: bool,
    pub effective_paused_at: Option<Timestamp>,
    pub notification_status: Seq<char>,
    pub notification_claim_token: Option<Seq<char>>,
    pub notification_claimed_at: Option<Timestamp>,
    pub notification_attempts: int,
    pub next_notification_at: Option<Timestamp>,
    pub last_notification_error: Option<Seq<char>>,
    pub notified_at: Option<Timestamp>,
    pub created_at: Timestamp,
    pub updated_at: Timestamp,
}

impl View for RecordingLease {
    type V = LeaseView;

    open spec fn view(&self) -> LeaseView {
        LeaseView {
            id: self.id,
            live_streamer_id: self.live_streamer_id,
            expires_at: self.expires_at,
            customer_note: self.customer_note@,
            state: self.state@,
            grace_streamer_info_id: self.grace_streamer_info_id,
            grace_live_session_key: opt_view(self.grace_live_session_key),
            pause_owned_by_lease: self.pause_owned_by_lease,
            effective_paused_at: self.effective_paused_at,
            notification_status: self.notification_status@,
            notification_claim_token: opt_view(self.notification_claim_token),
            notification_claimed_at: self.notification_claimed_at,
            notification_attempts: self.notification_attempts as int,
            next_notification_at: self.next_notification_at,
            last_notification_error: opt_view(self.last_notification_error),
            notified_at: self.notified_at,
            created_at: self.created_at,
            updated_at: self.updated_at,
        }
    }
}

/// What is shown of a lease.
pub struct RecordingLeaseProjection {
    pub id: i64,
    pub expires_at: Timestamp,
    pub customer_note: String,
    pub state: String,
    pub effective_paused_at: Option<Timestamp>,
    pub notification_status: String,
    pub last_notification_error: Option<String>,
    pub notified_at: Option<Timestamp>,
}

impl RecordingLease {
    /// The state of the lease.
    pub fn parsed_state(&self) -> (state: Result<RecordingLeaseState, LeaseError>)
        ensures
            match state {
                Ok(found) => named_state(self@.state) == Some(found),
                Err(error) => named_state(self@.state) is None && (
                error matches LeaseError::UnknownState(name) && name@ == self@.state),
            },
    {
        RecordingLeaseState::parse(self.state.as_str())
    }

    /// What is shown of the lease.
    pub fn projection(&self) -> (shown: RecordingLeaseProjection)
        ensures
            shown.id == self.id,
            shown.expires_at == self.expires_at,
            shown.customer_note@ == self.customer_note@,
            shown.state@ == self.state@,
            shown.effective_paused_at == self.effective_paused_at,
            shown.notification_status@ == self.notification_status@,
            shown.last_notification_error == self.last_notification_error,
            shown.notified_at == self.notified_at,
    {
        RecordingLeaseProjection {
            id: self.id,
            expires_at: self.expires_at,
            customer_note: own(self.customer_note.as_str()),
            state: own(self.state.as_str()),
            effective_paused_at: self.effective_paused_at,
            notification_status: own(self.notification_status.as_str()),
            last_notification_error: opt_own(&self.last_notification_error),
            notified_at: self.notified_at,
        }
    }
}

/// The session that a room records now.
pub struct ActiveRecordingSnapshot {
    pub streamer_info_id: i64,
    pub live_session_key: Option<String>,
    pub recording_started_at: Timestamp,
}

/// What is to be done with a lease.
#[derive(Clone, Copy, Debug, PartialEq, Eq, Structural)]
pub enum DueAction {
    NotDue,
    GraceCurrentSession,
    Pause,
}

/// What is to be done with a lease: it is due from its end on, and a session that began no later
/// than the end may finish.
pub open spec fn due(expires: int, now: int, started: Option<int>) -> DueAction {
    if now < expires {
        DueAction::NotDue
    } else if started matches Some(at) && at <= expires {
        DueAction::GraceCurrentSession
    } else {
        DueAction::Pause
    }
}

/// When the session that a room records now began.
pub open spec fn started_at(active: Option<&ActiveRecordingSnapshot>) -> Option<int> {
    match active {
        Some(session) => Some(session.recording_started_at@),
        None => None,
    }
}

/// What is to be done with a lease that ends at `expires_at`.
pub fn due_action(
    expires_at: Timestamp,
    now: Timestamp,
    active: Option<&ActiveRecordingSnapshot>,
) -> (action: DueAction)
    ensures
        action == due(expires_at@, now@, started_at(active)),
{
    if !expires_at.at_or_before(&now) {
        return DueAction::NotDue;
    }
    match active {
        Some(session) => if session.recording_started_at.at_or_before(&expires_at) {
            DueAction::GraceCurrentSession
        } else {
            DueAction::Pause
        },
        None => DueAction::Pause,
    }
}

/// Whether two sessions are one: by their ids where both have one, or by their keys where both
/// have one that is not empty.
pub open spec fn one_session(
    expected_id: Option<i64>,
    expected_key: Option<Seq<char>>,
    actual_id: Option<i64>,
    actual_key: Option<Seq<char>>,
) -> bool {
    ||| expected_id is Some && expected_id == actual_id
    ||| expected_key matches Some(key) && key.len() > 0 && expected_key == actual_key
}

/// The text of a reference that may be absent.
pub open spec fn str_view(text: Option<&str>) -> Option<Seq<char>> {
    match text {
        Some(text) => Some(text@),
        None => None,
    }
}

fn same_session(
    expected_id: Option<i64>,
    expected_key: &Option<String>,
    actual_id: Option<i64>,
    actual_key: Option<&str>,
) -> (same: bool)
    ensures
        same == one_session(expected_id, opt_view(*expected_key), actual_id, str_view(actual_key)),
{
    let same_id: bool = match (expected_id, actual_id) {
        (Some(a), Some(b)) => a == b,
        _ => false,
    };
    let same_key: bool = match (expected_key, actual_key) {
        (Some(a), Some(b)) => a.as_str().unicode_len() > 0 && str_eq(a.as_str(), b),
        _ => false,
    };
    same_id || same_key
}

/// Whether a session may be recorded.
#[derive(Clone, Copy, Debug, PartialEq, Eq, Structural)]
pub enum AdmissionDecision {
    Allow,
    AllowAndStartGrace,
    Block,
}

/// Whether a session may be recorded under a lease in `state`.
pub open spec fn admission(
    lease: LeaseView,
    state: RecordingLeaseState,
    now: int,
    id: Option<i64>,
    key: Option<Seq<char>>,
    started: int,
    reused: bool,
) -> AdmissionDecision {
    match state {
        RecordingLeaseState::Scheduled => if now < lease.expires_at@ {
            AdmissionDecision::Allow
        } else if reused && started <= lease.expires_at@ {
            AdmissionDecision::AllowAndStartGrace
        } else {
            AdmissionDecision::Block
        },
        RecordingLeaseState::GraceCurrentSession => if one_session(
            lease.grace_streamer_info_id,
            lease.grace_live_session_key,
            id,
            key,
        ) {
            AdmissionDecision::Allow
        } else {
            AdmissionDecision::Block
        },
        RecordingLeaseState::ExpiredPaused => AdmissionDecision::Block,
        RecordingLeaseState::Superseded => AdmissionDecision::Allow,
        RecordingLeaseState::Cancelled => AdmissionDecision::Allow,
    }
}

/// Whether a session may be recorded under `lease`.
pub fn admission_decision(
    lease: &RecordingLease,
    now: Timestamp,
    candidate_id: Option<i64>,
    candidate_key: Option<&str>,
    candidate_started_at: Timestamp,
    is_reused: bool,
) -> (decision: Result<AdmissionDecision, LeaseError>)
    ensures
        match decision {
            Ok(found) => named_state(lease@.state) matches Some(state) && found == admission(
                lease@,
                state,
                now@,
                candidate_id,
                str_view(candidate_key),
                candidate_started_at@,
                is_reused,
            ),
            Err(error) => named_state(lease@.state) is None && (
            error matches LeaseError::UnknownState(name) && name@ == lease@.state),
        },
{
    let state: RecordingLeaseState = match lease.parsed_state() {
        Ok(state) => state,
        Err(error) => {
            return Err(error);
        },
    };
    Ok(
        match state {
            RecordingLeaseState::Scheduled => if !lease.expires_at.at_or_before(&now) {
                AdmissionDecision::Allow
            } else if is_reused && candidate_started_at.at_or_before(&lease.expires_at) {
                AdmissionDecision::AllowAndStartGrace
            } else {
                AdmissionDecision::Block
            },
            RecordingLeaseState::GraceCurrentSession => if same_session(
                lease.grace_streamer_info_id,
                &lease.grace_live_session_key,
                candidate_id,
                candidate_key,
            ) {
                AdmissionDecision::Allow
            } else {
                AdmissionDecision::Block
            },
            RecordingLeaseState::ExpiredPaused => AdmissionDecision::Block,
            RecordingLeaseState::Superseded => AdmissionDecision::Allow,
            RecordingLeaseState::Cancelled => AdmissionDecision::Allow,
        },
    )
}

/// From its end on, a lease lets in no session but one that began before: neither a fresh one nor
/// another than the one that has the grace.
pub proof fn law_no_new_session_after_the_end(
    lease: LeaseView,
    state: RecordingLeaseState,
    now: int,
    id: Option<i64>,
    key: Option<Seq<char>>,
    started: int,
    reused: bool,
)
    requires
        state == RecordingLeaseState::Scheduled || state == RecordingLeaseState::GraceCurrentSession
            || state == RecordingLeaseState::ExpiredPaused,
        now >= lease.expires_at@,
        admission(lease, state, now, id, key, started, reused) != AdmissionDecision::Block,
    ensures
        state != RecordingLeaseState::ExpiredPaused,
        state == RecordingLeaseState::Scheduled ==> reused && started <= lease.expires_at@,
        state == RecordingLeaseState::GraceCurrentSession ==> one_session(
            lease.grace_streamer_info_id,
            lease.grace_live_session_key,
            id,
            key,
        ),
{
}

/// The lease after a grace was given to `session`.
pub open spec fn graced(
    lease: LeaseView,
    id: Option<i64>,
    key: Option<Seq<char>>,
    now: Timestamp,
) -> LeaseView {
    LeaseView {
        state: "grace_current_session"@,
        grace_streamer_info_id: id,
        grace_live_session_key: key,
        updated_at: now,
        ..lease
    }
}

/// Whether a grace can be given: the lease is still waiting and its end has come.
pub open spec fn may_grace(lease: LeaseView, now: Timestamp) -> bool {
    lease.state == "scheduled"@ && lease.expires_at@ <= now@
}

/// Gives the grace to `session`, where the lease is still waiting and its end has come.
pub fn start_grace(
    lease: &mut RecordingLease,
    session: &ActiveRecordingSnapshot,
    now: Timestamp,
) -> (changed: bool)
    ensures
        changed == may_grace(old(lease)@, now),
        final(lease)@ == (if changed {
            graced(
                old(lease)@,
                Some(session.streamer_info_id),
                opt_view(session.live_session_key),
                now,
            )
        } else {
            old(lease)@
        }),
{
    if !str_eq(lease.state.as_str(), "scheduled") || !lease.expires_at.at_or_before(&now) {
        return false;
    }
    lease.state = own("grace_current_session");
    lease.grace_streamer_info_id = Some(session.streamer_info_id);
    lease.grace_live_session_key = opt_own(&session.live_session_key);
    lease.updated_at = now;
    true
}

/// The lease after it ended and the room was paused.
pub open spec fn paused(lease: LeaseView, owned: bool, now: Timestamp) -> LeaseView {
    LeaseView {
        state: "expired_paused"@,
        pause_owned_by_lease: owned,
        effective_paused_at: Some(now),
        notification_status: "pending"@,
        next_notification_at: Some(now),
        notification_claim_token: None,
        notification_claimed_at: None,
        updated_at: now,
        ..lease
    }
}

/// Ends the lease, where it still stands in `from_state`. A notice becomes due at once.
pub fn transition_to_expired_paused(
    lease: &mut RecordingLease,
    from_state: &str,
    pause_owned_by_lease: bool,
    now: Timestamp,
) -> (changed: bool)
    ensures
        changed == (old(lease)@.state == from_state@),
        final(lease)@ == (if changed {
            paused(old(lease)@, pause_owned_by_lease, now)
        } else {
            old(lease)@
        }),
{
    if !str_eq(lease.state.as_str(), from_state) {
        return false;
    }
    lease.state = own("expired_paused");
    lease.pause_owned_by_lease = pause_owned_by_lease;
    lease.effective_paused_at = Some(now);
    lease.notification_status = own("pending");
    lease.next_notification_at = Some(now);
    lease.notification_claim_token = None;
    lease.notification_claimed_at = None;
    lease.updated_at = now;
    true
}

/// The keys of the leases that a scan has to look at.
pub open spec fn due_keys(leases: Seq<RecordingLease>, now: Timestamp) -> Seq<SortKey>
    decreases leases.len(),
{
    if leases.len() == 0 {
        Seq::<SortKey>::empty()
    } else {
        let rest = due_keys(leases.drop_last(), now);
        let lease = leases.last();
        if may_grace(lease@, now) {
            rest.push(SortKey { major: lease.expires_at@ as i128, minor: 0, id: lease.id })
        } else {
            rest
        }
    }
}

/// The leases that a scan has to look at: those that wait and whose end has come, the earliest end
/// first.
pub fn due_lease_ids(leases: &Vec<RecordingLease>, now: Timestamp) -> (ids: Vec<i64>)
    ensures
        ids@ == key_ids(sorted_keys(due_keys(leases@, now))),
{
    let mut keys: Vec<SortKey> = Vec::new();
    let mut i: usize = 0;
    while i < leases.len()
        invariant
            i <= leases.len(),
            keys@ == due_keys(leases@.take(i as int), now),
            keys.len() <= i,
        decreases leases.len() - i,
    {
        assert(leases@.take(i + 1).drop_last() =~= leases@.take(i as int));
        let lease: &RecordingLease = &leases[i];
        if str_eq(lease.state.as_str(), "scheduled") && lease.expires_at.at_or_before(&now) {
            keys.push(SortKey { major: lease.expires_at.nanos(), minor: 0, id: lease.id });
        }
        i = i + 1;
    }
    assert(leases@.take(leases@.len() as int) =~= leases@);
    proof {
        crate::order::law_ordering_only_reorders(keys@);
    }
    ordered_ids(&keys, keys.len())
}

/// What a scan did with a lease.
#[derive(Clone, Copy, Debug, PartialEq, Eq, Structural)]
pub enum DueOutcome {
    /// The room is not there: the lease waits for the next scan.
    WorkerUnavailable,
    Unchanged,
    GraceStarted,
    /// The room is to be paused.
    Paused,
}

/// What the scan knows of a room.
pub struct RoomState {
    pub active: Option<ActiveRecordingSnapshot>,
    /// Whether the room was paused by hand.
    pub paused: bool,
}

/// What a scan does with a lease, by what it knows of the room.
pub open spec fn settled(lease: LeaseView, room: Option<RoomState>, now: Timestamp) -> (
    LeaseView,
    DueOutcome,
) {
    match room {
        None => (lease, DueOutcome::WorkerUnavailable),
        Some(room) => match (due(
            lease.expires_at@,
            now@,
            match room.active {
                Some(session) => Some(session.recording_started_at@),
                None => None,
            },
        ), room.active) {
            (DueAction::GraceCurrentSession, Some(session)) => if may_grace(lease, now) {
                (
                    graced(
                        lease,
                        Some(session.streamer_info_id),
                        opt_view(session.live_session_key),
                        now,
                    ),
                    DueOutcome::GraceStarted,
                )
            } else {
                (lease, DueOutcome::Unchanged)
            },
            (DueAction::Pause, _) => if lease.state == "scheduled"@ {
                (paused(lease, !room.paused, now), DueOutcome::Paused)
            } else {
                (lease, DueOutcome::Unchanged)
            },
            _ => (lease, DueOutcome::Unchanged),
        },
    }
}

/// One step of the scan: what is done with one lease, by what is known of its room.
pub fn scan_due_recording_leases(
    lease: &mut RecordingLease,
    room: &Option<RoomState>,
    now: Timestamp,
) -> (outcome: DueOutcome)
    ensures
        (final(lease)@, outcome) == settled(old(lease)@, *room, now),
{
    let room: &RoomState = match room {
        Some(room) => room,
        None => {
            return DueOutcome::WorkerUnavailable;
        },
    };
    let active: Option<&ActiveRecordingSnapshot> = match &room.active {
        Some(session) => Some(session),
        None => None,
    };
    match due_action(lease.expires_at, now, active) {
        DueAction::NotDue => DueOutcome::Unchanged,
        DueAction::GraceCurrentSession => match &room.active {
            Some(session) => if start_grace(lease, session, now) {
                DueOutcome::GraceStarted
            } else {
                DueOutcome::Unchanged
            },
            None => DueOutcome::Unchanged,
        },
        DueAction::Pause => if transition_to_expired_paused(lease, "scheduled", !room.paused, now) {
            DueOutcome::Paused
        } else {
            DueOutcome::Unchanged
        },
    }
}

/// A scan that looks at a lease twice does nothing the second time.
pub proof fn law_a_second_scan_changes_nothing(
    lease: LeaseView,
    room: Option<RoomState>,
    again: Option<RoomState>,
    now: Timestamp,
    later: Timestamp,
)
    requires
        settled(lease, room, now).1 == DueOutcome::GraceStarted || settled(lease, room, now).1
            == DueOutcome::Paused,
    ensures
        settled(settled(lease, room, now).0, again, later).0 == settled(lease, room, now).0,
{
    lemma_state_names();
}

/// A session that is recorded at the end of a lease, and began no later, is not cut off: the scan
/// gives it the grace, and from then on it is let in again whenever and however often it breaks
/// off. It is let in by its number as well as by its key.
pub proof fn law_a_running_session_may_finish(
    lease: LeaseView,
    room: RoomState,
    now: Timestamp,
    later: int,
    id: Option<i64>,
    key: Option<Seq<char>>,
    started: int,
    reused: bool,
)
    requires
        lease.state == "scheduled"@,
        lease.expires_at@ <= now@,
        room.active is Some,
        room.active->0.recording_started_at@ <= lease.expires_at@,
        id == Some(room.active->0.streamer_info_id) || (key is Some && key->0.len() > 0 && key
            == opt_view(room.active->0.live_session_key)),
    ensures
        ({
            let (after, outcome) = settled(lease, Some(room), now);
            &&& outcome == DueOutcome::GraceStarted
            &&& named_state(after.state) == Some(RecordingLeaseState::GraceCurrentSession)
            &&& admission(
                after,
                RecordingLeaseState::GraceCurrentSession,
                later,
                id,
                key,
                started,
                reused,
            ) == AdmissionDecision::Allow
        }),
{
    lemma_state_names();
}

/// Whether a room has to be paused when the service starts.
pub fn apply_initial_state(lease: &Option<RecordingLease>) -> (pause: bool)
    ensures
        pause == (lease matches Some(current) && current@.state == "expired_paused"@),
{
    match lease {
        Some(current) => str_eq(current.state.as_str(), "expired_paused"),
        None => false,
    }
}

/// Whether a session is let in, and what that does to the room.
#[derive(Clone, Copy, Debug, PartialEq, Eq, Structural)]
pub struct Admission {
    pub admitted: bool,
    /// Whether the room is to be paused.
    pub pause_worker: bool,
    /// Whether the session goes on under the grace that it gets now.
    pub resumed: bool,
}

/// The lease after a session asked to be let in.
pub open spec fn after_admission(
    lease: LeaseView,
    decision: AdmissionDecision,
    id: Option<i64>,
    key: Option<Seq<char>>,
    now: Timestamp,
) -> LeaseView {
    match decision {
        AdmissionDecision::Allow => lease,
        AdmissionDecision::AllowAndStartGrace => if may_grace(lease, now) {
            graced(lease, id, key, now)
        } else {
            lease
        },
        AdmissionDecision::Block => if lease.state != "expired_paused"@ {
            paused(lease, true, now)
        } else {
            lease
        },
    }
}

/// The answer to a session that asked to be let in.
pub open spec fn admitted(decision: AdmissionDecision) -> Admission {
    Admission {
        admitted: decision != AdmissionDecision::Block,
        pause_worker: decision == AdmissionDecision::Block,
        resumed: decision == AdmissionDecision::AllowAndStartGrace,
    }
}

/// Whether a session that asks to be let in starts the grace of the lease.
pub open spec fn starts_grace(
    lease: Option<RecordingLease>,
    now: int,
    id: Option<i64>,
    key: Option<Seq<char>>,
    started: int,
    reused: bool,
) -> bool {
    match lease {
        Some(current) => named_state(current@.state) matches Some(state) && admission(
            current@,
            state,
            now,
            id,
            key,
            started,
            reused,
        ) == AdmissionDecision::AllowAndStartGrace,
        None => false,
    }
}

/// Decides on a session that was found, before anything of it is stored. A lease that keeps it out
/// ends with that. A room without a lease lets every session in.
pub fn admit_detected_session(
    lease: &mut Option<RecordingLease>,
    candidate_id: Option<i64>,
    candidate_key: Option<&str>,
    candidate_started_at: Timestamp,
    is_reused: bool,
    now: Timestamp,
) -> (answer: Result<Admission, LeaseError>)
    requires
        starts_grace(
            *old(lease),
            now@,
            candidate_id,
            str_view(candidate_key),
            candidate_started_at@,
            is_reused,
        ) ==> candidate_id is Some,
    ensures
        match (*old(lease), *final(lease)) {
            (None, None) => answer matches Ok(given) && given == admitted(AdmissionDecision::Allow),
            (Some(before), Some(after)) => match named_state(before@.state) {
                Some(state) => {
                    let decision = admission(
                        before@,
                        state,
                        now@,
                        candidate_id,
                        str_view(candidate_key),
                        candidate_started_at@,
                        is_reused,
                    );
                    &&& answer matches Ok(given) && given == admitted(decision)
                    &&& after@ == after_admission(
                        before@,
                        decision,
                        candidate_id,
                        str_view(candidate_key),
                        now,
                    )
                },
                None => {
                    &&& answer matches Err(LeaseError::UnknownState(name)) && name@ == before@.state
                    &&& after@ == before@
                },
            },
            _ => false,
        },
{
    let mut held: Option<RecordingLease> = None;
    std::mem::swap(&mut held, lease);
    let mut current: RecordingLease = match held {
        Some(current) => current,
        None => {
            return Ok(Admission { admitted: true, pause_worker: false, resumed: false });
        },
    };
    let decided: Result<AdmissionDecision, LeaseError> = admission_decision(
        &current,
        now,
        candidate_id,
        candidate_key,
        candidate_started_at,
        is_reused,
    );
    let answer: Result<Admission, LeaseError> = match decided {
        Err(error) => Err(error),
        Ok(AdmissionDecision::Allow) => Ok(
            Admission { admitted: true, pause_worker: false, resumed: false },
        ),
        Ok(AdmissionDecision::AllowAndStartGrace) => {
            match candidate_id {
                Some(id) => {
                    let session = ActiveRecordingSnapshot {
                        streamer_info_id: id,
                        live_session_key: match candidate_key {
                            Some(key) => Some(own(key)),
                            None => None,
                        },
                        recording_started_at: candidate_started_at,
                    };
                    let _ = start_grace(&mut current, &session, now);
                },
                None => {},
            }
            Ok(Admission { admitted: true, pause_worker: false, resumed: true })
        },
        Ok(AdmissionDecision::Block) => {
            if !str_eq(current.state.as_str(), "expired_paused") {
                let from: String = own(current.state.as_str());
                let _ = transition_to_expired_paused(&mut current, from.as_str(), true, now);
            }
            Ok(Admission { admitted: false, pause_worker: true, resumed: false })
        },
    };
    *lease = Some(current);
    answer
}

/// Whether the end of a session ends the lease: the session is the one that has the grace.
pub open spec fn grace_ends(
    lease: LeaseView,
    streamer_info_id: i64,
    live_session_key: Option<Seq<char>>,
) -> bool {
    lease.state == "grace_current_session"@ && one_session(
        lease.grace_streamer_info_id,
        lease.grace_live_session_key,
        Some(streamer_info_id),
        live_session_key,
    )
}

/// What comes late closes no lease that was made since: neither the end of an earlier session, nor
/// a scan before the lease's own end. A lease that was replaced or given up stays as it is.
pub proof fn law_what_comes_late_closes_nothing(
    lease: LeaseView,
    streamer_info_id: i64,
    live_session_key: Option<Seq<char>>,
    room: Option<RoomState>,
    now: Timestamp,
)
    ensures
        lease.state == "scheduled"@ ==> !grace_ends(lease, streamer_info_id, live_session_key),
        now@ < lease.expires_at@ ==> settled(lease, room, now).0 == lease && !may_grace(lease, now),
        !is_active(lease.state) ==> {
            &&& !grace_ends(lease, streamer_info_id, live_session_key)
            &&& !may_grace(lease, now)
            &&& settled(lease, room, now).0 == lease
        },
{
    lemma_state_names();
}

/// Ends the grace of the session that has just finished: the lease ends and the room is paused. A
/// session that has no grace, or whose lease was replaced, ends nothing.
pub fn complete_grace_session(
    lease: &mut Option<RecordingLease>,
    streamer_info_id: i64,
    live_session_key: Option<&str>,
    already_paused: bool,
    now: Timestamp,
) -> (ended: bool)
    ensures
        match (*old(lease), *final(lease)) {
            (None, None) => !ended,
            (Some(before), Some(after)) => {
                &&& ended == grace_ends(before@, streamer_info_id, str_view(live_session_key))
                &&& after@ == (if ended {
                    paused(before@, !already_paused, now)
                } else {
                    before@
                })
            },
            _ => false,
        },
{
    let mut held: Option<RecordingLease> = None;
    std::mem::swap(&mut held, lease);
    let mut current: RecordingLease = match held {
        Some(current) => current,
        None => {
            return false;
        },
    };
    let mut ended: bool = false;
    if str_eq(current.state.as_str(), "grace_current_session") && same_session(
        current.grace_streamer_info_id,
        &current.grace_live_session_key,
        Some(streamer_info_id),
        live_session_key,
    ) {
        ended =
        transition_to_expired_paused(&mut current, "grace_current_session", !already_paused, now);
    }
    *lease = Some(current);
    ended
}

} // verus!
