//! Replacing and cancelling a lease, so that a room never has two.
use vstd::prelude::*;

use crate::recording_lease::{is_active, lemma_state_names, LeaseError, LeaseView, RecordingLease};
use crate::text::{contains, contains_text, lower_spec, own, str_eq, to_ascii_lowercase};
use crate::time::Timestamp;

verus! {

/// How a write to the store failed.
#[derive(Clone, Copy, Debug, PartialEq, Eq, Structural)]
pub enum WriteFailure {
    /// Someone else writes or has written the same.
    Concurrent,
    Other,
}

/// How a write failed, by whether a uniqueness rule was hurt and by the failure's text.
pub fn write_failure(unique_violation: bool, message: &str) -> (failure: WriteFailure)
    ensures
        failure == (if unique_violation || contains_text(
            lower_spec(message@),
            "database is locked"@,
        ) {
            WriteFailure::Concurrent
        } else {
            WriteFailure::Other
        }),
{
    if unique_violation || contains(to_ascii_lowercase(message).as_str(), "database is locked") {
        WriteFailure::Concurrent
    } else {
        WriteFailure::Other
    }
}

/// What a replacement has to do.
#[derive(Clone, Copy, Debug, PartialEq, Eq, Structural)]
pub struct Replacement {
    /// The lease that gives its place up.
    pub supersedes: Option<i64>,
    /// Whether the room was paused by the lease that goes, so that it may go on.
    pub resume_lease_owned_pause: bool,
}

/// What came of a replacement.
pub struct ReplaceLeaseOutcome {
    pub lease: RecordingLease,
    pub resume_lease_owned_pause: bool,
}

/// The id of the lease that holds the place now.
pub open spec fn current_id(current: Option<&RecordingLease>) -> Option<i64> {
    match current {
        Some(lease) => Some(lease.id),
        None => None,
    }
}

/// Whether a lease has paused its room.
pub open spec fn owns_pause(lease: LeaseView) -> bool {
    lease.state == "expired_paused"@ && lease.pause_owned_by_lease
}

/// Plans the replacement of the lease that holds the place now. Whoever asks names the lease that
/// they have seen there; if another has come meanwhile, nothing is replaced.
pub fn replace_lease(
    current: Option<&RecordingLease>,
    expected_lease_id: Option<i64>,
) -> (plan: Result<Replacement, LeaseError>)
    ensures
        match plan {
            Ok(plan) => {
                &&& current_id(current) == expected_lease_id
                &&& plan.supersedes == current_id(current)
                &&& plan.resume_lease_owned_pause == (current matches Some(lease) && owns_pause(
                    lease@,
                ))
            },
            Err(error) => current_id(current) != expected_lease_id && error
                == LeaseError::ChangedElsewhere,
        },
{
    match (current, expected_lease_id) {
        (None, None) => Ok(Replacement { supersedes: None, resume_lease_owned_pause: false }),
        (Some(lease), Some(expected)) => if lease.id == expected {
            Ok(
                Replacement {
                    supersedes: Some(lease.id),
                    resume_lease_owned_pause: str_eq(lease.state.as_str(), "expired_paused")
                        && lease.pause_owned_by_lease,
                },
            )
        } else {
            Err(LeaseError::ChangedElsewhere)
        },
        _ => Err(LeaseError::ChangedElsewhere),
    }
}

/// Whether a write that has to change one row did so.
pub fn after_write(changed: Result<u64, WriteFailure>) -> (go_on: Result<(), Option<LeaseError>>)
    ensures
        match changed {
            Ok(rows) => go_on == (if rows == 1 {
                Ok::<(), Option<LeaseError>>(())
            } else {
                Err(Some(LeaseError::ChangedElsewhere))
            }),
            Err(WriteFailure::Concurrent) => go_on == Err::<(), Option<LeaseError>>(
                Some(LeaseError::ChangedElsewhere),
            ),
            Err(WriteFailure::Other) => go_on == Err::<(), Option<LeaseError>>(None),
        },
{
    match changed {
        Ok(rows) => if rows == 1 {
            Ok(())
        } else {
            Err(Some(LeaseError::ChangedElsewhere))
        },
        Err(WriteFailure::Concurrent) => Err(Some(LeaseError::ChangedElsewhere)),
        Err(WriteFailure::Other) => Err(None),
    }
}

/// The lease after it gave its place up.
pub open spec fn superseded(lease: LeaseView, now: Timestamp) -> LeaseView {
    LeaseView { state: "superseded"@, updated_at: now, ..lease }
}

/// The lease after it was cancelled.
pub open spec fn cancelled(lease: LeaseView, now: Timestamp) -> LeaseView {
    LeaseView { state: "cancelled"@, updated_at: now, ..lease }
}

fn holds_place(state: &str) -> (yes: bool)
    ensures
        yes == is_active(state@),
{
    str_eq(state, "scheduled") || str_eq(state, "grace_current_session") || str_eq(
        state,
        "expired_paused",
    )
}

/// Makes the lease give its place up, where it still holds it.
pub fn supersede(lease: &mut RecordingLease, now: Timestamp) -> (changed: bool)
    ensures
        changed == is_active(old(lease)@.state),
        final(lease)@ == (if changed {
            superseded(old(lease)@, now)
        } else {
            old(lease)@
        }),
{
    if !holds_place(lease.state.as_str()) {
        return false;
    }
    lease.state = own("superseded");
    lease.updated_at = now;
    true
}

/// What is stored of a new lease; the rest is left to the store.
pub struct NewLease {
    pub live_streamer_id: i64,
    pub expires_at: Timestamp,
    pub customer_note: String,
    pub state: String,
    pub created_at: Timestamp,
    pub updated_at: Timestamp,
}

/// A new lease, which waits for its end.
pub fn new_lease(
    live_streamer_id: i64,
    expires_at: Timestamp,
    customer_note: &str,
    now: Timestamp,
) -> (lease: NewLease)
    ensures
        lease.live_streamer_id == live_streamer_id,
        lease.expires_at == expires_at,
        lease.customer_note@ == customer_note@,
        lease.state@ == "scheduled"@,
        lease.created_at == now,
        lease.updated_at == now,
{
    NewLease {
        live_streamer_id,
        expires_at,
        customer_note: own(customer_note),
        state: own("scheduled"),
        created_at: now,
        updated_at: now,
    }
}

/// What came of a cancellation.
#[derive(Clone, Copy, Debug, PartialEq, Eq, Structural)]
pub struct CancelLeaseOutcome {
    /// Whether the room was paused by the lease, so that it may go on.
    pub resume_lease_owned_pause: bool,
    pub already_cancelled: bool,
}

/// Decides on the cancellation of the lease that was asked for. One that is cancelled already is
/// left as it is; one that was replaced cannot be cancelled.
pub fn cancel_lease(target: Option<&RecordingLease>) -> (outcome: Result<
    CancelLeaseOutcome,
    LeaseError,
>)
    ensures
        match target {
            None => outcome == Err::<CancelLeaseOutcome, LeaseError>(LeaseError::NotFound),
            Some(lease) => outcome == (if lease@.state == "cancelled"@ {
                Ok::<CancelLeaseOutcome, LeaseError>(
                    CancelLeaseOutcome { resume_lease_owned_pause: false, already_cancelled: true },
                )
            } else if !is_active(lease@.state) {
                Err(LeaseError::Replaced)
            } else {
                Ok(
                    CancelLeaseOutcome {
                        resume_lease_owned_pause: owns_pause(lease@),
                        already_cancelled: false,
                    },
                )
            }),
        },
{
    match target {
        None => Err(LeaseError::NotFound),
        Some(lease) => if str_eq(lease.state.as_str(), "cancelled") {
            Ok(CancelLeaseOutcome { resume_lease_owned_pause: false, already_cancelled: true })
        } else if !holds_place(lease.state.as_str()) {
            Err(LeaseError::Replaced)
        } else {
            Ok(
                CancelLeaseOutcome {
                    resume_lease_owned_pause: str_eq(lease.state.as_str(), "expired_paused")
                        && lease.pause_owned_by_lease,
                    already_cancelled: false,
                },
            )
        },
    }
}

/// Cancels the lease, where it still holds its place.
pub fn cancel(lease: &mut RecordingLease, now: Timestamp) -> (changed: bool)
    ensures
        changed == is_active(old(lease)@.state),
        final(lease)@ == (if changed {
            cancelled(old(lease)@, now)
        } else {
            old(lease)@
        }),
{
    if !holds_place(lease.state.as_str()) {
        return false;
    }
    lease.state = own("cancelled");
    lease.updated_at = now;
    true
}

/// Whether row `i` is a lease of `room` that holds its place.
pub open spec fn holds(rows: Seq<LeaseView>, room: i64, i: int) -> bool {
    0 <= i < rows.len() && rows[i].live_streamer_id == room && is_active(rows[i].state)
}

/// Whether no more than one lease of `room` holds its place.
pub open spec fn at_most_one(rows: Seq<LeaseView>, room: i64) -> bool {
    forall|i: int, j: int| holds(rows, room, i) && holds(rows, room, j) ==> i == j
}

/// The rows after a replacement: `current` gave its place up and `fresh` was added.
pub open spec fn after_replacement(
    rows: Seq<LeaseView>,
    current: Option<int>,
    fresh: LeaseView,
    now: Timestamp,
) -> Seq<LeaseView> {
    match current {
        Some(i) => rows.update(i, superseded(rows[i], now)).push(fresh),
        None => rows.push(fresh),
    }
}

/// After a replacement the new lease is the one that holds the room's place, and the leases of
/// other rooms are as they were.
pub proof fn law_replacing_leaves_one_lease(
    rows: Seq<LeaseView>,
    room: i64,
    current: Option<int>,
    fresh: LeaseView,
    now: Timestamp,
)
    requires
        at_most_one(rows, room),
        match current {
            Some(i) => holds(rows, room, i),
            None => forall|i: int| !holds(rows, room, i),
        },
        fresh.live_streamer_id == room,
        fresh.state == "scheduled"@,
    ensures
        at_most_one(after_replacement(rows, current, fresh, now), room),
        holds(after_replacement(rows, current, fresh, now), room, rows.len() as int),
        forall|i: int|
            0 <= i < rows.len() && rows[i].live_streamer_id != room ==> #[trigger] after_replacement(
                rows,
                current,
                fresh,
                now,
            )[i] == rows[i],
{
    lemma_state_names();
    let after = after_replacement(rows, current, fresh, now);
    assert forall|i: int| holds(after, room, i) implies i == rows.len() by {
        if i < rows.len() {
            match current {
                Some(at) => {
                    if i != at {
                        assert(holds(rows, room, i));
                        assert(holds(rows, room, at));
                    }
                },
                None => {
                    assert(holds(rows, room, i));
                },
            }
        }
    }
}

/// After the cancellation of a room's lease the room has none, and the leases of other rooms are
/// as they were.
pub proof fn law_cancelling_leaves_no_lease(
    rows: Seq<LeaseView>,
    room: i64,
    at: int,
    now: Timestamp,
)
    requires
        at_most_one(rows, room),
        holds(rows, room, at),
    ensures
        forall|i: int| !holds(rows.update(at, cancelled(rows[at], now)), room, i),
        forall|i: int|
            0 <= i < rows.len() && rows[i].live_streamer_id != room ==> #[trigger] rows.update(
                at,
                cancelled(rows[at], now),
            )[i] == rows[i],
{
    lemma_state_names();
    let after = rows.update(at, cancelled(rows[at], now));
    assert forall|i: int| !holds(after, room, i) by {
        if holds(after, room, i) {
            if i != at {
                assert(holds(rows, room, i));
            }
        }
    }
}

} // verus!
