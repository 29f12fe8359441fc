//! How long a recording waits before it tries again, and how large the gap was.
use crate::time::{clamp_span, Span, Timestamp, NANOS_PER_SEC};
use vstd::arithmetic::power2::pow2;
use vstd::prelude::*;

verus! {

/// Seconds before the first retry.
pub const RETRY_BASE_DELAY_SECS: u64 = 2;

/// Seconds that no retry waits longer than.
pub const RETRY_MAX_DELAY_SECS: u64 = 30;

/// The most times that the delay is doubled.
pub const MAX_DOUBLINGS: u32 = 5;

/// The base delay doubled `times` times (at most `MAX_DOUBLINGS`), cut off at the longest delay.
pub open spec fn doubled_delay(times: int) -> int {
    let doublings: int = if times < MAX_DOUBLINGS {
        times
    } else {
        MAX_DOUBLINGS as int
    };
    let delay = RETRY_BASE_DELAY_SECS * pow2(doublings as nat) * NANOS_PER_SEC;
    if delay <= RETRY_MAX_DELAY_SECS * NANOS_PER_SEC {
        delay
    } else {
        RETRY_MAX_DELAY_SECS * NANOS_PER_SEC
    }
}

fn delay_after(times: u32) -> (delay: Span)
    ensures
        delay@ == doubled_delay(times as int),
{
    proof {
        vstd::arithmetic::power2::lemma2_to64();
    }
    let secs: u64 = if times == 0 {
        2
    } else if times == 1 {
        4
    } else if times == 2 {
        8
    } else if times == 3 {
        16
    } else {
        RETRY_MAX_DELAY_SECS
    };
    Span::from_secs(secs)
}

/// The delay after `failure_count` consecutive failures of a route: the base delay, doubled for
/// each failure but the first.
pub fn exponential_backoff(failure_count: u32) -> (delay: Span)
    ensures
        delay@ == doubled_delay(if failure_count == 0 {
            0
        } else {
            failure_count - 1
        }),
{
    delay_after(failure_count.saturating_sub(1))
}

/// Since when, and how often in a row, a stream was not available.
#[derive(Debug)]
pub struct OfflineRetryState {
    pub offline_since: Option<Timestamp>,
    pub offline_retry_count: u32,
}

impl Default for OfflineRetryState {
    fn default() -> (state: OfflineRetryState)
        ensures
            state.offline_since is None,
            state.offline_retry_count == 0,
    {
        OfflineRetryState { offline_since: None, offline_retry_count: 0 }
    }
}

/// The reading at which the current absence began, if one more check at `now` fails.
pub open spec fn absent_since(state: OfflineRetryState, now: Timestamp) -> Timestamp {
    match state.offline_since {
        Some(since) => since,
        None => now,
    }
}

/// Whether `after` is `before` with one more failed check at `now`.
pub open spec fn unavailable(
    before: OfflineRetryState,
    after: OfflineRetryState,
    now: Timestamp,
) -> bool {
    &&& after.offline_since == Some(absent_since(before, now))
    &&& after.offline_retry_count == (if before.offline_retry_count < u32::MAX {
        before.offline_retry_count + 1
    } else {
        u32::MAX as int
    })
}

/// Whether an absence that began at `since` has lasted for `grace` at `now`.
pub open spec fn grace_over(since: Timestamp, now: Timestamp, grace: Span) -> bool {
    grace@ <= (if now@ <= since@ {
        0
    } else {
        now@ - since@
    })
}

impl OfflineRetryState {
    /// Forgets the absence: the stream is live.
    pub fn record_live(&mut self)
        ensures
            final(self).offline_since is None,
            final(self).offline_retry_count == 0,
    {
        self.offline_since = None;
        self.offline_retry_count = 0;
    }

    /// Records a check at `now` that did not find the stream live; whether the absence has then
    /// lasted for `grace`.
    pub fn record_unavailable(&mut self, now: Timestamp, grace: Span) -> (over: bool)
        ensures
            unavailable(*old(self), *final(self), now),
            over == grace_over(absent_since(*old(self), now), now, grace),
    {
        let since: Timestamp = match self.offline_since {
            Some(since) => since,
            None => now,
        };
        self.offline_since = Some(since);
        self.offline_retry_count = self.offline_retry_count.saturating_add(1);
        now.saturating_since(&since).at_least(&grace)
    }

    /// The delay before the next check of a stream that was not available.
    pub fn retry_delay(&self) -> (delay: Span)
        ensures
            delay@ == doubled_delay(self.offline_retry_count as int),
    {
        delay_after(self.offline_retry_count)
    }
}

/// A gap in a recording: `silent` from the last byte until the connection was given up,
/// `detect_to_retry` from then until the stream was pulled again.
#[derive(Debug, Clone, Copy, PartialEq, Eq)]
pub struct StreamGap {
    pub silent: Span,
    pub detect_to_retry: Span,
    pub total: Span,
}

/// The gap made of a silence, the check of the stream and the delay after it.
pub fn compose_stream_gap(silent: Span, check_elapsed: Span, backoff: Span) -> (gap: StreamGap)
    ensures
        gap.silent == silent,
        gap.detect_to_retry@ == clamp_span(check_elapsed@ + backoff@),
        gap.total@ == clamp_span(silent@ + gap.detect_to_retry@),
{
    let detect_to_retry: Span = check_elapsed.saturating_add(&backoff);
    StreamGap { silent, detect_to_retry, total: silent.saturating_add(&detect_to_retry) }
}

/// No delay is shorter than the base delay or longer than the longest, and more doublings never
/// make it shorter.
pub proof fn law_delays_grow_up_to_the_longest(fewer: int, more: int)
    requires
        0 <= fewer <= more,
    ensures
        RETRY_BASE_DELAY_SECS * NANOS_PER_SEC <= doubled_delay(fewer) <= doubled_delay(more)
            <= RETRY_MAX_DELAY_SECS * NANOS_PER_SEC,
{
    vstd::arithmetic::power2::lemma2_to64();
    assert(doubled_delay(0) == 2 * NANOS_PER_SEC);
    assert(doubled_delay(1) == 4 * NANOS_PER_SEC);
    assert(doubled_delay(2) == 8 * NANOS_PER_SEC);
    assert(doubled_delay(3) == 16 * NANOS_PER_SEC);
    assert(doubled_delay(4) == 30 * NANOS_PER_SEC);
    assert(doubled_delay(5) == 30 * NANOS_PER_SEC);
    if fewer >= 5 {
        assert(doubled_delay(fewer) == doubled_delay(5));
    }
    if more >= 5 {
        assert(doubled_delay(more) == doubled_delay(5));
    }
}

/// Without a grace period the first check that fails already ends the absence.
pub proof fn law_no_grace_ends_at_once(state: OfflineRetryState, now: Timestamp, grace: Span)
    requires
        grace@ == 0,
    ensures
        grace_over(absent_since(state, now), now, grace),
{
}

/// Without a measured silence the gap is the time from the detection to the retry.
pub proof fn law_unmeasured_silence_adds_nothing(silent: Span, check_elapsed: Span, backoff: Span)
    requires
        silent@ == 0,
    ensures
        clamp_span(silent@ + clamp_span(check_elapsed@ + backoff@)) == clamp_span(
            check_elapsed@ + backoff@,
        ),
{
}

} // verus!
