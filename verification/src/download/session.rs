//! The rounds of a recording: download while a route is usable, check whether the stream is
//! still live, and either stop or wait for the next round.
use crate::download::retry::{
    absent_since, compose_stream_gap, doubled_delay, exponential_backoff, grace_over, unavailable,
    OfflineRetryState, StreamGap, RETRY_BASE_DELAY_SECS, RETRY_MAX_DELAY_SECS,
};
use crate::route_health::{
    begun, deref_opt, fresh_health, metric_of, observed, room_to_observe, selects, stream_key,
    DownloadStatus, HealthUpdate, LiveStream, RouteHealthModel, RouteHealthState, RouteSelection,
    UpdateView, ROUTE_COOLDOWN_SECS,
};
use crate::text::{opt_eq, opt_own, opt_view, str_eq};
use crate::time::{clamp_span, in_clock_range, Span, Timestamp, NANOS_PER_MILLI, NANOS_PER_SEC};
use vstd::prelude::*;

verus! {

/// The gap that the next connection will have closed.
#[derive(Debug, Clone, Copy, PartialEq, Eq, Structural)]
pub struct ReconnectContext {
    pub gap_ms: u64,
    pub silent_ms: u64,
    pub silent_measured: bool,
}

/// What a download left behind. `status` is missing where it failed; `transport_failure` tells
/// whether a status stands for a broken transport.
#[derive(Debug)]
pub struct DownloadAttempt {
    pub status: Option<DownloadStatus>,
    pub transport_failure: bool,
    pub connected_for: Span,
    pub completed_configured_segment: bool,
    pub productive_attempt: bool,
    pub silent_for: Option<Span>,
}

/// What a check of the stream found.
#[derive(Debug)]
pub enum CheckOutcome {
    Live { stream: LiveStream },
    Offline,
    Failed,
}

/// Why a recording ended.
#[derive(Debug, Clone, Copy, PartialEq, Eq, Structural)]
pub enum StopReason {
    UserCancel,
    Offline,
    CheckFailed,
}

impl StopReason {
    /// The outcome that is reported with the reason.
    pub fn outcome(&self) -> (text: &'static str)
        ensures
            text@ == (match *self {
                StopReason::UserCancel => "cancelled"@,
                StopReason::Offline => "executed"@,
                StopReason::CheckFailed => "failed"@,
            }),
    {
        match self {
            StopReason::UserCancel => "cancelled",
            StopReason::Offline => "executed",
            StopReason::CheckFailed => "failed",
        }
    }

    /// The code of the reason in reports.
    pub fn code(&self) -> (text: &'static str)
        ensures
            text@ == (match *self {
                StopReason::UserCancel => "user_cancel"@,
                StopReason::Offline => "offline"@,
                StopReason::CheckFailed => "check_failed"@,
            }),
    {
        match self {
            StopReason::UserCancel => "user_cancel",
            StopReason::Offline => "offline",
            StopReason::CheckFailed => "check_failed",
        }
    }
}

/// What a round begins with.
#[derive(Debug)]
pub enum RoundStart {
    /// Download over the current route; `reconnect` is the gap this connection will close.
    Download { reconnect: Option<ReconnectContext> },
    /// No route is usable: only check the stream.
    CheckOnly,
}

/// What a live check decided.
#[derive(Debug)]
pub struct LiveRound {
    /// What the download before the check means for its route.
    pub update: HealthUpdate,
    /// The route for the next download.
    pub selection: RouteSelection,
    /// Whether a failing route is to be reported to the user.
    pub route_alert: bool,
    /// Whether the recorded quality changed to one that is to be held against the threshold.
    pub quality_changed: bool,
    /// The gap between the last download and the next, where there is one.
    pub gap: Option<StreamGap>,
}

/// What a round ends with.
#[derive(Debug)]
pub enum RoundEnd {
    Stop { reason: StopReason },
    /// The stream was not live: check again after `backoff`.
    WaitOffline { backoff: Span },
    /// The stream is live: go on after `backoff`.
    Continue { live: LiveRound, backoff: Span },
}

/// The state of a recording between its rounds.
pub struct RecordingSession {
    pub grace: Span,
    pub route_health_enabled: bool,
    pub failover_enabled: bool,
    pub route_health: RouteHealthState,
    pub offline_retry: OfflineRetryState,
    pub stream: LiveStream,
    pub can_download: bool,
    pub route_failure_count: u32,
    pub estimated_missing: Span,
    pub stream_gap_count: u32,
    pub pending_reconnect: Option<ReconnectContext>,
}

/// Whether routes of this platform are switched at all.
pub open spec fn failover_wanted(
    platform: Seq<char>,
    route_failover: Option<bool>,
    route_health_enabled: bool,
) -> bool {
    platform == "douyin"@ && route_failover == Some(true) && route_health_enabled
}

/// Whether the download of a round broke off.
pub open spec fn interrupted(attempt: Option<DownloadAttempt>) -> bool {
    attempt matches Some(a) && (a.status is None || a.transport_failure)
}

/// The health state and the update after a live check that followed `attempt`.
pub open spec fn health_after(
    health: RouteHealthModel,
    attempt: Option<DownloadAttempt>,
    now: int,
) -> (RouteHealthModel, UpdateView) {
    match attempt {
        Some(a) => observed(
            health,
            a.status,
            a.connected_for@,
            a.completed_configured_segment,
            a.productive_attempt,
            now,
        ),
        None => (health, UpdateView::Unchanged),
    }
}

/// The number of consecutive failures of the route after `update`.
pub open spec fn failure_count_after(count: int, update: UpdateView) -> int {
    match update {
        UpdateView::Failure { failures, .. } => failures,
        UpdateView::Recovered { .. } => 0,
        _ => count,
    }
}

/// The delay after a live check.
pub open spec fn live_delay(
    selection: RouteSelection,
    route_health_enabled: bool,
    failures: int,
) -> int {
    match selection {
        RouteSelection::Unavailable { retry_after } => if retry_after@ <= RETRY_MAX_DELAY_SECS
            * NANOS_PER_SEC {
            retry_after@
        } else {
            RETRY_MAX_DELAY_SECS * NANOS_PER_SEC
        },
        RouteSelection::Selected { changed, .. } => if changed {
            0
        } else if route_health_enabled {
            doubled_delay(if failures <= 1 {
                0
            } else {
                failures - 1
            })
        } else {
            RETRY_BASE_DELAY_SECS * NANOS_PER_SEC
        },
    }
}

/// The silence that was measured before the download of a round was given up.
pub open spec fn measured_silence(attempt: Option<DownloadAttempt>) -> Option<Span> {
    match attempt {
        Some(a) => a.silent_for,
        None => None,
    }
}

/// Whole milliseconds, cut off at `u64::MAX`.
pub open spec fn whole_millis(nanos: int) -> int {
    let millis = nanos / (NANOS_PER_MILLI as int);
    if millis <= u64::MAX {
        millis
    } else {
        u64::MAX as int
    }
}

/// Whether `gap` lies between a download and the next one, for a check that took `check_elapsed`
/// and a delay of `backoff`.
pub open spec fn is_gap(
    gap: StreamGap,
    silence: Option<Span>,
    check_elapsed: int,
    backoff: int,
) -> bool {
    &&& gap.silent@ == (match silence {
        Some(s) => s@,
        None => 0,
    })
    &&& gap.detect_to_retry@ == clamp_span(check_elapsed + backoff)
    &&& gap.total@ == clamp_span(gap.silent@ + gap.detect_to_retry@)
}

/// Whether `after` is `before` with `gap` counted, or `before` where there is none.
pub open spec fn gap_counted(
    before: RecordingSession,
    after: RecordingSession,
    gap: Option<StreamGap>,
    silence: Option<Span>,
) -> bool {
    match gap {
        Some(g) => {
            &&& after.stream_gap_count == (if before.stream_gap_count < u32::MAX {
                before.stream_gap_count + 1
            } else {
                u32::MAX as int
            })
            &&& after.estimated_missing@ == clamp_span(before.estimated_missing@ + g.total@)
            &&& after.pending_reconnect == Some(
                ReconnectContext {
                    gap_ms: whole_millis(g.total@) as u64,
                    silent_ms: whole_millis(g.silent@) as u64,
                    silent_measured: silence is Some,
                },
            )
        },
        None => {
            &&& after.stream_gap_count == before.stream_gap_count
            &&& after.estimated_missing == before.estimated_missing
            &&& after.pending_reconnect == before.pending_reconnect
        },
    }
}

/// Whether the settings of a recording are the same.
pub open spec fn same_settings(a: RecordingSession, b: RecordingSession) -> bool {
    &&& a.grace == b.grace
    &&& a.route_health_enabled == b.route_health_enabled
    &&& a.failover_enabled == b.failover_enabled
}

/// Whether the parts that an absent stream leaves alone are the same.
pub open spec fn same_but_absence(a: RecordingSession, b: RecordingSession) -> bool {
    &&& same_settings(a, b)
    &&& a.route_health == b.route_health
    &&& a.stream == b.stream
    &&& a.can_download == b.can_download
    &&& a.route_failure_count == b.route_failure_count
    &&& a.estimated_missing == b.estimated_missing
    &&& a.stream_gap_count == b.stream_gap_count
    &&& a.pending_reconnect == b.pending_reconnect
}

/// Whether `end` is how a round ends whose check did not find the stream live.
pub open spec fn absent_round(
    before: RecordingSession,
    after: RecordingSession,
    now: Timestamp,
    reason: StopReason,
    end: RoundEnd,
) -> bool {
    &&& same_but_absence(before, after)
    &&& unavailable(before.offline_retry, after.offline_retry, now)
    &&& if grace_over(absent_since(before.offline_retry, now), now, before.grace) {
        end == (RoundEnd::Stop { reason })
    } else {
        end matches RoundEnd::WaitOffline { backoff } && backoff@ == doubled_delay(
            after.offline_retry.offline_retry_count as int,
        )
    }
}

/// Whether `end` is how a round ends whose check found the stream live as `found`.
pub open spec fn live_round(
    before: RecordingSession,
    after: RecordingSession,
    attempt: Option<DownloadAttempt>,
    found: LiveStream,
    check_elapsed: Span,
    observed_at: Timestamp,
    selected_at: Timestamp,
    end: RoundEnd,
) -> bool {
    let (health, update) = health_after(before.route_health@, attempt, observed_at@);
    &&& end matches RoundEnd::Continue { live, backoff } && {
        &&& same_settings(before, after)
        &&& after.offline_retry.offline_since is None
        &&& after.offline_retry.offline_retry_count == 0
        &&& live.update@ == update
        &&& live.route_alert == (before.failover_enabled && (update matches UpdateView::Failure {
            alert: true,
            ..
        }))
        &&& after.route_failure_count == failure_count_after(
            before.route_failure_count as int,
            update,
        )
        &&& selects(
            health,
            after.route_health@,
            found,
            after.stream,
            selected_at@,
            before.failover_enabled,
            live.selection,
        )
        &&& after.can_download == (live.selection is Selected)
        &&& live.quality_changed == (opt_view(before.stream.recording_quality) != opt_view(
            after.stream.recording_quality,
        ) && after.stream.platform@ == "douyin"@ && after.stream.recording_quality is Some)
        &&& backoff@ == live_delay(
            live.selection,
            before.route_health_enabled,
            after.route_failure_count as int,
        )
        &&& live.gap is Some <==> (interrupted(attempt) || !after.can_download)
        &&& live.gap matches Some(gap) ==> is_gap(
            gap,
            measured_silence(attempt),
            check_elapsed@,
            backoff@,
        )
        &&& gap_counted(before, after, live.gap, measured_silence(attempt))
    }
}

impl RecordingSession {
    /// The state of a recording that has not begun its first round.
    pub fn new(
        stream: LiveStream,
        delay_secs: u64,
        route_health_enabled: bool,
        platform: &str,
        route_failover: Option<bool>,
    ) -> (session: RecordingSession)
        ensures
            session.grace@ == delay_secs * NANOS_PER_SEC,
            session.route_health_enabled == route_health_enabled,
            session.failover_enabled == failover_wanted(
                platform@,
                route_failover,
                route_health_enabled,
            ),
            session.route_health@ == fresh_health(route_health_enabled),
            session.offline_retry.offline_since is None,
            session.offline_retry.offline_retry_count == 0,
            session.stream == stream,
            session.can_download,
            session.route_failure_count == 0,
            session.estimated_missing@ == 0,
            session.stream_gap_count == 0,
            session.pending_reconnect is None,
    {
        let wanted: bool = match route_failover {
            Some(wanted) => wanted,
            None => false,
        };
        let failover_enabled: bool = str_eq(platform, "douyin") && wanted && route_health_enabled;
        RecordingSession {
            grace: Span::from_secs(delay_secs),
            route_health_enabled,
            failover_enabled,
            route_health: RouteHealthState::new(route_health_enabled),
            offline_retry: OfflineRetryState { offline_since: None, offline_retry_count: 0 },
            stream,
            can_download: true,
            route_failure_count: 0,
            estimated_missing: Span::zero(),
            stream_gap_count: 0,
            pending_reconnect: None,
        }
    }

    /// Begins a round: a download where a route is usable. The gap that waits to be closed goes
    /// with the download.
    pub fn begin_round(&mut self) -> (start: RoundStart)
        requires
            metric_of(old(self).route_health@, stream_key(old(self).stream)).attempts < u64::MAX,
        ensures
            same_settings(*old(self), *final(self)),
            final(self).offline_retry == old(self).offline_retry,
            final(self).stream == old(self).stream,
            final(self).can_download == old(self).can_download,
            final(self).route_failure_count == old(self).route_failure_count,
            final(self).estimated_missing == old(self).estimated_missing,
            final(self).stream_gap_count == old(self).stream_gap_count,
            old(self).can_download ==> {
                &&& start == (RoundStart::Download { reconnect: old(self).pending_reconnect })
                &&& final(self).pending_reconnect is None
                &&& final(self).route_health@ == begun(
                    old(self).route_health@,
                    stream_key(old(self).stream),
                )
            },
            !old(self).can_download ==> {
                &&& start is CheckOnly
                &&& final(self).pending_reconnect == old(self).pending_reconnect
                &&& final(self).route_health == old(self).route_health
            },
    {
        if self.can_download {
            self.route_health.begin_attempt(&self.stream);
            let reconnect: Option<ReconnectContext> = self.pending_reconnect;
            self.pending_reconnect = None;
            RoundStart::Download { reconnect }
        } else {
            RoundStart::CheckOnly
        }
    }

    /// Ends a round whose download left `attempt` and whose check gave `check`. `observed_at` is
    /// read after the check, `selected_at` before the next route is chosen.
    pub fn end_round(
        &mut self,
        attempt: Option<&DownloadAttempt>,
        check: CheckOutcome,
        check_elapsed: Span,
        observed_at: Timestamp,
        selected_at: Timestamp,
    ) -> (end: RoundEnd)
        requires
            room_to_observe(old(self).route_health@),
            in_clock_range(observed_at@ + ROUTE_COOLDOWN_SECS * NANOS_PER_SEC),
            old(self).route_health@.all_routes_backoffs < u64::MAX,
            old(self).route_health@.route_switches < u64::MAX,
            old(self).route_health@.flv_to_hls_switches < u64::MAX,
        ensures
            check is Offline ==> absent_round(
                *old(self),
                *final(self),
                observed_at,
                StopReason::Offline,
                end,
            ),
            check is Failed ==> absent_round(
                *old(self),
                *final(self),
                observed_at,
                StopReason::CheckFailed,
                end,
            ),
            check matches CheckOutcome::Live { stream } ==> live_round(
                *old(self),
                *final(self),
                deref_opt(attempt),
                stream,
                check_elapsed,
                observed_at,
                selected_at,
                end,
            ),
    {
        match check {
            CheckOutcome::Live { stream } => {
                self.end_live_round(attempt, stream, check_elapsed, observed_at, selected_at)
            },
            CheckOutcome::Offline => {
                if self.offline_retry.record_unavailable(observed_at, self.grace) {
                    RoundEnd::Stop { reason: StopReason::Offline }
                } else {
                    RoundEnd::WaitOffline { backoff: self.offline_retry.retry_delay() }
                }
            },
            CheckOutcome::Failed => {
                if self.offline_retry.record_unavailable(observed_at, self.grace) {
                    RoundEnd::Stop { reason: StopReason::CheckFailed }
                } else {
                    RoundEnd::WaitOffline { backoff: self.offline_retry.retry_delay() }
                }
            },
        }
    }

    fn end_live_round(
        &mut self,
        attempt: Option<&DownloadAttempt>,
        found: LiveStream,
        check_elapsed: Span,
        observed_at: Timestamp,
        selected_at: Timestamp,
    ) -> (end: RoundEnd)
        requires
            room_to_observe(old(self).route_health@),
            in_clock_range(observed_at@ + ROUTE_COOLDOWN_SECS * NANOS_PER_SEC),
            old(self).route_health@.all_routes_backoffs < u64::MAX,
            old(self).route_health@.route_switches < u64::MAX,
            old(self).route_health@.flv_to_hls_switches < u64::MAX,
        ensures
            live_round(
                *old(self),
                *final(self),
                deref_opt(attempt),
                found,
                check_elapsed,
                observed_at,
                selected_at,
                end,
            ),
    {
        self.offline_retry.record_live();
        let update: HealthUpdate = match attempt {
            Some(a) => self.route_health.observe_live_attempt(
                match &a.status {
                    Some(status) => Some(status),
                    None => None,
                },
                a.connected_for,
                a.completed_configured_segment,
                a.productive_attempt,
                observed_at,
            ),
            None => HealthUpdate::Unchanged,
        };
        let mut route_alert: bool = false;
        match &update {
            HealthUpdate::Failure { failures, alert, .. } => {
                self.route_failure_count = *failures;
                route_alert = *alert && self.failover_enabled;
            },
            HealthUpdate::Recovered { .. } => {
                self.route_failure_count = 0;
            },
            _ => {},
        }
        let previous_quality: Option<String> = opt_own(&self.stream.recording_quality);
        self.stream = found;
        let selection: RouteSelection = self.route_health.select_route(
            &mut self.stream,
            selected_at,
            self.failover_enabled,
        );
        let backoff: Span = match &selection {
            RouteSelection::Selected { changed, .. } => {
                self.can_download = true;
                if *changed {
                    Span::zero()
                } else if self.route_health_enabled {
                    exponential_backoff(
                        if self.route_failure_count == 0 {
                            1
                        } else {
                            self.route_failure_count
                        },
                    )
                } else {
                    Span::from_secs(RETRY_BASE_DELAY_SECS)
                }
            },
            RouteSelection::Unavailable { retry_after } => {
                self.can_download = false;
                retry_after.min(&Span::from_secs(RETRY_MAX_DELAY_SECS))
            },
        };
        let quality_changed: bool = !opt_eq(&previous_quality, &self.stream.recording_quality)
            && str_eq(self.stream.platform.as_str(), "douyin")
            && self.stream.recording_quality.is_some();
        let (broke_off, silent_for): (bool, Option<Span>) = match attempt {
            Some(a) => (a.status.is_none() || a.transport_failure, a.silent_for),
            None => (false, None),
        };
        let gap: Option<StreamGap> = if broke_off || !self.can_download {
            let silent: Span = match silent_for {
                Some(s) => s,
                None => Span::zero(),
            };
            let gap: StreamGap = compose_stream_gap(silent, check_elapsed, backoff);
            self.stream_gap_count = self.stream_gap_count.saturating_add(1);
            self.estimated_missing = self.estimated_missing.saturating_add(&gap.total);
            self.pending_reconnect =
            Some(
                ReconnectContext {
                    gap_ms: gap.total.as_millis_u64(),
                    silent_ms: gap.silent.as_millis_u64(),
                    silent_measured: silent_for.is_some(),
                },
            );
            Some(gap)
        } else {
            None
        };
        RoundEnd::Continue {
            live: LiveRound { update, selection, route_alert, quality_changed, gap },
            backoff,
        }
    }
}

/// However often in a row the stream is found absent, the recording stops at the check at which
/// the whole grace period has passed since the first of them, and at no earlier one.
pub proof fn law_stops_only_after_the_grace(
    states: Seq<RecordingSession>,
    times: Seq<Timestamp>,
    reasons: Seq<StopReason>,
    ends: Seq<RoundEnd>,
)
    requires
        states.len() == times.len() + 1,
        reasons.len() == times.len(),
        ends.len() == times.len(),
        states[0].offline_retry.offline_since is None,
        forall|i: int|
            0 <= i < times.len() ==> absent_round(
                states[i],
                states[i + 1],
                #[trigger] times[i],
                reasons[i],
                ends[i],
            ),
    ensures
        forall|i: int|
            0 <= i < times.len() ==> (#[trigger] ends[i] is Stop <==> grace_over(
                times[0],
                times[i],
                states[0].grace,
            )),
        forall|i: int|
            0 <= i < times.len() && #[trigger] ends[i] is Stop ==> ends[i] == (RoundEnd::Stop {
                reason: reasons[i],
            }),
{
    assert forall|i: int| 0 <= i < times.len() implies (#[trigger] ends[i] is Stop <==> grace_over(
        times[0],
        times[i],
        states[0].grace,
    )) && (ends[i] is Stop ==> ends[i] == (RoundEnd::Stop { reason: reasons[i] })) by {
        lemma_absence_begins_once(states, times, reasons, ends, i);
        assert(absent_round(states[i], states[i + 1], times[i], reasons[i], ends[i]));
    }
}

proof fn lemma_absence_begins_once(
    states: Seq<RecordingSession>,
    times: Seq<Timestamp>,
    reasons: Seq<StopReason>,
    ends: Seq<RoundEnd>,
    n: int,
)
    requires
        0 <= n < times.len(),
        states.len() == times.len() + 1,
        states[0].offline_retry.offline_since is None,
        forall|i: int|
            0 <= i < times.len() ==> absent_round(
                states[i],
                states[i + 1],
                #[trigger] times[i],
                reasons[i],
                ends[i],
            ),
    ensures
        absent_since(states[n].offline_retry, times[n]) == times[0],
        states[n].grace == states[0].grace,
    decreases n,
{
    if n > 0 {
        lemma_absence_begins_once(states, times, reasons, ends, n - 1);
        assert(absent_round(states[n - 1], states[n], times[n - 1], reasons[n - 1], ends[n - 1]));
    }
}

/// A check that finds the stream live never stops the recording, and it starts the grace period
/// anew: the absence that is found next is waited out unless no grace is given at all.
pub proof fn law_a_live_check_starts_the_grace_anew(
    before: RecordingSession,
    between: RecordingSession,
    after: RecordingSession,
    attempt: Option<DownloadAttempt>,
    found: LiveStream,
    check_elapsed: Span,
    observed_at: Timestamp,
    selected_at: Timestamp,
    first: RoundEnd,
    now: Timestamp,
    reason: StopReason,
    second: RoundEnd,
)
    requires
        live_round(
            before,
            between,
            attempt,
            found,
            check_elapsed,
            observed_at,
            selected_at,
            first,
        ),
        absent_round(between, after, now, reason, second),
    ensures
        first is Continue,
        second is Stop <==> before.grace@ <= 0,
{
}

/// No round waits longer than the longest delay.
pub proof fn law_no_wait_exceeds_the_longest_delay(
    selection: RouteSelection,
    route_health_enabled: bool,
    failures: int,
)
    requires
        failures >= 0,
    ensures
        live_delay(selection, route_health_enabled, failures) <= RETRY_MAX_DELAY_SECS
            * NANOS_PER_SEC,
{
    crate::download::retry::law_delays_grow_up_to_the_longest(
        0,
        if failures <= 1 {
            0
        } else {
            failures - 1
        },
    );
}

/// A change of route takes effect without a delay.
pub proof fn law_route_change_is_immediate(
    selection: RouteSelection,
    route_health_enabled: bool,
    failures: int,
)
    requires
        selection matches RouteSelection::Selected { changed, .. } && changed,
    ensures
        live_delay(selection, route_health_enabled, failures) == 0,
{
}

} // verus!
