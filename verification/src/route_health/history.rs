//! What holds of the health of the routes over a whole session, from its first call to its last.
use crate::route_health::{
    after_select, begun, counted_failure, credited, fresh_health, is_stable, metric_of, observed,
    record_of, refused_signature, report_le, reports, route_cooling, stream_key, DownloadStatus,
    KeyView, LiveStream, MetricView, RouteHealthModel, RouteMetricSnapshot, UpdateView,
    FAILURE_WINDOW_SECS,
};
use crate::time::NANOS_PER_SEC;
use vstd::prelude::*;

verus! {

/// One call on the health of the routes.
pub enum HealthCall {
    /// A download begins on a stream.
    Begin { stream: LiveStream },
    /// A download has ended on a stream that is still live.
    Observe {
        status: Option<DownloadStatus>,
        connected_for: int,
        completed_configured_segment: bool,
        productive_attempt: bool,
        now: int,
    },
    /// A route is chosen.
    Select { stream: LiveStream, now: int, failover_enabled: bool },
}

/// The state after a call, and the update that it returns, where it returns one.
pub open spec fn called(m: RouteHealthModel, call: HealthCall) -> (
    RouteHealthModel,
    Option<UpdateView>,
) {
    match call {
        HealthCall::Begin { stream } => (begun(m, stream_key(stream)), None),
        HealthCall::Observe {
            status,
            connected_for,
            completed_configured_segment,
            productive_attempt,
            now,
        } => {
            let (after, update) = observed(
                m,
                status,
                connected_for,
                completed_configured_segment,
                productive_attempt,
                now,
            );
            (after, Some(update))
        },
        HealthCall::Select { stream, now, failover_enabled } => (
            after_select(m, stream, now, failover_enabled),
            None,
        ),
    }
}

/// The state that `calls` lead to from a fresh one.
pub open spec fn reached(enabled: bool, calls: Seq<HealthCall>) -> RouteHealthModel
    decreases calls.len(),
{
    if calls.len() == 0 {
        fresh_health(enabled)
    } else {
        called(reached(enabled, calls.drop_last()), calls.last()).0
    }
}

/// The state in which call `i` finds the routes.
pub open spec fn found_at(enabled: bool, calls: Seq<HealthCall>, i: int) -> RouteHealthModel {
    reached(enabled, calls.take(i))
}

/// The update that call `i` returns, where it returns one.
pub open spec fn told_at(enabled: bool, calls: Seq<HealthCall>, i: int) -> Option<UpdateView> {
    called(found_at(enabled, calls, i), calls[i]).1
}

/// Whether an update tells that a circuit has opened.
pub open spec fn tells_opened(update: Option<UpdateView>) -> bool {
    update matches Some(UpdateView::Failure { circuit_opened: true, .. })
}

/// Whether an update raises an alert.
pub open spec fn tells_alert(update: Option<UpdateView>) -> bool {
    update matches Some(UpdateView::Failure { alert: true, .. })
}

/// Whether an update tells a failure of the route `key`.
pub open spec fn tells_failure(update: Option<UpdateView>, key: KeyView) -> bool {
    update matches Some(UpdateView::Failure { key: failed, .. }) && failed == key
}

/// Whether a call observes an attempt on the current route that was not cancelled, and that was
/// stable or produced something.
pub open spec fn heals(m: RouteHealthModel, call: HealthCall) -> bool {
    &&& m.enabled
    &&& m.current is Some
    &&& call matches HealthCall::Observe {
        status,
        connected_for,
        completed_configured_segment,
        productive_attempt,
        ..
    } && status != Some(DownloadStatus::Cancelled) && (is_stable(
        connected_for,
        completed_configured_segment,
    ) || productive_attempt)
}

/// Whether call `i` opens a circuit.
pub open spec fn opens_at(enabled: bool, calls: Seq<HealthCall>, i: int) -> bool {
    tells_opened(told_at(enabled, calls, i))
}

/// Whether call `i` raises an alert.
pub open spec fn alerts_at(enabled: bool, calls: Seq<HealthCall>, i: int) -> bool {
    tells_alert(told_at(enabled, calls, i))
}

/// Whether call `i` heals the route that it is about.
pub open spec fn heals_at(enabled: bool, calls: Seq<HealthCall>, i: int) -> bool {
    heals(found_at(enabled, calls, i), calls[i])
}

/// Whether a call between `i` and `j` heals a route.
pub open spec fn healed_between(enabled: bool, calls: Seq<HealthCall>, i: int, j: int) -> bool {
    exists|l: int| i < l < j && #[trigger] heals_at(enabled, calls, l)
}

/// Whether a circuit was opened before call `n` and nothing was healed since.
pub open spec fn storm_at(enabled: bool, calls: Seq<HealthCall>, n: int) -> bool {
    exists|k: int|
        0 <= k < n && #[trigger] opens_at(enabled, calls, k) && !healed_between(
            enabled,
            calls,
            k,
            n,
        )
}

proof fn lemma_one_step(enabled: bool, calls: Seq<HealthCall>, n: int)
    requires
        0 <= n < calls.len(),
    ensures
        found_at(enabled, calls, n + 1) == called(found_at(enabled, calls, n), calls[n]).0,
{
    assert(calls.take(n + 1).drop_last() =~= calls.take(n));
    assert(calls.take(n + 1).last() == calls[n]);
}

proof fn lemma_all_taken(enabled: bool, calls: Seq<HealthCall>)
    ensures
        found_at(enabled, calls, calls.len() as int) == reached(enabled, calls),
        found_at(enabled, calls, 0) == fresh_health(enabled),
{
    assert(calls.take(calls.len() as int) =~= calls);
    assert(calls.take(0).len() == 0);
}

proof fn lemma_switch_stays(enabled: bool, calls: Seq<HealthCall>, n: int)
    requires
        0 <= n <= calls.len(),
    ensures
        found_at(enabled, calls, n).enabled == enabled,
    decreases n,
{
    lemma_all_taken(enabled, calls);
    if n > 0 {
        lemma_switch_stays(enabled, calls, n - 1);
        lemma_one_step(enabled, calls, n - 1);
    }
}

/// What one call does to the alert of a storm.
proof fn lemma_storm_step(m: RouteHealthModel, call: HealthCall)
    ensures
        ({
            let (after, update) = called(m, call);
            &&& after.storm_alert_sent == (tells_opened(update) || (m.storm_alert_sent && !heals(
                m,
                call,
            )))
            &&& tells_alert(update) == (tells_opened(update) && !m.storm_alert_sent)
            &&& tells_opened(update) ==> !heals(m, call)
        }),
{
}

proof fn lemma_storm_stands(enabled: bool, calls: Seq<HealthCall>, n: int)
    requires
        0 <= n <= calls.len(),
    ensures
        found_at(enabled, calls, n).storm_alert_sent <==> storm_at(enabled, calls, n),
    decreases n,
{
    lemma_all_taken(enabled, calls);
    if n > 0 {
        let last = n - 1;
        lemma_storm_stands(enabled, calls, last);
        lemma_one_step(enabled, calls, last);
        lemma_storm_step(found_at(enabled, calls, last), calls[last]);
        assert forall|k: int| 0 <= k < last implies healed_between(enabled, calls, k, n) == (
        #[trigger] healed_between(enabled, calls, k, last) || heals_at(enabled, calls, last)) by {
            if heals_at(enabled, calls, last) {
                assert(k < last < n && heals_at(enabled, calls, last));
            }
        }
        if storm_at(enabled, calls, last) && !heals_at(enabled, calls, last) {
            let k = choose|k: int|
                0 <= k < last && #[trigger] opens_at(enabled, calls, k) && !healed_between(
                    enabled,
                    calls,
                    k,
                    last,
                );
            assert(opens_at(enabled, calls, k) && !healed_between(enabled, calls, k, n));
        }
        if opens_at(enabled, calls, last) {
            assert(!healed_between(enabled, calls, last, n));
        }
        if storm_at(enabled, calls, n) {
            let k = choose|k: int|
                0 <= k < n && #[trigger] opens_at(enabled, calls, k) && !healed_between(
                    enabled,
                    calls,
                    k,
                    n,
                );
            if k < last {
                assert(!healed_between(enabled, calls, k, last));
            }
        }
    }
}

/// A storm of failures is told once. An alert comes with an opened circuit only, and an opened
/// circuit raises one exactly where every circuit that was opened before it has been followed by
/// an attempt that healed its route. So between two alerts lies such an attempt, and the first
/// circuit that opens after a fresh start or after such an attempt is told.
pub proof fn law_one_alert_per_storm(enabled: bool, calls: Seq<HealthCall>, j: int)
    requires
        0 <= j < calls.len(),
    ensures
        told_at(enabled, calls, j) matches Some(
            UpdateView::Failure { failures, circuit_opened, alert, .. },
        ) ==> circuit_opened == (failures >= 2) && (alert ==> circuit_opened),
        alerts_at(enabled, calls, j) <==> opens_at(enabled, calls, j) && forall|k: int|
            0 <= k < j && #[trigger] opens_at(enabled, calls, k) ==> healed_between(
                enabled,
                calls,
                k,
                j,
            ),
        forall|i: int|
            0 <= i < j && #[trigger] alerts_at(enabled, calls, i) && alerts_at(enabled, calls, j)
                ==> healed_between(enabled, calls, i, j),
{
    lemma_storm_stands(enabled, calls, j);
    lemma_storm_step(found_at(enabled, calls, j), calls[j]);
    assert forall|i: int|
        0 <= i < j && #[trigger] alerts_at(enabled, calls, i) && alerts_at(
            enabled,
            calls,
            j,
        ) implies healed_between(enabled, calls, i, j) by {
        lemma_storm_step(found_at(enabled, calls, i), calls[i]);
        assert(opens_at(enabled, calls, i));
    }
}

/// What one call leaves of the failures of a route that it neither heals nor sees fail.
proof fn lemma_record_stays(m: RouteHealthModel, call: HealthCall, key: KeyView)
    requires
        !(heals(m, call) && m.current == Some(key)),
        !tells_failure(called(m, call).1, key),
    ensures
        record_of(called(m, call).0, key).failures == record_of(m, key).failures,
        record_of(called(m, call).0, key).last_failure == record_of(m, key).last_failure,
{
}

/// Whether nothing between calls `i` and `j` heals the route `key` or sees it fail.
pub open spec fn quiet_between(
    enabled: bool,
    calls: Seq<HealthCall>,
    i: int,
    j: int,
    key: KeyView,
) -> bool {
    forall|l: int|
        i < l < j ==> !tells_failure(#[trigger] told_at(enabled, calls, l), key) && !(heals_at(
            enabled,
            calls,
            l,
        ) && found_at(enabled, calls, l).current == Some(key))
}

proof fn lemma_failure_remembered(
    enabled: bool,
    calls: Seq<HealthCall>,
    i: int,
    j: int,
    key: KeyView,
)
    requires
        0 <= i < j <= calls.len(),
        tells_failure(told_at(enabled, calls, i), key),
        quiet_between(enabled, calls, i, j, key),
    ensures
        record_of(found_at(enabled, calls, j), key).failures == told_at(
            enabled,
            calls,
            i,
        )->0->failures,
        calls[i] matches HealthCall::Observe { now, .. } && record_of(
            found_at(enabled, calls, j),
            key,
        ).last_failure == Some(now),
    decreases j,
{
    let last = j - 1;
    lemma_one_step(enabled, calls, last);
    if last > i {
        lemma_failure_remembered(enabled, calls, i, last, key);
        assert(!tells_failure(told_at(enabled, calls, last), key));
        lemma_record_stays(found_at(enabled, calls, last), calls[last], key);
    }
}

/// Failures add up within the window and start anew outside of it: where the last failure of a
/// route was told as number `n` and the route was not healed since, the next one is number `n + 1`
/// if it comes within the window, the bound included, and number one otherwise.
pub proof fn law_the_count_restarts_outside_the_window(
    enabled: bool,
    calls: Seq<HealthCall>,
    i: int,
    j: int,
    key: KeyView,
    status: Option<DownloadStatus>,
    connected_for: int,
    failed_at: int,
    now: int,
)
    requires
        0 <= i < j < calls.len(),
        tells_failure(told_at(enabled, calls, i), key),
        calls[i] matches HealthCall::Observe { now: at, .. } && at == failed_at,
        quiet_between(enabled, calls, i, j, key),
        found_at(enabled, calls, j).current == Some(key),
        calls[j] == (HealthCall::Observe {
            status,
            connected_for,
            completed_configured_segment: false,
            productive_attempt: false,
            now,
        }),
        counted_failure(status),
        !refused_signature(status),
        !is_stable(connected_for, false),
    ensures
        ({
            let n = told_at(enabled, calls, i)->0->failures;
            let next = if now - failed_at > FAILURE_WINDOW_SECS * NANOS_PER_SEC {
                1
            } else if n < u32::MAX {
                n + 1
            } else {
                u32::MAX as int
            };
            told_at(enabled, calls, j) matches Some(
                UpdateView::Failure { key: failed, failures, circuit_opened, .. },
            ) && failed == key && failures == next && circuit_opened == (next >= 2)
        }),
{
    lemma_failure_remembered(enabled, calls, i, j, key);
    lemma_switch_stays(enabled, calls, i);
    lemma_switch_stays(enabled, calls, j);
}

/// Rounds on one stream, each of which produced something and then ended in `status`.
pub open spec fn productive_rounds(
    stream: LiveStream,
    status: Option<DownloadStatus>,
    connected_for: int,
    times: Seq<int>,
) -> Seq<HealthCall>
    decreases times.len(),
{
    if times.len() == 0 {
        Seq::empty()
    } else {
        productive_rounds(stream, status, connected_for, times.drop_last()).push(
            HealthCall::Begin { stream },
        ).push(
            HealthCall::Observe {
                status,
                connected_for,
                completed_configured_segment: false,
                productive_attempt: true,
                now: times.last(),
            },
        )
    }
}

/// The update that round `i` returns.
pub open spec fn round_told(rounds: Seq<HealthCall>, i: int) -> Option<UpdateView> {
    told_at(true, rounds, 2 * i + 1)
}

/// Attempts that produce something before they break off never add up: however many of them follow
/// each other, each counts as a first failure, no circuit opens, no alert is raised, the route
/// never cools down and none of them counts as stable.
pub proof fn law_productive_ends_never_add_up(
    stream: LiveStream,
    status: Option<DownloadStatus>,
    connected_for: int,
    times: Seq<int>,
)
    requires
        counted_failure(status),
        !refused_signature(status),
        !is_stable(connected_for, false),
    ensures
        ({
            let key = stream_key(stream);
            let calls = productive_rounds(stream, status, connected_for, times);
            let after = reached(true, calls);
            &&& calls.len() == 2 * times.len()
            &&& after.enabled
            &&& forall|i: int|
                0 <= i < times.len() ==> #[trigger] round_told(calls, i) == Some(
                    UpdateView::Failure { key, failures: 1, circuit_opened: false, alert: false },
                )
            &&& record_of(after, key).cooldown_until is None
            &&& forall|now: int| !(#[trigger] route_cooling(after, key, now))
            &&& metric_of(after, key).stable_attempts == 0
        }),
    decreases times.len(),
{
    if times.len() > 0 {
        let key = stream_key(stream);
        let earlier = times.drop_last();
        let before = productive_rounds(stream, status, connected_for, earlier);
        law_productive_ends_never_add_up(stream, status, connected_for, earlier);
        let calls = productive_rounds(stream, status, connected_for, times);
        let n = before.len() as int;
        let start = HealthCall::Begin { stream };
        assert(calls.drop_last() =~= before.push(start));
        assert(before.push(start).drop_last() =~= before);
        assert(reached(true, before.push(start)) == begun(reached(true, before), key));
        assert(calls.take(n + 1) =~= before.push(start));
        assert forall|i: int| 0 <= i < times.len() implies #[trigger] round_told(calls, i) == Some(
            UpdateView::Failure { key, failures: 1, circuit_opened: false, alert: false },
        ) by {
            if i < earlier.len() {
                assert(round_told(before, i) is Some);
                assert(calls.take(2 * i + 1) =~= before.take(2 * i + 1));
                assert(calls[2 * i + 1] == before[2 * i + 1]);
            }
        }
    }
}

/// How many failures the routes have together.
pub open spec fn total_failures(metrics: Map<KeyView, MetricView>) -> int
    decreases metrics.dom().len(),
{
    if metrics.dom().finite() && metrics.dom().len() > 0 {
        let key = metrics.dom().choose();
        metrics[key].failures + total_failures(metrics.remove(key))
    } else {
        0
    }
}

proof fn lemma_total_without(metrics: Map<KeyView, MetricView>, key: KeyView)
    requires
        metrics.dom().finite(),
        metrics.contains_key(key),
    ensures
        total_failures(metrics) == metrics[key].failures + total_failures(metrics.remove(key)),
    decreases metrics.dom().len(),
{
    let first = metrics.dom().choose();
    assert(metrics.dom().len() > 0) by {
        if metrics.dom().len() == 0 {
            assert(metrics.dom() =~= Set::empty());
        }
    }
    if first != key {
        lemma_total_without(metrics.remove(first), key);
        lemma_total_without(metrics.remove(key), first);
        assert(metrics.remove(first).remove(key) =~= metrics.remove(key).remove(first));
    }
}

proof fn lemma_total_with(metrics: Map<KeyView, MetricView>, key: KeyView, metric: MetricView)
    requires
        metrics.dom().finite(),
    ensures
        metrics.insert(key, metric).dom().finite(),
        total_failures(metrics.insert(key, metric)) == total_failures(metrics) + metric.failures - (
        if metrics.contains_key(key) {
            metrics[key].failures
        } else {
            0
        }),
{
    lemma_total_without(metrics.insert(key, metric), key);
    if metrics.contains_key(key) {
        lemma_total_without(metrics, key);
        assert(metrics.insert(key, metric).remove(key) =~= metrics.remove(key));
    } else {
        assert(metrics.insert(key, metric).remove(key) =~= metrics);
    }
}

/// Whether the counts agree: confirmed changes of route never outnumber the changes made, nor those
/// from FLV to HLS the changes of that kind or the confirmed ones, and the failures of the routes
/// add up to the failures of the session.
pub open spec fn counts_consistent(m: RouteHealthModel) -> bool {
    let waiting: int = if m.pending is Some {
        1
    } else {
        0
    };
    let waiting_hls: int = if m.pending matches Some((_, true)) {
        1
    } else {
        0
    };
    &&& 0 <= m.successful_switches
    &&& 0 <= m.successful_flv_to_hls_switches
    &&& m.successful_switches + waiting <= m.route_switches
    &&& m.successful_flv_to_hls_switches + waiting_hls <= m.flv_to_hls_switches
    &&& m.flv_to_hls_switches <= m.route_switches
    &&& m.successful_flv_to_hls_switches <= m.successful_switches
    &&& m.metrics.dom().finite()
    &&& total_failures(m.metrics) == m.connection_failures
}

proof fn lemma_counts_observed(
    m: RouteHealthModel,
    status: Option<DownloadStatus>,
    connected_for: int,
    completed_configured_segment: bool,
    productive_attempt: bool,
    now: int,
)
    requires
        counts_consistent(m),
    ensures
        counts_consistent(
            observed(
                m,
                status,
                connected_for,
                completed_configured_segment,
                productive_attempt,
                now,
            ).0,
        ),
{
    if m.enabled && status != Some(DownloadStatus::Cancelled) && m.current is Some {
        let key = m.current->0;
        let stable = is_stable(connected_for, completed_configured_segment);
        let paid = credited(m, key, connected_for, stable);
        lemma_total_with(m.metrics, key, paid.metrics[key]);
        assert(paid.metrics =~= m.metrics.insert(key, paid.metrics[key]));
        let metric = metric_of(paid, key);
        lemma_total_with(
            paid.metrics,
            key,
            MetricView { failures: metric.failures + 1, ..metric },
        );
    }
}

proof fn lemma_counts_called(m: RouteHealthModel, call: HealthCall)
    requires
        counts_consistent(m),
    ensures
        counts_consistent(called(m, call).0),
{
    match call {
        HealthCall::Begin { stream } => {
            let key = stream_key(stream);
            let metric = metric_of(m, key);
            lemma_total_with(
                m.metrics,
                key,
                MetricView { attempts: metric.attempts + 1, ..metric },
            );
        },
        HealthCall::Observe {
            status,
            connected_for,
            completed_configured_segment,
            productive_attempt,
            now,
        } => {
            lemma_counts_observed(
                m,
                status,
                connected_for,
                completed_configured_segment,
                productive_attempt,
                now,
            );
        },
        HealthCall::Select { .. } => {},
    }
}

/// The counts agree in every state that a session can reach.
pub proof fn law_counts_stay_consistent(enabled: bool, calls: Seq<HealthCall>)
    ensures
        counts_consistent(reached(enabled, calls)),
    decreases calls.len(),
{
    if calls.len() == 0 {
        assert(fresh_health(enabled).metrics.dom() =~= Set::<KeyView>::empty());
    } else {
        law_counts_stay_consistent(enabled, calls.drop_last());
        lemma_counts_called(reached(enabled, calls.drop_last()), calls.last());
    }
}

/// Whether call `i` begins a download on the route `key`.
pub open spec fn begins_at(calls: Seq<HealthCall>, i: int, key: KeyView) -> bool {
    calls[i] matches HealthCall::Begin { stream } && stream_key(stream) == key
}

/// Whether a download was begun on the route `key`.
pub open spec fn attempted(calls: Seq<HealthCall>, key: KeyView) -> bool {
    exists|i: int| 0 <= i < calls.len() && #[trigger] begins_at(calls, i, key)
}

/// Exactly the routes on which a download was begun are counted.
pub proof fn law_every_attempted_route_is_counted(
    enabled: bool,
    calls: Seq<HealthCall>,
    key: KeyView,
)
    ensures
        reached(enabled, calls).enabled == enabled,
        reached(enabled, calls).metrics.contains_key(key) <==> enabled && attempted(calls, key),
        reached(enabled, calls).current == Some(key) ==> enabled && attempted(calls, key),
    decreases calls.len(),
{
    if calls.len() > 0 {
        let front = calls.drop_last();
        let last = calls.len() - 1;
        law_every_attempted_route_is_counted(enabled, front, key);
        if attempted(front, key) {
            let i = choose|i: int| 0 <= i < front.len() && #[trigger] begins_at(front, i, key);
            assert(begins_at(calls, i, key));
        }
        if attempted(calls, key) {
            let i = choose|i: int| 0 <= i < calls.len() && #[trigger] begins_at(calls, i, key);
            if i < last {
                assert(begins_at(front, i, key));
            }
        }
        if begins_at(calls, last, key) {
            assert(attempted(calls, key));
        }
    }
}

/// How many failures a report tells of all its routes.
pub open spec fn failures_told(routes: Seq<RouteMetricSnapshot>) -> int
    decreases routes.len(),
{
    if routes.len() == 0 {
        0
    } else {
        failures_told(routes.drop_last()) + routes.last().failures
    }
}

proof fn lemma_report_adds_up(
    routes: Seq<RouteMetricSnapshot>,
    metrics: Map<KeyView, MetricView>,
)
    requires
        reports(routes, metrics),
        metrics.dom().finite(),
    ensures
        failures_told(routes) == total_failures(metrics),
    decreases routes.len(),
{
    if routes.len() == 0 {
        assert forall|k: KeyView| !metrics.dom().contains(k) by {
            if metrics.contains_key(k) {
                let i = choose|i: int| 0 <= i < routes.len() && (#[trigger] routes[i]).key@ == k;
            }
        }
        assert(metrics.dom() =~= Set::empty());
    } else {
        let front = routes.drop_last();
        let last = routes.len() - 1;
        let key = routes[last].key@;
        let fewer = metrics.remove(key);
        assert forall|i: int| 0 <= i < front.len() implies fewer.contains_key(
            (#[trigger] front[i]).key@,
        ) && fewer[front[i].key@] == front[i].metric() by {
            assert(front[i] == routes[i]);
            assert(routes[i].key@ != routes[last].key@);
        }
        assert forall|k: KeyView| #[trigger] fewer.contains_key(k) implies exists|i: int|
            0 <= i < front.len() && (#[trigger] front[i]).key@ == k by {
            assert(metrics.contains_key(k));
            let i = choose|i: int| 0 <= i < routes.len() && (#[trigger] routes[i]).key@ == k;
            assert(front[i].key@ == k);
        }
        assert forall|i: int, j: int| 0 <= i < j < front.len() implies (#[trigger] front[i]).key@
            != (#[trigger] front[j]).key@ && report_le(
            front[i].key@,
            front[j].key@,
        ) by {
            assert(front[i] == routes[i] && front[j] == routes[j]);
        }
        lemma_report_adds_up(front, fewer);
        lemma_total_without(metrics, key);
    }
}

/// A report of a session is complete and adds up: it lists each route on which a download was
/// begun, and no other, once and in order, and the failures of the routes are those of the session.
pub proof fn law_a_report_adds_up(
    enabled: bool,
    calls: Seq<HealthCall>,
    routes: Seq<RouteMetricSnapshot>,
)
    requires
        reports(routes, reached(enabled, calls).metrics),
    ensures
        failures_told(routes) == reached(enabled, calls).connection_failures,
        forall|i: int, j: int|
            0 <= i < j < routes.len() ==> (#[trigger] routes[i]).key@ != (#[trigger] routes[j]).key@
                && report_le(routes[i].key@, routes[j].key@),
        forall|i: int|
            0 <= i < routes.len() ==> enabled && attempted(calls, (#[trigger] routes[i]).key@),
        forall|key: KeyView|
            enabled && #[trigger] attempted(calls, key) ==> exists|i: int|
                0 <= i < routes.len() && (#[trigger] routes[i]).key@ == key,
{
    law_counts_stay_consistent(enabled, calls);
    lemma_report_adds_up(routes, reached(enabled, calls).metrics);
    assert forall|i: int| 0 <= i < routes.len() implies enabled && attempted(
        calls,
        (#[trigger] routes[i]).key@,
    ) by {
        law_every_attempted_route_is_counted(enabled, calls, routes[i].key@);
    }
    assert forall|key: KeyView| enabled && #[trigger] attempted(calls, key) implies exists|i: int|
        0 <= i < routes.len() && (#[trigger] routes[i]).key@ == key by {
        law_every_attempted_route_is_counted(enabled, calls, key);
    }
}

} // verus!
