//! What the health of routes promises its callers, from a result seen on the wire to the route
//! that the stream is pulled over next.
use crate::route_health::{
    begun, candidate_key, candidate_position, chosen, key_position,
    law_cooling_routes_are_left_alone,
    lemma_candidate_position, lemma_position_before, lemma_position_is_first,
    lemma_rotation_reaches, metric_of, moved, next_available, observed, record_of, selects,
    shortest_wait, stream_key, DownloadStatus, KeyView, LiveStream, RouteHealthModel,
    RouteSelection, StreamCandidate, StreamProtocol, UpdateView,
};
use crate::text::{lower_spec, opt_view};
use crate::urls::{url_host, url_path};
use vstd::prelude::*;

verus! {

/// A server that answers with a status of 500 or more, or with 404, fails its route; two such
/// answers within two minutes put the route aside for ten, and a stream that has another
/// candidate which is not put aside is pulled over that one.
pub proof fn law_server_errors_move_the_stream(
    m: RouteHealthModel,
    key: KeyView,
    first: u16,
    second: u16,
    connected_first: int,
    connected_second: int,
    now: int,
    later: int,
    t: int,
    stream_before: LiveStream,
    stream_after: LiveStream,
    after: RouteHealthModel,
    selection: RouteSelection,
    other: int,
)
    requires
        m.enabled,
        m.current == Some(key),
        0 <= record_of(m, key).failures <= u32::MAX,
        first >= 500 || first == 404,
        second >= 500 || second == 404,
        connected_first < 300 * 1_000_000_000,
        connected_second < 300 * 1_000_000_000,
        later - now <= 120 * 1_000_000_000,
    ensures
        ({
            let (one, told) = observed(
                m,
                Some(DownloadStatus::HttpStatus { status: first }),
                connected_first,
                false,
                false,
                now,
            );
            let (two, told_again) = observed(
                one,
                Some(DownloadStatus::HttpStatus { status: second }),
                connected_second,
                false,
                false,
                later,
            );
            &&& told matches UpdateView::Failure { key: k, failures, .. } && k == key && failures
                >= 1
            &&& told_again matches UpdateView::Failure { key: k, failures, circuit_opened, .. } && k
                == key && failures >= 2 && circuit_opened
            &&& two.routes.contains_key(key)
            &&& two.routes[key].cooldown_until == Some(later + 600 * 1_000_000_000)
            &&& selects(two, after, stream_before, stream_after, t, true, selection) && t < later
                + 600 * 1_000_000_000 && 0 <= other < stream_before.stream_candidates@.len() && (
            two.routes.contains_key(candidate_key(stream_before.stream_candidates@[other]))
                ==> match two.routes[candidate_key(
                stream_before.stream_candidates@[other],
            )].cooldown_until {
                Some(until) => until <= t,
                None => true,
            }) ==> (selection matches RouteSelection::Selected { key: k, changed } && changed && k@
                != key && exists|i: int|
                0 <= i < stream_before.stream_candidates@.len() && candidate_key(
                    #[trigger] stream_before.stream_candidates@[i],
                ) == k@ && stream_after.raw_stream_url@
                    == stream_before.stream_candidates@[i].url@)
        }),
{
    let one = observed(
        m,
        Some(DownloadStatus::HttpStatus { status: first }),
        connected_first,
        false,
        false,
        now,
    ).0;
    let two = observed(
        one,
        Some(DownloadStatus::HttpStatus { status: second }),
        connected_second,
        false,
        false,
        later,
    ).0;
    law_cooling_routes_are_left_alone(two, stream_before.stream_candidates@, t);
}

/// What is seen of a route that is neither stable nor productive: a stream that stops, breaks
/// off, stalls, fails or was never reached fails the route once more; a refused signature is
/// refreshed once before it counts; a transfer that runs, a finished segment and any other
/// answer leave the count alone; and what the user cancelled changes nothing.
pub proof fn law_every_result_is_weighed(
    m: RouteHealthModel,
    key: KeyView,
    status: Option<DownloadStatus>,
    connected_for: int,
    now: int,
)
    requires
        m.enabled,
        m.current == Some(key),
        connected_for < 300 * 1_000_000_000,
    ensures
        ({
            let (after, told) = observed(m, status, connected_for, false, false, now);
            let before = record_of(m, key);
            match status {
                None | Some(DownloadStatus::StreamEnded) | Some(
                    DownloadStatus::IncompleteFrame { .. },
                ) | Some(DownloadStatus::ReadTimeout { .. }) | Some(DownloadStatus::Error(_)) => {
                    &&& told matches UpdateView::Failure { key: k, .. } && k == key
                    &&& after.connection_failures == m.connection_failures + 1
                },
                Some(DownloadStatus::HttpStatus { status: code }) => if code >= 500 || code == 404
                    || ((code == 401 || code == 403) && before.auth_refresh_pending) {
                    &&& told matches UpdateView::Failure { key: k, .. } && k == key
                    &&& after.connection_failures == m.connection_failures + 1
                } else if code == 401 || code == 403 {
                    &&& told == UpdateView::AuthRefresh { key }
                    &&& after.connection_failures == m.connection_failures
                    &&& record_of(after, key).auth_refresh_pending
                    &&& record_of(after, key).failures == before.failures
                    &&& record_of(after, key).cooldown_until == before.cooldown_until
                } else {
                    &&& told == UpdateView::Unchanged
                    &&& after.connection_failures == m.connection_failures
                    &&& record_of(after, key).failures == before.failures
                    &&& record_of(after, key).cooldown_until == before.cooldown_until
                    &&& !record_of(after, key).auth_refresh_pending
                },
                Some(DownloadStatus::Downloading) | Some(DownloadStatus::SegmentCompleted) => {
                    &&& told == UpdateView::Unchanged
                    &&& after.connection_failures == m.connection_failures
                    &&& record_of(after, key).failures == before.failures
                    &&& record_of(after, key).last_failure == before.last_failure
                    &&& record_of(after, key).cooldown_until == before.cooldown_until
                },
                Some(DownloadStatus::Cancelled) => {
                    &&& told == UpdateView::Unchanged
                    &&& after == m
                },
            }
        }),
{
}

/// A failure counts on from the one before it where that lies at most two minutes back, and
/// from one otherwise; from the second on it opens the circuit for ten minutes, and before that
/// it leaves any cooling as it was. The alert is raised by the first circuit that opens since the
/// stream was last well.
pub proof fn law_failures_add_up_within_two_minutes(
    m: RouteHealthModel,
    key: KeyView,
    status: Option<DownloadStatus>,
    connected_for: int,
    now: int,
)
    requires
        m.enabled,
        m.current == Some(key),
        0 <= record_of(m, key).failures <= u32::MAX,
        connected_for < 300 * 1_000_000_000,
        observed(m, status, connected_for, false, false, now).1 is Failure,
    ensures
        ({
            let (after, told) = observed(m, status, connected_for, false, false, now);
            let before = record_of(m, key);
            let follows = before.last_failure matches Some(last) && now - last <= 120
                * 1_000_000_000;
            &&& told matches UpdateView::Failure { key: k, failures, circuit_opened, alert } && k
                == key && failures == record_of(after, key).failures && failures == (if !follows {
                1
            } else if before.failures < u32::MAX {
                before.failures + 1
            } else {
                before.failures
            } as int) && circuit_opened == (failures >= 2) && alert == (circuit_opened
                && !m.storm_alert_sent)
            &&& record_of(after, key).last_failure == Some(now)
            &&& record_of(after, key).cooldown_until == (if record_of(after, key).failures >= 2 {
                Some(now + 600 * 1_000_000_000)
            } else {
                before.cooldown_until
            })
            &&& !record_of(after, key).auth_refresh_pending
            &&& after.storm_alert_sent == (m.storm_alert_sent || record_of(after, key).failures
                >= 2)
            &&& metric_of(after, key).failures == metric_of(m, key).failures + 1
            &&& forall|k: KeyView|
                k != key ==> #[trigger] record_of(after, k) == record_of(m, k)
        }),
{
    let after = observed(m, status, connected_for, false, false, now).0;
    assert forall|k: KeyView| k != key implies #[trigger] record_of(after, k) == record_of(
        m,
        k,
    ) by {
        assert(after.routes.contains_key(k) == m.routes.contains_key(k));
    }
}

/// An attempt that held for five minutes, that filled its configured segment or that was
/// productive wipes out what its route had on record: no earlier failure, cooling or alert
/// survives it, and where there was any and nothing new is held against it, it is reported as
/// recovered. A shorter attempt that did none of this wipes out nothing.
pub proof fn law_a_good_attempt_starts_afresh(
    m: RouteHealthModel,
    key: KeyView,
    status: Option<DownloadStatus>,
    connected_for: int,
    completed: bool,
    productive: bool,
    now: int,
)
    requires
        m.enabled,
        m.current == Some(key),
        status != Some(DownloadStatus::Cancelled),
    ensures
        ({
            let (after, told) = observed(m, status, connected_for, completed, productive, now);
            let before = record_of(m, key);
            let good = connected_for >= 300 * 1_000_000_000 || completed || productive;
            &&& good ==> record_of(after, key).cooldown_until is None && record_of(
                after,
                key,
            ).failures <= 1 && !after.storm_alert_sent
            &&& good ==> (told matches UpdateView::Failure { failures, circuit_opened, alert, .. }
                ==> failures == 1 && !circuit_opened && !alert)
            &&& good && told !is Failure ==> record_of(after, key).failures == 0 && record_of(
                after,
                key,
            ).last_failure is None
            &&& good && (status == Some(DownloadStatus::Downloading) || status == Some(
                DownloadStatus::SegmentCompleted,
            )) ==> told == (if before.failures > 0 || before.cooldown_until is Some
                || before.auth_refresh_pending || m.storm_alert_sent {
                UpdateView::Recovered { key }
            } else {
                UpdateView::Unchanged
            })
            &&& told is Recovered ==> good
            &&& !good && m.storm_alert_sent ==> after.storm_alert_sent
            &&& !good && told !is Failure ==> record_of(after, key).failures == before.failures
                && record_of(after, key).cooldown_until == before.cooldown_until
        }),
{
}

/// An attempt of five minutes, or one that filled its configured segment, counts as stable; one
/// that was only productive does not. Its time is added to its route, and a change to this route
/// that was waiting for a result is settled by it: as a success where the attempt was stable.
pub proof fn law_the_time_goes_to_the_route(
    m: RouteHealthModel,
    key: KeyView,
    status: Option<DownloadStatus>,
    connected_for: int,
    completed: bool,
    productive: bool,
    now: int,
)
    requires
        m.enabled,
        m.current == Some(key),
        status != Some(DownloadStatus::Cancelled),
        metric_of(m, key).connected_for + connected_for <= u64::MAX * 1_000_000_000,
        m.flv_to_hls_connected_for + connected_for <= u64::MAX * 1_000_000_000,
    ensures
        ({
            let after = observed(m, status, connected_for, completed, productive, now).0;
            let stable = if connected_for >= 300 * 1_000_000_000 || completed {
                1int
            } else {
                0
            };
            let settles = if m.pending matches Some((target, _)) && target == key {
                1int
            } else {
                0
            };
            let settles_hls = if m.pending matches Some((target, hls)) && target == key && hls {
                1int
            } else {
                0
            };
            &&& metric_of(after, key).connected_for == metric_of(m, key).connected_for
                + connected_for
            &&& metric_of(after, key).stable_attempts == metric_of(m, key).stable_attempts + stable
            &&& metric_of(after, key).attempts == metric_of(m, key).attempts
            &&& after.successful_switches == m.successful_switches + stable * settles
            &&& after.successful_flv_to_hls_switches == m.successful_flv_to_hls_switches + stable
                * settles_hls
            &&& after.flv_to_hls_connected_for == m.flv_to_hls_connected_for + connected_for
                * settles_hls
            &&& settles == 1 ==> after.pending is None
            &&& settles == 0 ==> after.pending == m.pending
            &&& after.route_switches == m.route_switches
            &&& after.current == m.current
        }),
{
    let connected_span = connected_for;
    assert(connected_span * 1 == connected_span && connected_span * 0 == 0);
}

/// Nothing is weighed while health is switched off or no route has been taken yet.
pub proof fn law_nothing_is_held_against_no_route(
    m: RouteHealthModel,
    status: Option<DownloadStatus>,
    connected_for: int,
    completed: bool,
    productive: bool,
    now: int,
)
    requires
        !m.enabled || m.current is None,
    ensures
        observed(m, status, connected_for, completed, productive, now) == (
            m,
            UpdateView::Unchanged,
        ),
{
}

proof fn lemma_round(
    m: RouteHealthModel,
    candidates: Seq<StreamCandidate>,
    start: int,
    offset: int,
    now: int,
) -> (k: int)
    requires
        0 <= start,
        0 <= offset,
        next_available(m, candidates, start, offset, now) is Some,
    ensures
        offset <= k < candidates.len(),
        next_available(m, candidates, start, offset, now) == Some(
            (start + k) % (candidates.len() as int),
        ),
        forall|j: int|
            offset <= j < k ==> crate::route_health::route_cooling(
                m,
                candidate_key(candidates[#[trigger] ((start + j) % (candidates.len() as int))]),
                now,
            ),
    decreases candidates.len() - offset,
{
    let at = (start + offset) % (candidates.len() as int);
    if !crate::route_health::route_cooling(m, candidate_key(candidates[at]), now) {
        offset
    } else {
        lemma_round(m, candidates, start, offset + 1, now)
    }
}

/// Candidates are gone through in the order in which they are offered, beginning behind the
/// current one and going round: one that is passed over on the way is cooling down.
pub proof fn law_candidates_take_turns(
    m: RouteHealthModel,
    candidates: Seq<StreamCandidate>,
    now: int,
    from: int,
    passed: int,
)
    requires
        0 <= from < candidates.len(),
        m.current == Some(candidate_key(candidates[from])),
        forall|i: int|
            0 <= i < from ==> candidate_key(#[trigger] candidates[i]) != candidate_key(
                candidates[from],
            ),
        chosen(m, candidates, now) is Some,
        0 <= passed < candidates.len(),
        ({
            let at = chosen(m, candidates, now)->0;
            if from < at {
                from <= passed < at
            } else if at < from {
                from <= passed || passed < at
            } else {
                false
            }
        }),
    ensures
        ({
            let key = candidate_key(candidates[passed]);
            &&& m.routes.contains_key(key)
            &&& m.routes[key].cooldown_until matches Some(until) && until > now
        }),
{
    let current = candidate_key(candidates[from]);
    let n = candidates.len() as int;
    lemma_position_before(candidates, current, from);
    lemma_position_is_first(candidates, current);
    assert(key_position(candidates, current) == from);
    let start = from + 1;
    let k = lemma_round(m, candidates, start, 0, now);
    let at = chosen(m, candidates, now)->0;
    if passed != from {
        lemma_rotation_reaches(n, start, passed);
        let j = if passed >= start {
            passed - start
        } else {
            passed + n - start
        };
        lemma_rotation_reaches(n, start, at);
        if start + k < n {
            vstd::arithmetic::div_mod::lemma_small_mod((start + k) as nat, n as nat);
        } else {
            vstd::arithmetic::div_mod::lemma_mod_add_multiples_vanish(start + k - n, n);
            vstd::arithmetic::div_mod::lemma_small_mod((start + k - n) as nat, n as nat);
            assert(n + (start + k - n) == start + k);
        }
        assert(j < k);
        assert(candidates[(start + j) % n] == candidates[passed]);
    }
}

/// While no current route is known the first candidate that is not cooling down is taken.
pub proof fn law_the_first_healthy_candidate_opens(
    m: RouteHealthModel,
    candidates: Seq<StreamCandidate>,
    now: int,
    first: int,
)
    requires
        m.current is None,
        0 <= first < candidates.len(),
        !crate::route_health::route_cooling(m, candidate_key(candidates[first]), now),
        forall|i: int|
            0 <= i < first ==> crate::route_health::route_cooling(
                m,
                candidate_key(#[trigger] candidates[i]),
                now,
            ),
    ensures
        chosen(m, candidates, now) == Some(first),
{
    law_cooling_routes_are_left_alone(m, candidates, now);
    let n = candidates.len() as int;
    let k = lemma_round(m, candidates, 0, 0, now);
    vstd::arithmetic::div_mod::lemma_small_mod(k as nat, n as nat);
    assert(!crate::route_health::route_cooling(m, candidate_key(candidates[k]), now));
    vstd::arithmetic::div_mod::lemma_small_mod(first as nat, n as nat);
    if first < k {
        assert(candidates[(0 + first) % n] == candidates[first]);
    }
}

/// A stream is left as it is where health or failover is switched off or nothing else is
/// offered; and where a candidate is taken, the stream gets its address, its quality and the
/// suffix of its container, and keeps everything else.
pub proof fn law_the_stream_becomes_the_candidate(
    before: RouteHealthModel,
    after: RouteHealthModel,
    stream_before: LiveStream,
    stream_after: LiveStream,
    now: int,
    failover_enabled: bool,
    selection: RouteSelection,
)
    requires
        selects(before, after, stream_before, stream_after, now, failover_enabled, selection),
    ensures
        !before.enabled || !failover_enabled || stream_before.stream_candidates@.len() == 0
            ==> stream_after == stream_before && after == before && (selection matches
            RouteSelection::Selected { key, .. } && key@ == stream_key(stream_before)),
        before.enabled && failover_enabled && (selection matches RouteSelection::Selected {
            key,
            ..
        }) ==> stream_before.stream_candidates@.len() == 0 || (exists|i: int|
            0 <= i < stream_before.stream_candidates@.len() && {
                let candidate = #[trigger] stream_before.stream_candidates@[i];
                &&& candidate_key(candidate) == selection->key@
                &&& stream_after.raw_stream_url@ == candidate.url@
                &&& stream_after.recording_quality == candidate.quality
                &&& stream_after.suffix@ == match candidate.protocol {
                    StreamProtocol::Flv => "flv"@,
                    StreamProtocol::Hls => "m3u8"@,
                }
            }),
        stream_after.platform == stream_before.platform,
        stream_after.stream_candidates == stream_before.stream_candidates,
        selection matches RouteSelection::Selected { key, changed } ==> changed == (
        before.current matches Some(current) && current != key@),
        selection is Unavailable ==> stream_after == stream_before && after.all_routes_backoffs
            == before.all_routes_backoffs + 1 && after.route_switches == before.route_switches,
{
}

/// A change of route is counted once, when it is made, and waits for the result of the first
/// attempt over the new route; one from an FLV to an HLS route is counted as such besides.
pub proof fn law_changes_of_route_are_counted(m: RouteHealthModel, key: KeyView)
    ensures
        ({
            let after = moved(m, key);
            let changes = m.current matches Some(current) && current != key;
            let to_hls = changes && m.current->0.protocol == "flv"@ && key.protocol == "hls"@;
            &&& after.route_switches == m.route_switches + (if changes {
                1int
            } else {
                0
            })
            &&& after.flv_to_hls_switches == m.flv_to_hls_switches + (if to_hls {
                1int
            } else {
                0
            })
            &&& changes ==> after.pending == Some((key, to_hls))
            &&& !changes ==> after == m
            &&& after.routes == m.routes
            &&& after.metrics == m.metrics
            &&& after.current == m.current
        }),
{
}

proof fn lemma_wait_is_shortest(
    m: RouteHealthModel,
    candidates: Seq<StreamCandidate>,
    now: int,
    i: int,
)
    requires
        0 <= i < candidates.len(),
        crate::route_health::route_cooling(m, candidate_key(candidates[i]), now),
    ensures
        shortest_wait(m, candidates, now) matches Some(wait) && wait <= record_of(
            m,
            candidate_key(candidates[i]),
        ).cooldown_until->0 - now,
    decreases candidates.len(),
{
    if i < candidates.len() - 1 {
        assert(candidates.drop_last()[i] == candidates[i]);
        lemma_wait_is_shortest(m, candidates.drop_last(), now, i);
    }
}

proof fn lemma_wait_is_of_one(m: RouteHealthModel, candidates: Seq<StreamCandidate>, now: int)
    requires
        shortest_wait(m, candidates, now) is Some,
    ensures
        exists|i: int|
            0 <= i < candidates.len() && record_of(
                m,
                candidate_key(#[trigger] candidates[i]),
            ).cooldown_until == Some(now + shortest_wait(m, candidates, now)->0),
    decreases candidates.len(),
{
    let front = candidates.drop_last();
    let record = record_of(m, candidate_key(candidates.last()));
    if shortest_wait(m, candidates, now) == shortest_wait(m, front, now) {
        lemma_wait_is_of_one(m, front, now);
        let i = choose|i: int|
            0 <= i < front.len() && record_of(
                m,
                candidate_key(#[trigger] front[i]),
            ).cooldown_until == Some(now + shortest_wait(m, front, now)->0);
        assert(candidates[i] == front[i]);
    } else {
        assert(candidates[candidates.len() - 1] == candidates.last());
    }
}

/// Where every candidate is cooling down the stream waits exactly until the first of them is
/// free again.
pub proof fn law_the_wait_ends_with_the_first_free_route(
    before: RouteHealthModel,
    after: RouteHealthModel,
    stream_before: LiveStream,
    stream_after: LiveStream,
    now: int,
    selection: RouteSelection,
    i: int,
)
    requires
        selects(before, after, stream_before, stream_after, now, true, selection),
        before.enabled,
        stream_before.stream_candidates@.len() > 0,
        forall|j: int|
            0 <= j < stream_before.stream_candidates@.len() ==> (record_of(
                before,
                candidate_key(#[trigger] stream_before.stream_candidates@[j]),
            ).cooldown_until matches Some(until) && until > now),
        0 <= i < stream_before.stream_candidates@.len(),
    ensures
        selection matches RouteSelection::Unavailable { retry_after } && retry_after@ <= record_of(
            before,
            candidate_key(stream_before.stream_candidates@[i]),
        ).cooldown_until->0 - now && exists|j: int|
            0 <= j < stream_before.stream_candidates@.len() && record_of(
                before,
                candidate_key(#[trigger] stream_before.stream_candidates@[j]),
            ).cooldown_until == Some(now + retry_after@),
{
    let candidates = stream_before.stream_candidates@;
    law_cooling_routes_are_left_alone(before, candidates, now);
    lemma_wait_is_shortest(before, candidates, now, i);
    lemma_wait_is_of_one(before, candidates, now);
}

/// Two candidates share a route exactly where host, container, quality and codec agree, the host
/// and the codec up to capitals; and the host is the one of the address, wherever it has one.
pub proof fn law_routes_are_told_apart(a: StreamCandidate, b: StreamCandidate)
    ensures
        candidate_key(a) == candidate_key(b) ==> a.protocol == b.protocol && opt_view(a.quality)
            == opt_view(b.quality) && (a.codec is Some <==> b.codec is Some),
        candidate_key(a) == candidate_key(b) && a.codec is Some ==> lower_spec(a.codec->0@)
            == lower_spec(b.codec->0@),
        url_host(a.url@) matches Some(host) ==> candidate_key(a).host == Some(lower_spec(host)),
        url_host(a.url@) is None && a.host is Some ==> candidate_key(a).host == Some(
            lower_spec(a.host->0@),
        ),
        url_host(a.url@) is None && a.host is None ==> candidate_key(a).host is None,
        a.protocol == b.protocol && a.quality == b.quality && a.codec == b.codec && url_host(a.url@)
            == url_host(b.url@) && a.host == b.host ==> candidate_key(a) == candidate_key(b),
        candidate_key(a).protocol == (match a.protocol {
            StreamProtocol::Flv => "flv"@,
            StreamProtocol::Hls => "hls"@,
        }),
{
    reveal_strlit("flv");
    reveal_strlit("hls");
    assert("flv"@[0] == 'f' && "hls"@[0] == 'h');
    assert("flv"@ != "hls"@);
}

/// A stream runs over the route of the first candidate that has its address. Where none has, it
/// runs over HLS if its suffix is `m3u8` or `ts` in any capitals or the path of its address ends
/// in `.m3u8`, and over FLV otherwise; its quality is then the recorded one.
pub proof fn law_a_stream_runs_over_its_candidate(stream: LiveStream, at: int)
    requires
        0 <= at <= stream.stream_candidates@.len(),
        forall|i: int|
            0 <= i < at ==> (#[trigger] stream.stream_candidates@[i]).url@
                != stream.raw_stream_url@,
        at < stream.stream_candidates@.len() ==> stream.stream_candidates@[at].url@
            == stream.raw_stream_url@,
    ensures
        at < stream.stream_candidates@.len() ==> stream_key(stream) == candidate_key(
            stream.stream_candidates@[at],
        ),
        at == stream.stream_candidates@.len() ==> ({
            let key = stream_key(stream);
            let hls = lower_spec(stream.suffix@) == lower_spec("m3u8"@) || lower_spec(
                stream.suffix@,
            ) == lower_spec("ts"@) || (url_path(stream.raw_stream_url@) matches Some(path)
                && path.len() >= 5 && path.skip(path.len() - 5) == ".m3u8"@);
            &&& key.protocol == (if hls {
                "hls"@
            } else {
                "flv"@
            })
            &&& key.quality == opt_view(stream.recording_quality)
            &&& key.codec is None
            &&& key.host == (match url_host(stream.raw_stream_url@) {
                Some(host) => Some(lower_spec(host)),
                None => None,
            })
        }),
{
    lemma_candidate_position(stream.stream_candidates@, stream.raw_stream_url@, at);
    reveal_strlit(".m3u8");
    if let Some(path) = url_path(stream.raw_stream_url@) {
        if path.len() >= 5 {
            assert(path.subrange(path.len() - 5, path.len() as int) =~= path.skip(path.len() - 5));
        }
    }
}

/// The first candidate of a route, and the first with an address, is the one that is found; where
/// there is none, what is found lies behind them all.
pub proof fn law_the_first_candidate_is_found(
    candidates: Seq<StreamCandidate>,
    key: KeyView,
    url: Seq<char>,
    i: int,
)
    ensures
        0 <= key_position(candidates, key) <= candidates.len(),
        0 <= candidate_position(candidates, url) <= candidates.len(),
        key_position(candidates, key) < candidates.len() ==> candidate_key(
            candidates[key_position(candidates, key)],
        ) == key,
        candidate_position(candidates, url) < candidates.len() ==> candidates[candidate_position(
            candidates,
            url,
        )].url@ == url,
        0 <= i < key_position(candidates, key) ==> candidate_key(candidates[i]) != key,
        0 <= i < candidate_position(candidates, url) ==> candidates[i].url@ != url,
    decreases candidates.len(),
{
    if candidates.len() > 0 {
        let rest = candidates.drop_first();
        law_the_first_candidate_is_found(rest, key, url, i - 1);
        assert forall|k: int| 0 <= k < rest.len() implies #[trigger] rest[k] == candidates[k
            + 1] by {}
    }
}

/// A download that begins counts as one attempt on its route, which is then the current one; the
/// first on a route is the first of its counts. Neither another route nor any record is touched,
/// and nothing is counted where health is not watched.
pub proof fn law_every_download_is_one_attempt(m: RouteHealthModel, key: KeyView, other: KeyView)
    ensures
        !m.enabled ==> begun(m, key) == m,
        m.enabled ==> begun(m, key).current == Some(key),
        m.enabled && m.metrics.contains_key(key) ==> metric_of(begun(m, key), key).attempts
            == m.metrics[key].attempts + 1,
        m.enabled && !m.metrics.contains_key(key) ==> metric_of(begun(m, key), key).attempts == 1,
        m.enabled && !m.metrics.contains_key(key) ==> metric_of(begun(m, key), key).failures == 0
            && metric_of(begun(m, key), key).stable_attempts == 0 && metric_of(
            begun(m, key),
            key,
        ).connected_for == 0,
        m.metrics.contains_key(key) ==> metric_of(begun(m, key), key).failures
            == m.metrics[key].failures && metric_of(begun(m, key), key).connected_for
            == m.metrics[key].connected_for,
        other != key ==> metric_of(begun(m, key), other) == metric_of(m, other),
        begun(m, key).routes == m.routes,
        !m.routes.contains_key(key) ==> record_of(m, key).failures == 0 && record_of(
            m,
            key,
        ).last_failure is None && record_of(m, key).cooldown_until is None && !record_of(
            m,
            key,
        ).auth_refresh_pending,
{
}

} // verus!
