use biliup_common::route_health::{
    DownloadStatus, HealthUpdate, LiveStream, RouteHealthState, RouteKey, RouteSelection,
    StreamCandidate, StreamProtocol, FAILURE_WINDOW_SECS, ROUTE_STABLE_THRESHOLD_SECS,
};
use biliup_common::time::{Span, Timestamp};

fn start() -> Timestamp {
    Timestamp::from_secs(1_000_000).unwrap()
}

fn later(time: Timestamp, secs: u64) -> Timestamp {
    time.plus(&Span::from_secs(secs))
}

fn candidate(
    host: &str,
    protocol: StreamProtocol,
    quality: &str,
    codec: &str,
    resolution: &str,
    priority: u16,
) -> StreamCandidate {
    let suffix = match protocol {
        StreamProtocol::Flv => "flv",
        StreamProtocol::Hls => "m3u8",
    };
    StreamCandidate {
        url: format!("https://{host}/live/fixture.{suffix}?sign={priority}"),
        host: Some(host.to_string()),
        protocol,
        quality: Some(quality.to_string()),
        codec: Some(codec.to_string()),
        resolution: Some(resolution.to_string()),
        priority,
    }
}

fn stream(candidates: Vec<StreamCandidate>) -> LiveStream {
    let first = candidates.first().expect("candidate");
    LiveStream {
        raw_stream_url: first.url.clone(),
        platform: "douyin".to_string(),
        suffix: match first.protocol {
            StreamProtocol::Flv => "flv",
            StreamProtocol::Hls => "m3u8",
        }
        .to_string(),
        recording_quality: first.quality.clone(),
        stream_candidates: candidates,
    }
}

fn same_stream(stream: &LiveStream) -> LiveStream {
    LiveStream {
        raw_stream_url: stream.raw_stream_url.clone(),
        platform: stream.platform.clone(),
        suffix: stream.suffix.clone(),
        recording_quality: stream.recording_quality.clone(),
        stream_candidates: stream.stream_candidates.clone(),
    }
}

fn fail_twice(health: &mut RouteHealthState, stream: &LiveStream, now: Timestamp) {
    health.begin_attempt(stream);
    let _ = health.observe_live_attempt(
        Some(&DownloadStatus::ReadTimeout { buffered: 1 }),
        Span::from_secs(30),
        false,
        false,
        now,
    );
    health.begin_attempt(stream);
    let update = health.observe_live_attempt(
        Some(&DownloadStatus::IncompleteFrame { buffered: 1 }),
        Span::from_secs(30),
        false,
        false,
        later(now, 31),
    );
    assert!(matches!(
        update,
        HealthUpdate::Failure {
            failures: 2,
            circuit_opened: true,
            ..
        }
    ));
}

#[test]
fn two_flv_failures_switch_to_different_host_before_hls() {
    let now = start();
    let mut stream = stream(vec![
        candidate(
            "flv-a.example",
            StreamProtocol::Flv,
            "origin",
            "h264",
            "1080p",
            0,
        ),
        candidate(
            "flv-b.example",
            StreamProtocol::Flv,
            "origin",
            "h264",
            "1080p",
            1,
        ),
        candidate(
            "hls.example",
            StreamProtocol::Hls,
            "origin",
            "h264",
            "1080p",
            2,
        ),
    ]);
    let mut health = RouteHealthState::new(true);
    fail_twice(&mut health, &stream, now);

    let selection = health.select_route(&mut stream, later(now, 32), true);
    assert!(matches!(
        selection,
        RouteSelection::Selected { changed: true, .. }
    ));
    assert_eq!(
        RouteKey::from_stream(&stream).host.as_deref(),
        Some("flv-b.example")
    );
}

#[test]
fn falls_back_to_hls_when_no_other_flv_host_exists() {
    let now = start();
    let mut stream = stream(vec![
        candidate(
            "flv.example",
            StreamProtocol::Flv,
            "origin",
            "h264",
            "1080p",
            0,
        ),
        candidate(
            "hls.example",
            StreamProtocol::Hls,
            "origin",
            "h264",
            "1080p",
            1,
        ),
    ]);
    let mut health = RouteHealthState::new(true);
    fail_twice(&mut health, &stream, now);
    let _ = health.select_route(&mut stream, later(now, 32), true);
    assert_eq!(stream.suffix, "m3u8");
    health.begin_attempt(&stream);
    let _ = health.observe_live_attempt(
        Some(&DownloadStatus::SegmentCompleted),
        Span::from_secs(90),
        true,
        false,
        later(now, 122),
    );
    let metrics = health.metrics_snapshot();
    assert_eq!(metrics.connection_failures, 2);
    assert_eq!(metrics.route_switches, 1);
    assert_eq!(metrics.successful_switches, 1);
    assert_eq!(metrics.flv_to_hls_switches, 1);
    assert_eq!(metrics.successful_flv_to_hls_switches, 1);
    assert_eq!(metrics.flv_to_hls_connected_for, Span::from_secs(90));
}

#[test]
fn protocol_fallback_disabled_candidate_set_never_switches_to_hls() {
    let now = start();
    let mut stream = stream(vec![candidate(
        "flv.example",
        StreamProtocol::Flv,
        "origin",
        "h264",
        "1080p",
        0,
    )]);
    let mut health = RouteHealthState::new(true);
    fail_twice(&mut health, &stream, now);
    assert!(matches!(
        health.select_route(&mut stream, later(now, 32), true),
        RouteSelection::Unavailable { .. }
    ));
    assert_eq!(stream.suffix, "flv");
}

#[test]
fn cooling_route_is_not_selected_and_all_open_routes_back_off() {
    let now = start();
    let candidates = vec![
        candidate(
            "flv.example",
            StreamProtocol::Flv,
            "origin",
            "h264",
            "1080p",
            0,
        ),
        candidate(
            "hls.example",
            StreamProtocol::Hls,
            "origin",
            "h264",
            "1080p",
            1,
        ),
    ];
    let mut health = RouteHealthState::new(true);
    let mut current = stream(candidates.clone());
    fail_twice(&mut health, &current, now);
    let _ = health.select_route(&mut current, later(now, 32), true);
    fail_twice(&mut health, &current, later(now, 40));

    let mut refreshed = stream(candidates);
    let selection = health.select_route(&mut refreshed, later(now, 72), true);
    assert!(
        matches!(selection, RouteSelection::Unavailable { retry_after } if !retry_after.is_zero())
    );
}

#[test]
fn codec_change_has_a_distinct_route_key_and_selection() {
    let h264 = candidate(
        "flv.example",
        StreamProtocol::Flv,
        "origin",
        "h264",
        "1080p",
        0,
    );
    let h265 = candidate(
        "flv.example",
        StreamProtocol::Flv,
        "origin",
        "h265",
        "2160p",
        1,
    );
    assert_ne!(
        RouteKey::from_candidate(&h264),
        RouteKey::from_candidate(&h265)
    );
}

#[test]
fn signed_query_is_not_part_of_the_route_key() {
    let mut first = candidate(
        "flv.example",
        StreamProtocol::Flv,
        "origin",
        "h264",
        "1080p",
        0,
    );
    let mut refreshed = first.clone();
    first.url = "https://flv.example/live/fixture.flv?sign=old".to_string();
    refreshed.url = "https://flv.example/live/fixture.flv?sign=new&expire=2".to_string();
    assert_eq!(
        RouteKey::from_candidate(&first),
        RouteKey::from_candidate(&refreshed)
    );
}

#[test]
fn failures_outside_the_two_minute_window_restart_the_counter() {
    let now = start();
    let stream = stream(vec![candidate(
        "flv.example",
        StreamProtocol::Flv,
        "origin",
        "h264",
        "1080p",
        0,
    )]);
    let mut health = RouteHealthState::new(true);
    health.begin_attempt(&stream);
    let _ = health.observe_live_attempt(None, Span::zero(), false, false, now);
    health.begin_attempt(&stream);
    assert!(matches!(
        health.observe_live_attempt(
            None,
            Span::zero(),
            false,
            false,
            later(now, FAILURE_WINDOW_SECS + 1),
        ),
        HealthUpdate::Failure {
            failures: 1,
            circuit_opened: false,
            ..
        }
    ));
}

#[test]
fn stable_attempt_clears_failure_count_and_cooldown() {
    let now = start();
    let stream = stream(vec![candidate(
        "flv.example",
        StreamProtocol::Flv,
        "origin",
        "h264",
        "1080p",
        0,
    )]);
    let mut health = RouteHealthState::new(true);
    fail_twice(&mut health, &stream, now);
    health.begin_attempt(&stream);
    assert!(matches!(
        health.observe_live_attempt(
            Some(&DownloadStatus::SegmentCompleted),
            Span::from_secs(ROUTE_STABLE_THRESHOLD_SECS),
            true,
            false,
            later(now, ROUTE_STABLE_THRESHOLD_SECS),
        ),
        HealthUpdate::Recovered { .. }
    ));
    let mut refreshed = same_stream(&stream);
    assert!(matches!(
        health.select_route(&mut refreshed, later(now, ROUTE_STABLE_THRESHOLD_SECS), true),
        RouteSelection::Selected { .. }
    ));
}

#[test]
fn productive_short_eof_never_accumulates_failures() {
    let now = start();
    let stream = stream(vec![candidate(
        "flv.example",
        StreamProtocol::Flv,
        "origin",
        "h264",
        "1080p",
        0,
    )]);
    let mut health = RouteHealthState::new(true);

    for attempt in 0..20 {
        health.begin_attempt(&stream);
        assert!(matches!(
            health.observe_live_attempt(
                Some(&DownloadStatus::StreamEnded),
                Span::from_secs(30),
                false,
                true,
                later(now, attempt),
            ),
            HealthUpdate::Failure {
                failures: 1,
                circuit_opened: false,
                ..
            }
        ));
    }
    assert_eq!(health.metrics_snapshot().routes[0].stable_attempts, 0);
}

#[test]
fn auth_failure_refreshes_before_it_is_counted() {
    let now = start();
    let stream = stream(vec![candidate(
        "flv.example",
        StreamProtocol::Flv,
        "origin",
        "h264",
        "1080p",
        0,
    )]);
    let mut health = RouteHealthState::new(true);
    health.begin_attempt(&stream);
    assert!(matches!(
        health.observe_live_attempt(
            Some(&DownloadStatus::HttpStatus { status: 403 }),
            Span::zero(),
            false,
            false,
            now,
        ),
        HealthUpdate::AuthRefresh { .. }
    ));
    health.begin_attempt(&stream);
    assert!(matches!(
        health.observe_live_attempt(
            Some(&DownloadStatus::HttpStatus { status: 403 }),
            Span::zero(),
            false,
            false,
            later(now, 1),
        ),
        HealthUpdate::Failure { failures: 1, .. }
    ));
}

#[test]
fn cancellation_and_disabled_health_do_not_count_failures() {
    let now = start();
    let stream = stream(vec![candidate(
        "flv.example",
        StreamProtocol::Flv,
        "origin",
        "h264",
        "1080p",
        0,
    )]);
    let mut enabled = RouteHealthState::new(true);
    enabled.begin_attempt(&stream);
    assert_eq!(
        enabled.observe_live_attempt(
            Some(&DownloadStatus::Cancelled),
            Span::zero(),
            false,
            false,
            now,
        ),
        HealthUpdate::Unchanged
    );

    let mut disabled = RouteHealthState::new(false);
    disabled.begin_attempt(&stream);
    assert_eq!(
        disabled.observe_live_attempt(None, Span::zero(), false, false, now),
        HealthUpdate::Unchanged
    );
}

#[test]
fn failover_rollback_keeps_the_refreshed_primary_route() {
    let now = start();
    let mut stream = stream(vec![
        candidate(
            "flv.example",
            StreamProtocol::Flv,
            "origin",
            "h264",
            "1080p",
            0,
        ),
        candidate(
            "hls.example",
            StreamProtocol::Hls,
            "origin",
            "h264",
            "1080p",
            1,
        ),
    ]);
    let mut health = RouteHealthState::new(true);
    fail_twice(&mut health, &stream, now);
    assert!(matches!(
        health.select_route(&mut stream, later(now, 32), false),
        RouteSelection::Selected { changed: false, .. }
    ));
    assert_eq!(stream.suffix, "flv");
}

#[test]
fn failure_storm_alert_is_emitted_once_until_recovery() {
    let now = start();
    let mut stream = stream(vec![
        candidate(
            "flv.example",
            StreamProtocol::Flv,
            "origin",
            "h264",
            "1080p",
            0,
        ),
        candidate(
            "hls.example",
            StreamProtocol::Hls,
            "origin",
            "h264",
            "1080p",
            1,
        ),
    ]);
    let mut health = RouteHealthState::new(true);
    health.begin_attempt(&stream);
    let _ = health.observe_live_attempt(None, Span::zero(), false, false, now);
    health.begin_attempt(&stream);
    let first = health.observe_live_attempt(
        None,
        Span::zero(),
        false,
        false,
        later(now, 1),
    );
    assert!(matches!(first, HealthUpdate::Failure { alert: true, .. }));
    let _ = health.select_route(&mut stream, later(now, 2), true);
    health.begin_attempt(&stream);
    let _ = health.observe_live_attempt(
        None,
        Span::zero(),
        false,
        false,
        later(now, 3),
    );
    health.begin_attempt(&stream);
    let second = health.observe_live_attempt(
        None,
        Span::zero(),
        false,
        false,
        later(now, 4),
    );
    assert!(matches!(second, HealthUpdate::Failure { alert: false, .. }));

    health.begin_attempt(&stream);
    assert!(matches!(
        health.observe_live_attempt(
            Some(&DownloadStatus::SegmentCompleted),
            Span::from_secs(60),
            true,
            false,
            later(now, 5),
        ),
        HealthUpdate::Recovered { .. }
    ));
    health.begin_attempt(&stream);
    let _ = health.observe_live_attempt(
        None,
        Span::zero(),
        false,
        false,
        later(now, 6),
    );
    health.begin_attempt(&stream);
    assert!(matches!(
        health.observe_live_attempt(
            None,
            Span::zero(),
            false,
            false,
            later(now, 7),
        ),
        HealthUpdate::Failure { alert: true, .. }
    ));
}

fn flv(host: &str) -> LiveStream {
    stream(vec![candidate(host, StreamProtocol::Flv, "origin", "h264", "1080p", 0)])
}

/// One attempt without a result: its number of failures, and whether a circuit opened and an alert
/// was raised.
fn fail(health: &mut RouteHealthState, stream: &LiveStream, now: Timestamp) -> (u32, bool, bool) {
    health.begin_attempt(stream);
    match health.observe_live_attempt(None, Span::zero(), false, false, now) {
        HealthUpdate::Failure { failures, circuit_opened, alert, .. } => {
            (failures, circuit_opened, alert)
        }
        other => panic!("no failure: {other:?}"),
    }
}

#[test]
fn an_address_with_and_without_a_query_has_one_key() {
    let mut signed = candidate("named.example", StreamProtocol::Flv, "origin", "H264", "1080p", 0);
    let mut bare = signed.clone();
    signed.url = "https://user@flv.example:8443/a?b=https://c@other.example/?d#e".to_string();
    bare.url = "https://user@flv.example:8443/a".to_string();
    let key = RouteKey::from_candidate(&signed);
    assert_eq!(key, RouteKey::from_candidate(&bare));
    bare.url = "HTTPS://FLV.example?a".to_string();
    assert_eq!(key, RouteKey::from_candidate(&bare));
    assert_eq!(key.host.as_deref(), Some("flv.example"));
    bare.codec = Some("h264".to_string());
    assert_eq!(key, RouteKey::from_candidate(&bare));
    for (one, other, host) in [
        ("rtmp://Live.example/app?sign=1", "rtmp://Live.example/app", Some("live.example")),
        ("rtmp://live.example?a@b", "rtmp://live.example?", Some("live.example")),
        ("  http://a.example/x ?s=1", "http://a.example/x ?s=2\n", Some("a.example")),
        ("ws://[::1]:9/x#f?s", "ws://[::1]:9/x#f", Some("[::1]")),
        ("file:///C|?x", "file:///C|", Some("named.example")),
        ("mailto:a@b?s=1", "mailto:a@b", Some("named.example")),
    ] {
        signed.url = one.to_string();
        let found = RouteKey::from_candidate(&signed);
        assert_eq!(found.host.as_deref(), host, "{one}");
        signed.url = other.to_string();
        assert_eq!(found, RouteKey::from_candidate(&signed), "{other}");
    }
    bare.codec = Some("hevc".to_string());
    assert_ne!(key, RouteKey::from_candidate(&bare));
}

#[test]
fn the_window_runs_from_the_last_failure() {
    let (now, stream) = (start(), flv("flv.example"));
    let mut health = RouteHealthState::new(true);
    let window = FAILURE_WINDOW_SECS;
    assert_eq!(fail(&mut health, &stream, now), (1, false, false));
    assert_eq!(fail(&mut health, &stream, later(now, window)), (2, true, true));
    assert_eq!(fail(&mut health, &stream, later(now, 2 * window)), (3, true, false));
    assert_eq!(fail(&mut health, &stream, later(now, 3 * window + 1)), (1, false, false));
}

#[test]
fn another_route_healing_ends_the_storm() {
    let now = start();
    let (first, second) = (flv("a.example"), flv("b.example"));
    let mut health = RouteHealthState::new(true);
    assert_eq!(fail(&mut health, &first, now), (1, false, false));
    assert_eq!(fail(&mut health, &first, later(now, 1)), (2, true, true));
    assert_eq!(fail(&mut health, &second, later(now, 2)), (1, false, false));
    assert_eq!(fail(&mut health, &second, later(now, 3)), (2, true, false));
    health.begin_attempt(&second);
    let _ = health.observe_live_attempt(
        Some(&DownloadStatus::StreamEnded),
        Span::from_secs(1),
        false,
        true,
        later(now, 4),
    );
    assert_eq!(fail(&mut health, &first, later(now, 5)), (3, true, true));
    assert_eq!(fail(&mut health, &second, later(now, 6)), (2, true, false));
}

#[test]
fn a_report_adds_up_and_is_in_order() {
    let now = start();
    let mut health = RouteHealthState::new(true);
    for (at, host) in ["c.example", "a.example", "c.example", "b.example"].iter().enumerate() {
        fail(&mut health, &flv(host), later(now, at as u64));
    }
    let report = health.metrics_snapshot();
    let hosts: Vec<&str> =
        report.routes.iter().filter_map(|route| route.key.host.as_deref()).collect();
    assert_eq!(hosts, ["a.example", "b.example", "c.example"]);
    let failures: Vec<u64> = report.routes.iter().map(|route| route.failures).collect();
    assert_eq!(failures, [1, 1, 2]);
    assert_eq!(report.connection_failures, 4);
}
