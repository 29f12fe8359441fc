use biliup_common::audio_normalization::commands::{
    measure_args, probe_args, sample_args, transcode_args, MeasuredLoudness, UPLOAD_BITRATE,
};
use biliup_common::audio_normalization::measurement::{
    json_candidates, parse_loudnorm_measurement, parse_transcode_summary, stderr_text,
    MeasurementError, TranscodeReport,
};
use biliup_common::audio_normalization::run::{
    normalized_temp_name, normalized_temp_path, ActiveArtifacts, NormalizationOutcome,
    NormalizationRun, NormalizeEvent, NormalizeStep, NormalizedForm, TempArtifact, TranscodeEvent,
};
use biliup_common::audio_normalization::sample::{
    after_sample_event, is_claim, retry_later, sample_status, sample_status_at, stale_claim_step, AudioSampleStore,
    ClaimStep, SampleEvent, SampleFailure, SampleStep,
};
use biliup_common::audio_normalization::{
    output_is_faithful, AudioProbe, DiskBudget, NormalizationSettings, OriginalReason,
    OutputRejection, ProbeStream, RejectionStreak, GIB, STDERR_LIMIT,
};
use biliup_common::ffmpeg_args::FfmpegArg;
use biliup_common::time::{Span, Timestamp, MAX_CLOCK_NANOS, MIN_CLOCK_NANOS};
use serde_json::Value;

fn plain_number(text: &str) -> Option<f64> {
    text.parse::<f64>().ok().filter(|v| v.is_finite())
}

fn in_range(value: &Value) -> bool {
    let limits = [
        ("input_i", -100.0, 20.0),
        ("input_lra", 0.0, 100.0),
        ("input_tp", -100.0, 20.0),
        ("input_thresh", -100.0, 20.0),
        ("target_offset", -100.0, 100.0),
    ];
    limits.iter().all(|(name, low, high)| {
        plain_number(value[*name].as_str().unwrap())
            .is_some_and(|number| *low <= number && number <= *high)
    })
}

fn reading(text: &str) -> Option<Value> {
    let value: Value = serde_json::from_str(text).ok()?;
    let names = ["input_i", "input_lra", "input_tp", "input_thresh", "target_offset"];
    if names.iter().all(|name| value[*name].is_string()) {
        Some(value)
    } else {
        None
    }
}

fn measured(stderr: &str) -> Result<f64, MeasurementError> {
    let values: Vec<Option<Value>> = json_candidates(stderr.as_bytes())
        .into_iter()
        .map(|(from, to)| reading(&stderr[from..to]))
        .collect();
    let readings: Vec<Option<bool>> =
        values.iter().map(|value| value.as_ref().map(in_range)).collect();
    let at = parse_loudnorm_measurement(&readings)?;
    Ok(plain_number(values[at].as_ref().unwrap()["input_i"].as_str().unwrap()).unwrap())
}

#[test]
fn parses_loudnorm_json_among_logs() {
    let stderr = "log {\"other\":1}\n{\"input_i\":\"-27.40\",\"input_tp\":\"-6.10\",\"input_lra\":\"3.20\",\"input_thresh\":\"-38.00\",\"target_offset\":\"0.10\"}\nlog";
    assert_eq!(measured(stderr).unwrap(), -27.4);
}

#[test]
fn rejects_non_finite() {
    let stderr = "{\"input_i\":\"-inf\",\"input_tp\":\"-2\",\"input_lra\":\"1\",\"input_thresh\":\"-30\",\"target_offset\":\"0\"}";
    assert_eq!(measured(stderr), Err(MeasurementError::Implausible));
}

#[test]
fn a_log_without_a_measurement_has_none() {
    assert_eq!(measured("no braces at all"), Err(MeasurementError::NotFound));
    assert_eq!(measured("{\"other\":1}"), Err(MeasurementError::NotFound));
}

#[test]
fn the_brace_groups_come_from_the_end_and_hold_their_inner_groups() {
    assert_eq!(json_candidates(b"a{b}c{d{e}}"), vec![(5, 11), (1, 4)]);
    assert_eq!(json_candidates(b"}{"), Vec::<(usize, usize)>::new());
}

#[test]
fn the_transcode_summary_yields_the_mode_and_the_output_loudness() {
    let dynamic = "\
[Parsed_loudnorm_0 @ 0x1] \n\
Input Integrated:    -30.5 LUFS\n\
Output Integrated:   -23.8 LUFS\n\
Output True Peak:     -1.5 dBTP\n\
Normalization Type:   Dynamic\n\
Target Offset:        +9.8 LU\n";
    let report = parse_transcode_summary(dynamic);
    assert_eq!(report.normalization_type.as_deref(), Some("dynamic"));
    assert_eq!(report.output_i.as_deref().and_then(plain_number), Some(-23.8));

    let linear = "Output Integrated:   -15.8 LUFS\nNormalization Type:   Linear\n";
    let report = parse_transcode_summary(linear);
    assert_eq!(report.normalization_type.as_deref(), Some("linear"));
    assert_eq!(report.output_i.as_deref().and_then(plain_number), Some(-15.8));

    assert_eq!(
        parse_transcode_summary("frame= 200 fps=0.0\nnothing useful here\n"),
        TranscodeReport { normalization_type: None, output_i: None }
    );
}

const OFFSET_SOURCE_JSON: &[u8] = br#"{
    "streams": [
        {"index": 0, "codec_type": "video", "codec_name": "h264", "start_time": "3600.000000", "duration": "N/A"},
        {"index": 1, "codec_type": "audio", "codec_name": "aac", "start_time": "3599.977000", "duration": "N/A"}
    ],
    "format": {"duration": "3605.900000", "start_time": "3599.977000"}
}"#;

const ZERO_BASED_OUTPUT_JSON: &[u8] = br#"{
    "streams": [
        {"index": 0, "codec_type": "video", "codec_name": "h264", "start_time": "0.034000"},
        {"index": 1, "codec_type": "audio", "codec_name": "aac", "start_time": "0.000000"}
    ],
    "format": {"duration": "6.111000", "start_time": "0.000000"}
}"#;

struct Probed {
    probe: AudioProbe,
    duration_seconds: Option<f64>,
    container_duration: Option<f64>,
    start_seconds: Option<f64>,
}

fn text_of(value: &Value) -> Option<String> {
    value.as_str().map(str::to_string)
}

fn probed(json: &[u8]) -> Probed {
    let value: Value = serde_json::from_slice(json).unwrap();
    let number = |v: &Value| v.as_str().and_then(|text| text.parse::<f64>().ok());
    let container_duration = number(&value["format"]["duration"]);
    let start_seconds = number(&value["format"]["start_time"]);
    let start = start_seconds.filter(|v| v.is_finite() && *v > 0.0).unwrap_or(0.0);
    let duration_seconds = container_duration
        .filter(|v| v.is_finite())
        .map(|duration| duration - start)
        .filter(|span| *span > 0.0);
    let streams: Vec<ProbeStream> = value["streams"]
        .as_array()
        .unwrap()
        .iter()
        .map(|stream| ProbeStream {
            codec_type: text_of(&stream["codec_type"]),
            codec_name: text_of(&stream["codec_name"]),
            index: stream["index"].as_u64().unwrap() as usize,
        })
        .collect();
    let positive = duration_seconds.unwrap_or(0.0) > 0.0;
    Probed {
        probe: AudioProbe::from_streams(&streams, duration_seconds.is_some(), positive),
        duration_seconds,
        container_duration,
        start_seconds,
    }
}

fn tolerance(span: f64) -> f64 {
    (span * 0.005).max(1.0)
}

fn judged(
    input: &Probed,
    output: &Probed,
    input_bytes: u64,
    output_bytes: u64,
) -> Result<(), OutputRejection> {
    let drifted = input.duration_seconds.is_some_and(|span| {
        (output.duration_seconds.unwrap_or(0.0) - span).abs() > tolerance(span)
    });
    output_is_faithful(&input.probe, Some(&output.probe), input_bytes, output_bytes, drifted)
}

#[test]
fn probe_reports_the_content_span_not_the_end_timestamp() {
    let found = probed(OFFSET_SOURCE_JSON);
    assert!((found.duration_seconds.unwrap() - 5.923).abs() < 1e-6);
    assert_eq!(found.container_duration, Some(3605.9));
    assert_eq!(found.start_seconds, Some(3599.977));
    assert_eq!(found.probe.primary_audio_stream, Some(1));
    assert_eq!(found.probe.video_codecs, vec!["h264".to_string()]);
    assert!(found.probe.has_video());
}

#[test]
fn an_offset_source_and_its_zero_based_output_are_consistent() {
    let input = probed(OFFSET_SOURCE_JSON);
    let output = probed(ZERO_BASED_OUTPUT_JSON);
    assert_eq!(judged(&input, &output, 1_000, 1_000), Ok(()));
}

#[test]
fn a_missing_or_negative_start_time_degrades_to_zero() {
    for raw in [
        br#"{"streams": [], "format": {"duration": "12.0", "start_time": "N/A"}}"#.as_slice(),
        br#"{"streams": [], "format": {"duration": "12.0"}}"#.as_slice(),
        br#"{"streams": [], "format": {"duration": "12.0", "start_time": "-0.5"}}"#.as_slice(),
    ] {
        let found = probed(raw);
        assert_eq!(found.duration_seconds, Some(12.0));
        assert!(found.probe.span_known);
        assert!(!found.probe.has_video());
    }
}

#[test]
fn a_non_positive_span_skips_the_duration_check_instead_of_failing() {
    let input = probed(
        br#"{"streams": [{"index": 0, "codec_type": "audio"}],
             "format": {"duration": "10.0", "start_time": "10.0"}}"#,
    );
    assert_eq!(input.duration_seconds, None);
    assert!(!input.probe.span_known);

    let output = probed(ZERO_BASED_OUTPUT_JSON);
    assert_eq!(
        judged(&input, &output, 1_000, 1_000).unwrap_err().reason(),
        "video_streams_differ"
    );
    let same = probed(
        br#"{"streams": [{"index": 0, "codec_type": "audio"}],
             "format": {"duration": "6.0", "start_time": "0.0"}}"#,
    );
    assert_eq!(
        output_is_faithful(&input.probe, Some(&same.probe), 1_000, 1_000, true),
        Ok(())
    );
}

#[test]
fn a_rejection_carries_the_numbers_it_judged_on() {
    let input = probed(OFFSET_SOURCE_JSON);
    let truncated = probed(
        br#"{"streams": [
                {"index": 0, "codec_type": "video", "codec_name": "h264"},
                {"index": 1, "codec_type": "audio", "codec_name": "aac"}
            ],
            "format": {"duration": "1.000000", "start_time": "0.000000"}}"#,
    );

    let rejection = judged(&input, &truncated, 1_000, 1_000).unwrap_err();
    assert_eq!(rejection.reason(), "duration_drift");
    assert_eq!(rejection, OutputRejection::DurationDrift);
    assert!((input.duration_seconds.unwrap() - 5.923).abs() < 1e-6);
    assert_eq!(truncated.duration_seconds, Some(1.0));
    assert_eq!(tolerance(input.duration_seconds.unwrap()), 1.0);
    assert_eq!(input.start_seconds, Some(3599.977));
    assert_eq!(input.container_duration, Some(3605.9));

    let too_small = judged(&input, &truncated, 1_000, 100).unwrap_err();
    assert_eq!(
        too_small,
        OutputRejection::TooSmall { input_bytes: 1_000, output_bytes: 100 }
    );
}

#[test]
fn every_kind_of_rejection_has_its_cause() {
    let input = probed(OFFSET_SOURCE_JSON);
    let unreadable = output_is_faithful(&input.probe, None, 10, 7, false).unwrap_err();
    assert_eq!(unreadable, OutputRejection::Unreadable { output_bytes: 7 });
    assert_eq!(unreadable.reason(), "output_unreadable");

    let silent = probed(
        br#"{"streams": [{"index": 0, "codec_type": "video", "codec_name": "h264"}],
             "format": {"duration": "6.0"}}"#,
    );
    let no_audio = judged(&input, &silent, 10, 7).unwrap_err();
    assert_eq!(no_audio, OutputRejection::NoAudio { output_bytes: 7 });
    assert_eq!(no_audio.reason(), "output_has_no_audio");

    let endless = probed(
        br#"{"streams": [{"index": 1, "codec_type": "audio"}], "format": {"duration": "N/A"}}"#,
    );
    let no_duration = judged(&input, &endless, 10, 7).unwrap_err();
    assert_eq!(no_duration, OutputRejection::NoDuration { output_bytes: 7 });
    assert_eq!(no_duration.reason(), "output_has_no_duration");

    let other = probed(
        br#"{"streams": [
                {"index": 0, "codec_type": "video", "codec_name": "hevc"},
                {"index": 1, "codec_type": "video"},
                {"index": 2, "codec_type": "audio"}
            ],
            "format": {"duration": "6.0"}}"#,
    );
    assert_eq!(
        judged(&input, &other, 10, 10).unwrap_err(),
        OutputRejection::VideoStreamsDiffer {
            source: "h264".to_string(),
            output: "hevc,".to_string(),
        }
    );
    let output = probed(ZERO_BASED_OUTPUT_JSON);
    assert_eq!(judged(&input, &output, 200, 100), Ok(()));
    assert_eq!(judged(&input, &output, 201, 100).unwrap_err().reason(), "output_too_small");
    assert_eq!(judged(&input, &output, u64::MAX, u64::MAX), Ok(()));
}

#[test]
fn the_breaker_trips_only_on_a_run_of_the_same_reason() {
    let mut streak = RejectionStreak::new();
    assert!(!streak.record_rejection("duration_drift"));
    assert!(!streak.record_rejection("duration_drift"));
    assert!(streak.record_rejection("duration_drift"));
    assert!(streak.tripped);
    assert!(!streak.record_rejection("duration_drift"));
}

#[test]
fn a_success_in_between_clears_the_streak() {
    let mut streak = RejectionStreak::new();
    streak.record_rejection("duration_drift");
    streak.record_rejection("duration_drift");
    streak.record_success();
    streak.record_rejection("duration_drift");
    streak.record_rejection("duration_drift");
    assert!(!streak.tripped);
}

#[test]
fn alternating_reasons_never_trip_the_breaker() {
    let mut streak = RejectionStreak::new();
    for _ in 0..3 {
        streak.record_rejection("duration_drift");
        streak.record_rejection("output_too_small");
    }
    assert!(!streak.tripped);
}

fn budget(reserve_bytes: u64) -> DiskBudget {
    DiskBudget { reserve_bytes }
}

#[test]
fn admission_refuses_to_start_when_the_output_would_not_fit() {
    assert_eq!(budget(100).admits(Some(149), 50), Err((149, 150)));
    assert_eq!(budget(100).admits(Some(150), 50), Ok(()));
}

#[test]
fn admission_passes_when_space_is_plentiful() {
    assert_eq!(budget(1024).admits(Some(64 * 1024 * 1024 * 1024), 17), Ok(()));
}

#[test]
fn an_unreadable_filesystem_does_not_block_normalization() {
    assert_eq!(budget(u64::MAX).admits(None, u64::MAX), Ok(()));
    assert!(!budget(u64::MAX).under_pressure(None));
}

#[test]
fn pressure_begins_below_the_reserve() {
    let reserve = DiskBudget::from_reserve_gib(2);
    assert_eq!(reserve.reserve_bytes, 2 * GIB);
    assert!(reserve.under_pressure(Some(2 * GIB - 1)));
    assert!(!reserve.under_pressure(Some(2 * GIB)));
    assert_eq!(DiskBudget::from_reserve_gib(u64::MAX).reserve_bytes, u64::MAX);
}

#[test]
fn settings_can_be_switched_for_one_room() {
    let settings = NormalizationSettings::new(true, "-16".to_string(), true, 1);
    let off = settings.with_enabled(false);
    assert!(!off.enabled);
    assert!(off.keep_original);
    assert_eq!(off.target_lufs, "-16");
    assert_eq!(off.budget, budget(GIB));
}

fn run_to_end(
    keep_original: bool,
    streak: &mut RejectionStreak,
    events: Vec<NormalizeEvent>,
) -> (NormalizeStep, bool) {
    let mut run = NormalizationRun::begin(keep_original, streak);
    let mut discard = false;
    for event in events {
        let moved = run.advance(event, streak);
        discard = discard || moved.discard;
    }
    (run.step(), discard)
}

fn good_events(anomaly: Option<bool>) -> Vec<NormalizeEvent> {
    vec![
        NormalizeEvent::Size(Some(1_000)),
        NormalizeEvent::Probed(Some(true)),
        NormalizeEvent::Admitted(true),
        NormalizeEvent::Measured(Some(anomaly)),
        NormalizeEvent::MeasurementRead(true),
        NormalizeEvent::Transcoded(TranscodeEvent::Done),
        NormalizeEvent::Inspected(None),
    ]
}

#[test]
fn keep_original_returns_temporary_artifact_and_drop_cleans_it() {
    let mut streak = RejectionStreak::new();
    let (step, discard) = run_to_end(true, &mut streak, good_events(Some(false)));
    let end = NormalizationOutcome::Normalized {
        form: NormalizedForm::Artifact,
        source_timestamps_clean: true,
    };
    assert_eq!(step, NormalizeStep::Finished(end));
    assert!(!discard);
    assert_eq!(end.upload_path("a.flv", "a.part.flv"), "a.part.flv");

    let mut active = ActiveArtifacts::new();
    let artifact = TempArtifact::normalization_output(&mut active, "a.part.flv".to_string());
    assert!(active.contains("a.part.flv"));
    assert!(artifact.release(&mut active));
    assert!(!active.contains("a.part.flv"));
}

#[test]
fn missing_timestamp_diagnosis_does_not_claim_a_clean_source() {
    let mut streak = RejectionStreak::new();
    let mut events = good_events(None);
    events.push(NormalizeEvent::Committed(true));
    assert_eq!(
        run_to_end(false, &mut streak, events).0,
        NormalizeStep::Finished(NormalizationOutcome::Normalized {
            form: NormalizedForm::ReplacedOriginal,
            source_timestamps_clean: false,
        })
    );
}

#[test]
fn anomalous_source_does_not_claim_a_clean_source() {
    let mut streak = RejectionStreak::new();
    let mut events = good_events(Some(true));
    events.push(NormalizeEvent::Committed(true));
    assert_eq!(
        run_to_end(false, &mut streak, events).0,
        NormalizeStep::Finished(NormalizationOutcome::Normalized {
            form: NormalizedForm::ReplacedOriginal,
            source_timestamps_clean: false,
        })
    );
}

#[test]
fn measurement_failure_falls_back_to_original() {
    let mut streak = RejectionStreak::new();
    let mut events = good_events(None);
    events.truncate(3);
    events.push(NormalizeEvent::Measured(None));
    assert_eq!(
        run_to_end(false, &mut streak, events).0,
        NormalizeStep::Finished(NormalizationOutcome::Original {
            reason: OriginalReason::MeasureFailed,
        })
    );
}

#[test]
fn successful_normalization_replaces_the_original_in_place() {
    let mut streak = RejectionStreak::new();
    let mut events = good_events(Some(false));
    events.push(NormalizeEvent::Committed(true));
    let (step, _) = run_to_end(false, &mut streak, events);
    let end = NormalizationOutcome::Normalized {
        form: NormalizedForm::ReplacedOriginal,
        source_timestamps_clean: true,
    };
    assert_eq!(step, NormalizeStep::Finished(end));
    assert_eq!(end.upload_path("a.flv", "a.part.flv"), "a.flv");
}

fn recording_of(seconds: f64) -> Probed {
    let json = format!(
        r#"{{"streams": [{{"index": 0, "codec_type": "video", "codec_name": "h264"}},
                        {{"index": 1, "codec_type": "audio", "codec_name": "aac"}}],
            "format": {{"duration": "{seconds}", "start_time": "0.0"}}}}"#
    );
    probed(json.as_bytes())
}

#[test]
fn duration_drift_within_tolerance_is_accepted() {
    let verdict = judged(&recording_of(600.0), &recording_of(602.0), 16, 17);
    assert_eq!(verdict, Ok(()));
    let verdict = judged(&recording_of(600.0), &recording_of(604.0), 16, 17);
    assert_eq!(verdict, Err(OutputRejection::DurationDrift));
}

#[test]
fn an_unparseable_summary_does_not_fail_the_segment() {
    let report = parse_transcode_summary("");
    assert_eq!(report, TranscodeReport { normalization_type: None, output_i: None });
    let mut streak = RejectionStreak::new();
    let mut events = good_events(Some(false));
    events.push(NormalizeEvent::Committed(true));
    assert!(matches!(
        run_to_end(false, &mut streak, events).0,
        NormalizeStep::Finished(NormalizationOutcome::Normalized { .. })
    ));
}

#[test]
fn unfaithful_output_is_discarded_and_the_original_survives() {
    for reason in [
        "duration_drift",
        "output_too_small",
        "video_streams_differ",
        "output_has_no_audio",
    ] {
        let mut streak = RejectionStreak::new();
        let mut events = good_events(Some(false));
        events.pop();
        events.push(NormalizeEvent::Inspected(Some(reason)));
        let (step, discard) = run_to_end(false, &mut streak, events);
        assert_eq!(
            step,
            NormalizeStep::Finished(NormalizationOutcome::Original {
                reason: OriginalReason::InvalidOutput,
            })
        );
        assert!(discard);
        assert_eq!(streak.count, 1);
    }
}

#[test]
fn every_early_end_names_its_reason() {
    let ends: Vec<(Vec<NormalizeEvent>, OriginalReason)> = vec![
        (vec![NormalizeEvent::Size(None)], OriginalReason::MissingOrEmpty),
        (vec![NormalizeEvent::Size(Some(0))], OriginalReason::MissingOrEmpty),
        (
            vec![NormalizeEvent::Size(Some(1)), NormalizeEvent::Probed(None)],
            OriginalReason::ProbeFailed,
        ),
        (
            vec![NormalizeEvent::Size(Some(1)), NormalizeEvent::Probed(Some(false))],
            OriginalReason::NoAudio,
        ),
        (
            vec![
                NormalizeEvent::Size(Some(1)),
                NormalizeEvent::Probed(Some(true)),
                NormalizeEvent::Admitted(false),
            ],
            OriginalReason::DiskAdmissionDenied,
        ),
    ];
    for (events, reason) in ends {
        let mut streak = RejectionStreak::new();
        assert_eq!(
            run_to_end(false, &mut streak, events).0,
            NormalizeStep::Finished(NormalizationOutcome::Original { reason })
        );
    }
}

#[test]
fn disk_pressure_mid_transcode_cancels_and_falls_back_to_the_original() {
    let mut streak = RejectionStreak::new();
    let mut events = good_events(Some(false));
    events.truncate(5);
    events.push(NormalizeEvent::Transcoded(TranscodeEvent::DiskPressure));
    let (step, discard) = run_to_end(false, &mut streak, events);
    assert_eq!(
        step,
        NormalizeStep::Finished(NormalizationOutcome::Original {
            reason: OriginalReason::DiskPressureAborted,
        })
    );
    assert!(discard);
}

#[test]
fn a_tripped_breaker_skips_ffmpeg_entirely() {
    let mut streak = RejectionStreak::new();
    for _ in 0..3 {
        let mut events = good_events(Some(false));
        events.pop();
        events.push(NormalizeEvent::Inspected(Some("duration_drift")));
        run_to_end(false, &mut streak, events);
    }
    assert!(streak.tripped);
    let run = NormalizationRun::begin(false, &streak);
    assert_eq!(
        run.step(),
        NormalizeStep::Finished(NormalizationOutcome::Original {
            reason: OriginalReason::NormalizationDisabled,
        })
    );
}

#[test]
fn failed_replacement_leaves_the_original_intact() {
    let mut streak = RejectionStreak::new();
    let mut events = good_events(Some(false));
    events.push(NormalizeEvent::Committed(false));
    let (step, discard) = run_to_end(false, &mut streak, events);
    assert!(matches!(
        step,
        NormalizeStep::Finished(NormalizationOutcome::Original { .. })
    ));
    assert!(discard);
}

#[test]
fn orphaned_partial_artifacts_are_removed_without_touching_active_artifacts() {
    let mut active = ActiveArtifacts::new();
    let name = normalized_temp_name(Some("a"), Some("flv"), 0x2a);
    assert_eq!(name, "a.audio-normalized-000000000000002a.part.flv");
    assert_eq!(
        normalized_temp_name(None, None, 1),
        "segment.audio-normalized-0000000000000001.part.mkv"
    );
    assert!(active.is_orphan(&name, &name));
    let mut artifact = TempArtifact::normalization_output(&mut active, name.clone());
    assert!(!active.is_orphan(&name, &name));
    assert!(!active.is_orphan("a.flv", "a.flv"));
    artifact.mark_committed();
    assert!(!artifact.release(&mut active));
    assert!(active.is_orphan(&name, &name));
    assert_eq!(TempArtifact::guard("x".to_string()).path(), "x");
}

#[test]
fn fresh_names_of_outputs_differ() {
    let first = normalized_temp_path(Some("a"), Some("flv"));
    let second = normalized_temp_path(Some("a"), Some("flv"));
    assert!(first.starts_with("a.audio-normalized-"));
    assert!(first.ends_with(".part.flv"));
    assert_eq!(first.len(), "a.audio-normalized-".len() + 16 + ".part.flv".len());
    assert_ne!(first, second);
}

#[test]
fn the_end_of_an_error_output_is_shown() {
    assert_eq!(stderr_text(b"ab\xffcd"), "ab\u{fffd}cd");
    let mut long = vec![b'x'; STDERR_LIMIT];
    long.push(b'y');
    let shown = stderr_text(&long);
    assert_eq!(shown.len(), STDERR_LIMIT);
    assert!(shown.ends_with("xy"));
}

#[test]
fn the_sample_has_fixed_places() {
    let store = AudioSampleStore::for_working_directory("data");
    assert_eq!(store.sample_path(), "data/audio-normalization/sample.m4a");
    assert_eq!(store.request_path(), "data/audio-normalization/capture-next");
    let under = "data/audio-normalization/";
    assert_eq!(
        store.claim_under(0x2a).path,
        format!("{under}capture-in-progress-000000000000002a")
    );
    assert_eq!(store.clip_path(u64::MAX), format!("{under}sample-raw-ffffffffffffffff.m4a"));
    assert_eq!(store.candidate_path(1), format!("{under}sample-new-0000000000000001.m4a"));
    assert_ne!(store.fresh_clip_path(), store.fresh_clip_path());
    assert_ne!(store.fresh_candidate_path(), store.fresh_candidate_path());
    let claim = store.fresh_claim();
    let name = claim.path.rsplit('/').next().unwrap();
    assert!(is_claim(name));
    assert!(!is_claim("capture-next"));
    assert_ne!(claim.path, store.fresh_claim().path);
}

#[test]
fn stale_claims_are_armed_again_once() {
    let old = Some(Span::from_secs(3601));
    assert_eq!(stale_claim_step(Some(Span::from_secs(3600)), false), ClaimStep::Keep);
    assert_eq!(stale_claim_step(old, true), ClaimStep::Remove);
    assert_eq!(stale_claim_step(old, false), ClaimStep::Rearm);
    assert_eq!(retry_later(true), ClaimStep::Remove);
    assert_eq!(retry_later(false), ClaimStep::Rearm);
}

#[test]
fn the_status_shows_the_sample_and_the_request() {
    let empty = sample_status(None, None, false, 0);
    assert!(!empty.sample_ready && !empty.capture_pending);
    let pending = sample_status(Some(5), Some("now".to_string()), false, 1);
    assert!(pending.sample_ready && pending.capture_pending);
    assert_eq!(pending.size_bytes, Some(5));
    assert_eq!(pending.updated_at.as_deref(), Some("now"));
    assert!(sample_status(None, None, true, 0).capture_pending);
    let written = Timestamp::from_nanos(1_700_000_000_250_000_000).unwrap();
    let shown = sample_status_at(Some(5), Some(written), false, 0);
    assert_eq!(shown.updated_at.as_deref(), Some("2023-11-14T22:13:20.250+00:00"));
    assert!(shown.sample_ready && !shown.capture_pending);
    let before_1970 = Timestamp::from_nanos(-1).unwrap();
    let shown = sample_status_at(Some(5), Some(before_1970), false, 0);
    assert_eq!(shown.updated_at.as_deref(), Some("1969-12-31T23:59:59.999999999+00:00"));
    for nanos in [MIN_CLOCK_NANOS, MAX_CLOCK_NANOS] {
        let edge = Timestamp::from_nanos(nanos);
        assert!(sample_status_at(None, edge, false, 0).updated_at.is_some());
    }
    assert_eq!(sample_status_at(None, None, false, 0).updated_at, None);
}

#[test]
fn a_sample_is_taken_step_by_step() {
    assert_eq!(after_sample_event(SampleEvent::Probed(Some(true))), SampleStep::Extract);
    assert_eq!(after_sample_event(SampleEvent::Extracted(true)), SampleStep::CheckClip);
    assert_eq!(
        after_sample_event(SampleEvent::ClipChecked { bytes: 1, has_duration: true }),
        SampleStep::Normalize
    );
    assert_eq!(after_sample_event(SampleEvent::Normalized(Some(false))), SampleStep::CheckSample);
    assert_eq!(after_sample_event(SampleEvent::SampleChecked(Some(true))), SampleStep::Commit);
    assert_eq!(after_sample_event(SampleEvent::Committed(true)), SampleStep::Done);
    let failures = [
        (SampleEvent::Probed(None), SampleFailure::ProbeFailed),
        (SampleEvent::Probed(Some(false)), SampleFailure::NoAudio),
        (SampleEvent::Extracted(false), SampleFailure::ExtractionFailed),
        (SampleEvent::ClipChecked { bytes: 0, has_duration: true }, SampleFailure::EmptyClip),
        (SampleEvent::ClipChecked { bytes: 1, has_duration: false }, SampleFailure::EmptyClip),
        (SampleEvent::Normalized(None), SampleFailure::NotNormalized),
        (SampleEvent::Normalized(Some(true)), SampleFailure::ReplacedSource),
        (SampleEvent::SampleChecked(None), SampleFailure::InvalidSample),
        (SampleEvent::SampleChecked(Some(false)), SampleFailure::InvalidSample),
        (SampleEvent::Committed(false), SampleFailure::CommitFailed),
    ];
    for (event, expected) in failures {
        assert!(matches!(
            after_sample_event(event),
            SampleStep::Failed { reason, .. } if reason == expected
        ));
    }
}

fn shown(args: &[FfmpegArg]) -> String {
    let words: Vec<&str> = args
        .iter()
        .map(|arg| match arg {
            FfmpegArg::Text(word) => word.as_str(),
            FfmpegArg::Input => "IN",
            FfmpegArg::Output => "OUT",
        })
        .collect();
    words.join(" ")
}

#[test]
fn the_commands_name_the_target_and_the_measurement() {
    assert_eq!(shown(&probe_args()), "-v error -show_streams -show_format -of json IN");
    assert!(shown(&measure_args("-16")).contains("loudnorm=I=-16:LRA=11:TP=-1.5"));
    let loudness = MeasuredLoudness {
        input_i: "-27.4".to_string(),
        input_lra: "3.2".to_string(),
        input_tp: "-6.1".to_string(),
        input_thresh: "-38".to_string(),
        target_offset: "0.1".to_string(),
    };
    let line = shown(&transcode_args(UPLOAD_BITRATE, "-16", &loudness, Some("mp4")));
    assert!(line.contains("measured_I=-27.4"));
    assert!(line.contains("measured_LRA=3.2"));
    assert!(line.contains("measured_TP=-6.1"));
    assert!(line.contains("measured_thresh=-38"));
    assert!(line.contains("offset=0.1"));
    assert!(line.contains("192k"));
    assert!(line.contains("+faststart"));
    assert!(line.ends_with("OUT"));
    let flv = shown(&transcode_args(UPLOAD_BITRATE, "-16", &loudness, Some("flv")));
    assert!(!flv.contains("+faststart"));
    assert!(shown(&sample_args("12.5", "30")).contains("12.5"));
}

#[test]
fn only_the_first_long_run_is_told() {
    let mut streak = RejectionStreak::new();
    let mut told = Vec::new();
    for reason in ["a", "a", "b", "b", "b", "b", "c", "c", "c"] {
        told.push(streak.record_rejection(reason));
    }
    assert_eq!(told, [false, false, false, false, true, false, false, false, false]);
    streak.record_success();
    assert!(streak.tripped);
}
