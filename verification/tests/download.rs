use biliup_common::download::commands::{concat_merge_args, copy_merge_args, remux_input_args};
use biliup_common::download::flv::{flv_codec_headers, may_be_joined, media_compatibility_key};
use biliup_common::download::recovery::{
    batch_step, chunk_group, compatible_segment_groups, concat_list, defer_recovery_batch,
    merged_afresh, merged_segment, recovery_batches, BatchStep, MergeEvent, MergeFailure, MergeNames, MergeRun,
    MergeStep,
};
use biliup_common::download::retry::{compose_stream_gap, exponential_backoff, OfflineRetryState};
use biliup_common::download::segments::{
    after_offer, after_send, begin_enqueue, bounded_diagnostic, closing_order,
    invalid_media_reason_code, DeferReason, EnqueueStep, InvalidMediaReason, MediaValidation,
    QueueState, SegmentAction, SegmentCloseReason, SegmentEventProcessor, SegmentInfo,
    SegmentProcessingStats,
};
use biliup_common::download::session::{
    CheckOutcome, DownloadAttempt, RecordingSession, RoundEnd, RoundStart, StopReason,
};
use biliup_common::download::workflow::{
    average_connected_ms, candidate_started_at, configured_split, cover_wanted, route_alert,
    summarize_attempt, wakes_monitor, workflow_start, LeaseAnswer, WorkflowStart,
};
use biliup_common::ffmpeg_args::FfmpegArg;
use biliup_common::route_health::{
    DownloadStatus, LiveStream, RouteKey, RouteMetricSnapshot, StreamCandidate, StreamProtocol,
};
use biliup_common::segment_enrollment::{EnrollmentOutcome, SegmentEnrollment};
use biliup_common::time::{Span, Timestamp};
use std::collections::HashSet;

fn at(second: i64) -> Timestamp {
    Timestamp::from_secs(second).unwrap()
}

#[test]
fn stream_gap_sums_the_silent_and_reconnect_halves() {
    let gap = compose_stream_gap(
        Span::from_millis(19_500),
        Span::from_millis(800),
        Span::from_millis(2_000),
    );
    assert_eq!(gap.silent, Span::from_millis(19_500));
    assert_eq!(gap.detect_to_retry, Span::from_millis(2_800));
    assert_eq!(gap.total, Span::from_millis(22_300));
    assert!(gap.total.nanos() > gap.detect_to_retry.nanos() * 7);
}

#[test]
fn stream_gap_without_a_measured_silence_falls_back_to_the_old_scope() {
    let gap =
        compose_stream_gap(Span::zero(), Span::from_millis(800), Span::from_millis(2_000));
    assert_eq!(gap.total, gap.detect_to_retry);
    assert_eq!(gap.total, Span::from_millis(2_800));
}

#[test]
fn backoff_is_two_four_eight_sixteen_then_capped_at_thirty() {
    let delays: Vec<_> = (1..=8).map(exponential_backoff).collect();
    assert_eq!(
        delays,
        vec![
            Span::from_secs(2),
            Span::from_secs(4),
            Span::from_secs(8),
            Span::from_secs(16),
            Span::from_secs(30),
            Span::from_secs(30),
            Span::from_secs(30),
            Span::from_secs(30),
        ]
    );
}

#[test]
fn offline_grace_state_keeps_existing_semantics() {
    let grace = Span::from_secs(10);
    let mut offline = OfflineRetryState::default();

    assert!(!offline.record_unavailable(at(1_000), grace));
    assert_eq!(offline.retry_delay(), Span::from_secs(4));
    assert!(!offline.record_unavailable(at(1_009), grace));
    assert!(offline.record_unavailable(at(1_010), grace));

    offline.record_live();
    assert!(offline.offline_since.is_none());
    assert_eq!(offline.offline_retry_count, 0);
    assert!(!offline.record_unavailable(at(1_030), grace));
}

fn append_tag(bytes: &mut Vec<u8>, tag_type: u8, body: &[u8], timestamp: u32) {
    bytes.push(tag_type);
    bytes.extend_from_slice(&[
        ((body.len() >> 16) & 0xff) as u8,
        ((body.len() >> 8) & 0xff) as u8,
        (body.len() & 0xff) as u8,
        ((timestamp >> 16) & 0xff) as u8,
        ((timestamp >> 8) & 0xff) as u8,
        (timestamp & 0xff) as u8,
        ((timestamp >> 24) & 0xff) as u8,
        0,
        0,
        0,
    ]);
    bytes.extend_from_slice(body);
    bytes.extend_from_slice(&((11 + body.len()) as u32).to_be_bytes());
}

fn flv_fixture(codec_marker: u8) -> Vec<u8> {
    let mut bytes = vec![b'F', b'L', b'V', 1, 5, 0, 0, 0, 9, 0, 0, 0, 0];
    append_tag(&mut bytes, 9, &[0x17, 0, 0, 0, 0, 1, 0x64, codec_marker], 0);
    append_tag(&mut bytes, 8, &[0xaf, 0, 0x12, 0x10], 0);
    append_tag(&mut bytes, 9, &[0x17, 1, 0, 0, 0, 0x65], 1000);
    bytes
}

fn event(path: &str, index: usize) -> SegmentInfo {
    SegmentInfo {
        prev_file_path: path.to_string(),
        danmaku_file_path: None,
        next_file_path: None,
        segment_index: index,
        close_reason: SegmentCloseReason::TransportError,
        segment_id: None,
        attempt_id: Some(format!("attempt-{index}")),
        recovery_source_paths: Vec::new(),
        enrollment: None,
    }
}

fn key_of(contents: &[u8]) -> Option<u64> {
    media_compatibility_key(false, Some("flv"), Some(contents))
}

#[test]
fn productive_count_includes_short_media_but_not_header_only_files() {
    let mut stats = SegmentProcessingStats::default();
    stats.record_validation(&MediaValidation::RecoverableShort {
        duration: Some(Span::from_secs(1)),
        first_media_timestamp_ms: Some(0),
        last_media_timestamp_ms: Some(1_000),
    });
    assert_eq!(stats.productive_segments, 1);

    stats.record_validation(&MediaValidation::Invalid {
        reason: InvalidMediaReason::HeaderOnly,
    });
    assert_eq!(stats.productive_segments, 1);
}

#[test]
fn thirty_seven_compatible_segments_form_one_merge_group() {
    let mut events = Vec::new();
    let mut keys = Vec::new();
    for index in 0..37 {
        events.push(event(&format!("segment-{index}.flv"), index));
        keys.push(key_of(&flv_fixture(1)));
    }
    let groups = compatible_segment_groups(events, &keys);
    assert_eq!(groups.len(), 1);
    assert_eq!(groups[0].len(), 37);
}

#[test]
fn incompatible_codec_parameters_remain_independent() {
    let keys = vec![key_of(&flv_fixture(1)), key_of(&flv_fixture(2))];
    let groups =
        compatible_segment_groups(vec![event("first.flv", 0), event("second.flv", 1)], &keys);
    assert_eq!(groups.len(), 2);
    assert!(groups.iter().all(|group| group.len() == 1));
}

#[test]
fn deferred_batch_manifest_is_durable_and_lists_all_originals() {
    let events = vec![event("first.flv", 0), event("second.flv", 1)];
    let manifest =
        defer_recovery_batch(&events, "ffmpeg exited 254", Span::from_secs(900), 41, 7_000)
            .unwrap();
    assert_eq!(manifest.recovery_batch_id, "41-0-7000");
    assert_eq!(manifest.manifest_name, ".biliup-recovery-41-0-7000.json");
    assert_eq!(manifest.temp_name, ".biliup-recovery-41-0-7000.json.tmp");
    assert_eq!(manifest.files, vec!["first.flv".to_string(), "second.flv".to_string()]);
    assert_eq!(manifest.last_error, "ffmpeg exited 254");
    assert_eq!(manifest.created_at_ms, 7_000);
    assert_eq!(manifest.next_retry_at_ms, 907_000);
    assert!(defer_recovery_batch(&Vec::new(), "x", Span::zero(), 1, 1).is_none());
}

#[test]
fn a_file_that_is_cut_off_or_not_flv_has_no_key() {
    let whole = flv_fixture(1);
    assert!(key_of(&whole).is_some());
    assert!(key_of(&whole[..20]).is_none());
    assert!(key_of(b"not an flv file").is_none());
    assert!(media_compatibility_key(true, Some("flv"), Some(&whole)).is_none());
    assert!(media_compatibility_key(false, Some("mp4"), Some(&whole)).is_none());
    assert!(media_compatibility_key(false, Some("flv"), None).is_none());
    assert!(may_be_joined(false, Some("flv")));
    assert!(!may_be_joined(true, Some("flv")));
    assert!(!may_be_joined(false, None));
    assert_eq!(flv_codec_headers(&whole).unwrap().len(), 2);
}

#[test]
fn a_group_is_cut_into_full_pieces() {
    let group: Vec<SegmentInfo> = (0..5).map(|i| event("x.flv", i)).collect();
    let pieces = chunk_group(group, 2);
    assert_eq!(pieces.iter().map(Vec::len).collect::<Vec<_>>(), [2, 2, 1]);
    assert_eq!(pieces[2][0].segment_index, 4);
    assert_eq!(batch_step(&pieces[0]), BatchStep::Merge);
    assert_eq!(batch_step(&pieces[2]), BatchStep::DeferIncompatible);
}

#[test]
fn short_segments_are_recovered_in_batches() {
    let pending = (0..5).map(|index| event("short.flv", index)).collect();
    let keys = vec![Some(1), Some(1), Some(1), None, Some(1)];
    let batches = recovery_batches(pending, &keys, 2);
    let told: Vec<(BatchStep, Vec<usize>)> = batches
        .iter()
        .map(|batch| {
            let indexes = batch.segments.iter().map(|segment| segment.segment_index).collect();
            (batch.step, indexes)
        })
        .collect();
    assert_eq!(
        told,
        [
            (BatchStep::Merge, vec![0, 1]),
            (BatchStep::DeferIncompatible, vec![2]),
            (BatchStep::DeferIncompatible, vec![3]),
            (BatchStep::DeferIncompatible, vec![4]),
        ]
    );
    assert!(recovery_batches(vec![], &vec![], 2).is_empty());
}

#[test]
fn joining_falls_back_to_remuxing_and_cleans_up() {
    let mut run = MergeRun::new(2);
    assert_eq!(run.step(), MergeStep::ConcatCopy);
    let first = run.advance(MergeEvent::Failed);
    assert!(first.copied && !first.list);
    assert_eq!(run.step(), MergeStep::Remux { index: 0 });
    run.advance(MergeEvent::Succeeded);
    run.advance(MergeEvent::Succeeded);
    assert_eq!(run.step(), MergeStep::ConcatRemuxed);
    let joined = run.advance(MergeEvent::Succeeded);
    assert!(joined.list);
    assert_eq!(joined.normalized, 2);
    run.advance(MergeEvent::Succeeded);
    assert_eq!(run.step(), MergeStep::Done { remuxed: true });

    let mut copied = MergeRun::new(2);
    copied.advance(MergeEvent::Succeeded);
    copied.advance(MergeEvent::Failed);
    assert_eq!(
        copied.step(),
        MergeStep::Failed { reason: MergeFailure::InvalidOutput { remuxed: false } }
    );
    let mut broken = MergeRun::new(2);
    broken.advance(MergeEvent::Failed);
    let cleanup = broken.advance(MergeEvent::Failed);
    assert!(cleanup.list);
    assert_eq!(cleanup.normalized, 1);
    assert_eq!(
        broken.step(),
        MergeStep::Failed { reason: MergeFailure::RemuxInput { index: 0 } }
    );
    let mut last = MergeRun::new(1);
    last.advance(MergeEvent::Failed);
    last.advance(MergeEvent::Succeeded);
    last.advance(MergeEvent::Failed);
    assert_eq!(last.step(), MergeStep::Failed { reason: MergeFailure::RemuxConcat });
}

#[test]
fn the_files_of_a_merge_have_fixed_names() {
    let names = MergeNames::new(Some("seg"), 9, 4);
    assert_eq!(names.list, ".seg.9-4.concat.txt");
    assert_eq!(names.copied, "seg.9-4.recovered.flv");
    assert_eq!(names.remuxed, "seg.9-4.recovered.mkv");
    assert_eq!(names.normalized(3), ".seg.9-4.3.normalized.mkv");
    assert_eq!(MergeNames::new(None, 1, 2).copied, "segment.1-2.recovered.flv");
    assert_eq!(
        concat_list(&vec!["/a.flv".to_string(), "/it's.flv".to_string()]),
        "file '/a.flv'\nfile '/it'\\''s.flv'\n"
    );
    let merged = merged_segment(
        &vec![event("a", 4), event("b", 5)],
        "out".to_string(),
        "id".to_string(),
    );
    assert_eq!(merged.segment_index, 4);
    assert_eq!(merged.attempt_id.as_deref(), Some("attempt-4"));
    assert_eq!(merged.recovery_source_paths, vec!["a".to_string(), "b".to_string()]);
    let batch = vec![event("a", 4), event("b", 5)];
    let (one, other) =
        (merged_afresh(&batch, "out".to_string()), merged_afresh(&batch, "out".to_string()));
    assert_eq!(one.prev_file_path, "out");
    assert_eq!(one.segment_id.as_deref().map(str::len), Some(36));
    assert_ne!(one.segment_id, other.segment_id);
}

fn shown(args: &[FfmpegArg]) -> String {
    let words: Vec<&str> = args
        .iter()
        .map(|arg| match arg {
            FfmpegArg::Text(word) => word.as_str(),
            FfmpegArg::Input => "IN",
            FfmpegArg::Output => "OUT",
        })
        .collect();
    words.join(" ")
}

#[test]
fn the_merge_commands_copy_their_streams() {
    for line in [copy_merge_args(), remux_input_args(), concat_merge_args()] {
        let text = shown(&line);
        assert!(text.contains("-i IN"));
        assert!(text.contains("copy"));
        assert!(text.ends_with("OUT"));
    }
    assert!(shown(&concat_merge_args()).contains("-f concat -safe 0"));
}

#[test]
fn invalid_reasons_have_stable_codes() {
    let cases = [
        (InvalidMediaReason::Empty, "empty_file"),
        (InvalidMediaReason::HeaderOnly, "header_only"),
        (
            InvalidMediaReason::UnsupportedFormat("secret detail".into()),
            "unsupported_format",
        ),
        (
            InvalidMediaReason::MalformedContainer("secret detail".into()),
            "malformed_container",
        ),
        (InvalidMediaReason::NoMediaTrack, "no_media_track"),
        (
            InvalidMediaReason::ProbeFailed("secret detail".into()),
            "probe_failed",
        ),
    ];
    for (reason, expected) in cases {
        assert_eq!(invalid_media_reason_code(&reason), expected);
    }
}

#[test]
fn segments_are_kept_queued_or_removed() {
    let mut processor = SegmentEventProcessor::new(20, true, 0, 900);
    assert_eq!(processor.recovery_batch_max_files, 1);
    assert_eq!(processor.filtering_threshold_bytes, 20_000_000);
    let short = MediaValidation::RecoverableShort {
        duration: None,
        first_media_timestamp_ms: None,
        last_media_timestamp_ms: None,
    };
    assert!(matches!(processor.process(event("a", 0), short, 5), SegmentAction::Kept));
    assert_eq!(processor.pending_short_segments.len(), 1);
    assert!(matches!(
        processor.process(event("b", 1), MediaValidation::Valid, 5),
        SegmentAction::FlushThenEnqueue { .. }
    ));
    assert!(matches!(
        processor.process(
            event("c", 2),
            MediaValidation::Invalid { reason: InvalidMediaReason::Empty },
            0
        ),
        SegmentAction::Remove { reason_code: "empty_file", short: false, .. }
    ));
    assert_eq!(processor.take_pending().len(), 1);
    assert!(processor.pending_short_segments.is_empty());
    assert_eq!(processor.stats.productive_segments, 2);
    assert_eq!(processor.stats.recoverable_short_bytes, 5);

    let mut strict = SegmentEventProcessor::new(20, false, 3, 900);
    let short = MediaValidation::RecoverableShort {
        duration: None,
        first_media_timestamp_ms: None,
        last_media_timestamp_ms: None,
    };
    assert!(matches!(
        strict.process(event("a", 0), short, 5),
        SegmentAction::Remove { reason_code: "below_filtering_threshold", short: true, .. }
    ));
}

#[test]
fn a_session_is_noted_once() {
    let mut processor = SegmentEventProcessor::new(20, true, 3, 900);
    for duplicate in [false, true] {
        let next = processor.after_enrollment(EnrollmentOutcome::Enrolled(SegmentEnrollment {
            missing_id: 5,
            upload_session_id: 31,
            segment_order: 0,
            normalized_file_path: "/a".to_string(),
            total_bytes: 1,
            duplicate,
            segment_id: None,
        }));
        assert_eq!(next.enqueue.is_none(), duplicate);
        assert_eq!(next.session_id, Some(31));
    }
    assert_eq!(processor.enrolled_session_ids, HashSet::from([31]));
    let rejected =
        processor.after_enrollment(EnrollmentOutcome::FinalizedRejected { session_id: 9 });
    assert_eq!(rejected.reason_code, "session_finalized");
    let missing = processor.after_enrollment(EnrollmentOutcome::SourceMissing);
    assert_eq!(missing.reason_code, "source_missing");
    let waiting = processor.after_enrollment(EnrollmentOutcome::Outboxed("m".to_string()));
    assert_eq!(waiting.outcome, "waiting");
    assert_eq!(closing_order(&HashSet::from([32, 31, 40])), vec![31, 32, 40]);
}

#[test]
fn a_full_queue_defers_the_segment() {
    assert_eq!(begin_enqueue(QueueState::Missing), EnqueueStep::OpenQueue);
    assert_eq!(begin_enqueue(QueueState::Closed), EnqueueStep::OpenQueue);
    assert_eq!(begin_enqueue(QueueState::Open), EnqueueStep::Send);
    assert_eq!(after_offer(true), EnqueueStep::Send);
    assert_eq!(after_offer(false), EnqueueStep::Defer(DeferReason::UploaderUnavailable));
    assert_eq!(after_send(true, false), EnqueueStep::Queued);
    assert_eq!(after_send(false, true), EnqueueStep::Defer(DeferReason::NewQueueUnavailable));
    assert_eq!(after_send(false, false), EnqueueStep::Defer(DeferReason::QueueFull));
    assert!(!DeferReason::QueueFull.text().is_empty());
    let mut processor = SegmentEventProcessor::new(1, true, 3, 900);
    processor.record_queued(7);
    processor.record_queued(3);
    assert_eq!(processor.stats.segments_queued_for_upload, 2);
    assert_eq!(processor.stats.upload_queue_peak_depth, 7);
    assert!(processor.defer_for_backpressure(&event("a", 0)));
    assert_eq!(processor.stats.upload_queue_peak_depth, 64);
    processor.record_merged();
    processor.record_deferred();
    assert_eq!(processor.stats.merged_recovery_outputs, 1);
    assert_eq!(processor.stats.deferred_recovery_batches, 1);
}

#[test]
fn a_diagnostic_is_one_short_line() {
    assert_eq!(bounded_diagnostic(" a\n\tb  c ", 100), "a b c");
    assert_eq!(bounded_diagnostic("一二三四", 2), "一二");
}

fn live() -> LiveStream {
    LiveStream {
        raw_stream_url: "https://a.example/live.flv?sign=1".to_string(),
        platform: "douyin".to_string(),
        suffix: "flv".to_string(),
        recording_quality: Some("origin".to_string()),
        stream_candidates: vec![StreamCandidate {
            url: "https://a.example/live.flv?sign=1".to_string(),
            host: Some("a.example".to_string()),
            protocol: StreamProtocol::Flv,
            quality: Some("origin".to_string()),
            codec: None,
            resolution: None,
            priority: 0,
        }],
    }
}

fn attempt(status: DownloadStatus) -> DownloadAttempt {
    DownloadAttempt {
        status: Some(status),
        transport_failure: true,
        connected_for: Span::from_secs(30),
        completed_configured_segment: false,
        productive_attempt: false,
        silent_for: Some(Span::from_millis(1_500)),
    }
}

#[test]
fn a_recording_goes_on_through_gaps_and_stops_after_the_grace() {
    let mut session = RecordingSession::new(live(), 10, true, "douyin", Some(true));
    assert!(session.failover_enabled);
    assert!(matches!(session.begin_round(), RoundStart::Download { reconnect: None }));
    let failed = attempt(DownloadStatus::ReadTimeout { buffered: 1 });
    let end = session.end_round(
        Some(&failed),
        CheckOutcome::Live { stream: live() },
        Span::from_millis(500),
        at(1_000),
        at(1_000),
    );
    let RoundEnd::Continue { live: round, backoff } = end else {
        panic!("the stream is live");
    };
    assert_eq!(backoff, Span::from_secs(2));
    assert_eq!(session.route_failure_count, 1);
    let gap = round.gap.unwrap();
    assert_eq!(gap.total, Span::from_millis(1_500 + 500 + 2_000));
    assert_eq!(session.stream_gap_count, 1);
    let RoundStart::Download { reconnect: Some(reconnect) } = session.begin_round() else {
        panic!("the gap goes with the download");
    };
    assert_eq!(reconnect.gap_ms, 4_000);
    assert_eq!(reconnect.silent_ms, 1_500);
    assert!(reconnect.silent_measured);

    let first = session.end_round(None, CheckOutcome::Offline, Span::zero(), at(2_000), at(2_000));
    assert!(matches!(first, RoundEnd::WaitOffline { .. }));
    let over = session.end_round(None, CheckOutcome::Offline, Span::zero(), at(2_010), at(2_010));
    assert!(matches!(over, RoundEnd::Stop { reason: StopReason::Offline }));
    let errors = session.end_round(None, CheckOutcome::Failed, Span::zero(), at(2_011), at(2_011));
    assert!(matches!(errors, RoundEnd::Stop { reason: StopReason::CheckFailed }));
    for reason in [StopReason::UserCancel, StopReason::Offline, StopReason::CheckFailed] {
        assert!(!reason.outcome().is_empty() && !reason.code().is_empty());
    }
}

#[test]
fn a_recording_begins_only_with_an_answer() {
    assert_eq!(workflow_start(LeaseAnswer::Admitted, false), WorkflowStart::Run);
    assert_eq!(
        workflow_start(LeaseAnswer::Blocked, false),
        WorkflowStart::Refuse { pause: false, remove_identity: true }
    );
    assert_eq!(
        workflow_start(LeaseAnswer::Unknown, true),
        WorkflowStart::Refuse { pause: true, remove_identity: false }
    );
    assert_eq!(candidate_started_at(true, at(1), at(2)), at(1));
    assert_eq!(candidate_started_at(false, at(1), at(2)), at(2));
    assert!(cover_wanted(Some(true), "x"));
    assert!(!cover_wanted(Some(true), ""));
    assert!(!cover_wanted(None, "x"));
    assert!(wakes_monitor(Some(false)));
    assert!(!wakes_monitor(Some(true)));
    assert!(!wakes_monitor(None));
}

#[test]
fn a_download_is_summed_up() {
    assert!(configured_split(SegmentCloseReason::TimedSplit));
    assert!(configured_split(SegmentCloseReason::SizeSplit));
    assert!(!configured_split(SegmentCloseReason::TransportError));
    let summary = summarize_attempt(
        Some(DownloadStatus::SegmentCompleted),
        false,
        Span::from_secs(1),
        false,
        3,
        4,
        None,
    );
    assert!(summary.completed_configured_segment);
    assert!(summary.productive_attempt);
    let key = RouteKey::from_stream(&live());
    let alert = route_alert("甲", &key);
    assert!(alert.content.starts_with("甲：当前 a.example / flv / origin 线路"));
    let route = RouteMetricSnapshot {
        key,
        attempts: 3,
        failures: 0,
        stable_attempts: 0,
        connected_for: Span::from_millis(1_000),
    };
    assert_eq!(average_connected_ms(&route), 333);
}
