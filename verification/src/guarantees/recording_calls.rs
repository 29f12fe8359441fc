//! What single calls answer while a recording runs and when its media is worked on.
use crate::audio_normalization::measurement::{parse_loudnorm_measurement, MeasurementError};
use crate::audio_normalization::run::{
    NormalizationOutcome, NormalizationRun, NormalizeStep, NormalizedForm,
};
use crate::audio_normalization::sample::{
    is_claim, retry_later, sample_status, stale_claim_step, AudioSampleStatus, ClaimStep,
};
use crate::audio_normalization::{DiskBudget, OriginalReason, RejectionStreak};
use crate::cookie_health::{
    carries, notify_alert, notify_douyin_quality_fallback, quality_name, webhook_verdict, Alert,
    CookieHealth, DingtalkReply, WebhookRequest,
};
use crate::cover_generator::{fit_picture, render_background, BackgroundSource, Fit};
use crate::disk_space::{available_bytes, probed_directory, ProbedDirectory, VolumeReading};
use crate::download::flv::{codec_headers, may_be_joined, media_compatibility_key};
use crate::download::recovery::{
    batch_step, defer_recovery_batch, recovery_batches, BatchStep, MergeNames, RecoveryBatch,
    RecoveryManifest,
};
use crate::download::retry::{compose_stream_gap, exponential_backoff, StreamGap};
use crate::download::segments::{
    after_offer, after_send, begin_enqueue, AfterEnrollment, DeferReason, EnqueueStep,
    MediaValidation, QueueState, SegmentAction, SegmentEventProcessor, SegmentInfo,
};
use crate::download::session::{DownloadAttempt, RecordingSession, RoundStart, StopReason};
use crate::download::workflow::{
    average_connected_ms, candidate_started_at, cover_wanted, route_alert, summarize_attempt,
    wakes_monitor, workflow_start, LeaseAnswer, WorkflowStart,
};
use crate::ffmpeg_scan::{scan_report, ScanReport, StderrScan};
use crate::guarantees::recording::law_waits_double_up_to_half_a_minute;
use crate::route_health::{
    observed, record_of, DownloadStatus, HealthUpdate, RouteHealthState, RouteKey,
    RouteMetricSnapshot,
};
use crate::segment_enrollment::EnrollmentOutcome;
use crate::text::{decimal, lower_spec, occurs_at, text_views, trim_spec};
use crate::time::{Span, Timestamp};
use crate::timestamp_repair::{remux_accepted, text_verdict, Detection, TextVerdict};
use vstd::prelude::*;

verus! {

/// What a server error on an attempt that is neither stable nor productive is told as: a failure
/// of the current route, which opens the circuit where the last one lies at most two minutes
/// back.
pub proof fn law_what_a_server_error_is_told_as(
    state: &mut RouteHealthState,
    status: &DownloadStatus,
    code: u16,
    connected: Span,
    now: Timestamp,
    update: HealthUpdate,
    key: RouteKey,
)
    requires
        call_ensures(
            RouteHealthState::observe_live_attempt,
            (state, Some(status), connected, false, false, now),
            update,
        ),
        *status == (DownloadStatus::HttpStatus { status: code }),
        code >= 500 || code == 404,
        connected@ < 300 * 1_000_000_000,
        old(state)@.enabled,
        old(state)@.current == Some(key@),
        0 <= record_of(old(state)@, key@).failures < u32::MAX,
    ensures
        update matches HealthUpdate::Failure { key: told, failures, circuit_opened, .. } && told@
            == key@ && failures == record_of(final(state)@, key@).failures && (record_of(
            old(state)@,
            key@,
        ).failures >= 1 && record_of(old(state)@, key@).last_failure is Some && now@ - record_of(
            old(state)@,
            key@,
        ).last_failure->0 <= 120 * 1_000_000_000 ==> failures >= 2 && circuit_opened && record_of(
            final(state)@,
            key@,
        ).cooldown_until == Some(now@ + 600 * 1_000_000_000)),
{
    assert(update@ == observed(
        old(state)@,
        Some(DownloadStatus::HttpStatus { status: code }),
        connected@,
        false,
        false,
        now@,
    ).1);
}

/// Space is admitted where the output and the reserve fit into what is free, or where that is not
/// known; the reserve is counted in gibibytes.
pub proof fn law_what_fits_on_the_disk(
    gib: u64,
    made: DiskBudget,
    budget: &DiskBudget,
    available: Option<u64>,
    projected: u64,
    answer: Result<(), (u64, u64)>,
    pressed: bool,
)
    requires
        call_ensures(DiskBudget::from_reserve_gib, (gib,), made),
        call_ensures(DiskBudget::admits, (budget, available, projected), answer),
        call_ensures(DiskBudget::under_pressure, (budget, available), pressed),
    ensures
        gib * 1_073_741_824 <= u64::MAX ==> made.reserve_bytes == gib * 1_073_741_824,
        available is None ==> answer is Ok && !pressed,
        available is Some && available->0 >= projected + budget.reserve_bytes ==> answer is Ok,
        available is Some && available->0 < projected + budget.reserve_bytes ==> answer is Err
            && answer->Err_0.0 == available->0,
        available is Some ==> pressed == (available->0 < budget.reserve_bytes),
{
}

/// A measurement is taken from the first candidate that can be read, where that is plausible.
pub proof fn law_which_measurement_is_taken(
    readings: &Vec<Option<bool>>,
    choice: Result<usize, MeasurementError>,
    at: int,
)
    requires
        call_ensures(parse_loudnorm_measurement, (readings,), choice),
        0 <= at <= readings@.len(),
        forall|i: int| 0 <= i < at ==> (#[trigger] readings@[i]) is None,
        at < readings@.len() ==> readings@[at] is Some,
    ensures
        at == readings@.len() ==> choice == Err::<usize, MeasurementError>(
            MeasurementError::NotFound,
        ),
        at < readings@.len() && readings@[at] == Some(true) ==> choice == Ok::<
            usize,
            MeasurementError,
        >(at as usize),
        at < readings@.len() && readings@[at] == Some(false) ==> choice == Err::<
            usize,
            MeasurementError,
        >(MeasurementError::Implausible),
{
    crate::guarantees::sound::law_the_first_readable_candidate_decides(readings@, 0, at);
}

/// A run begins with the source, unless normalization was switched off; what is uploaded in the
/// end is the source, unless the output stands beside it.
pub proof fn law_how_a_run_begins_and_ends(
    keep: bool,
    streak: &RejectionStreak,
    run: NormalizationRun,
    outcome: &NormalizationOutcome,
    original: &str,
    artifact: &str,
    path: &str,
)
    requires
        call_ensures(NormalizationRun::begin, (keep, streak), run),
        call_ensures(NormalizationOutcome::upload_path, (outcome, original, artifact), path),
    ensures
        streak.tripped ==> run.at() == NormalizeStep::Finished(
            NormalizationOutcome::Original { reason: OriginalReason::NormalizationDisabled },
        ),
        !streak.tripped ==> run.at() == NormalizeStep::Stat,
        run.keeps_original() == keep,
        *outcome matches NormalizationOutcome::Normalized { form: NormalizedForm::Artifact, .. }
            ==> path@ == artifact@,
        *outcome matches NormalizationOutcome::Normalized {
            form: NormalizedForm::ReplacedOriginal,
            ..
        } ==> path@ == original@,
        *outcome is Original ==> path@ == original@,
{
}

/// A claim is kept for an hour; an older one is given back, and so is one that is to be tried
/// later.
pub proof fn law_what_becomes_of_a_claim(
    age: Option<Span>,
    request: bool,
    step: ClaimStep,
    later: ClaimStep,
    name: &str,
    yes: bool,
)
    requires
        call_ensures(stale_claim_step, (age, request), step),
        call_ensures(retry_later, (request,), later),
        call_ensures(is_claim, (name,), yes),
    ensures
        age is None || age->0@ <= 3600 * 1_000_000_000 ==> step == ClaimStep::Keep,
        age is Some && age->0@ > 3600 * 1_000_000_000 ==> step == later,
        request ==> later == ClaimStep::Remove,
        !request ==> later == ClaimStep::Rearm,
        yes == occurs_at(name@, "capture-in-progress-"@, 0),
{
}

/// A sample is ready where there is one, and pending where it is asked for or being made.
pub proof fn law_what_a_sample_status_says(
    size: Option<u64>,
    updated: Option<String>,
    request: bool,
    claims: usize,
    status: AudioSampleStatus,
)
    requires
        call_ensures(sample_status, (size, updated, request, claims), status),
    ensures
        status.sample_ready == (size is Some),
        request ==> status.capture_pending,
        claims > 0 ==> status.capture_pending,
        !request && claims == 0 ==> !status.capture_pending,
        status.size_bytes == size,
        status.updated_at == updated,
{
}

/// A recovery is told once: where the platform was unhealthy.
pub proof fn law_a_recovery_is_told_once(
    health: &mut CookieHealth,
    platform: &str,
    now: i64,
    alert: Option<Alert>,
)
    requires
        call_ensures(CookieHealth::record_success, (health, platform, now), alert),
    ensures
        !old(health)@.contains_key(platform@) ==> alert is None,
        old(health)@.contains_key(platform@) ==> alert is Some
            == old(health)@[platform@].unhealthy,
        final(health)@.contains_key(platform@),
        !final(health)@[platform@].unhealthy,
        final(health)@[platform@].consecutive_errors == 0,
        final(health)@[platform@].last_ok_ms == Some(now),
{
}

/// An alert is sent where there is an address for it, to the address without the blanks round it.
pub proof fn law_where_alerts_go(
    webhook: Option<&str>,
    title: &str,
    content: &str,
    request: Option<WebhookRequest>,
)
    requires
        call_ensures(notify_alert, (webhook, title, content), request),
    ensures
        webhook is None ==> request is None,
        webhook is Some && trim_spec(webhook->0@).len() == 0 ==> request is None,
        webhook is Some && trim_spec(webhook->0@).len() > 0 ==> request is Some && carries(
            request->0,
            trim_spec(webhook->0@),
            title@,
            content@,
        ),
{
}

/// A message got through where the answer was a success and the robot, where there is one, says
/// zero; a refusal says what the robot said.
pub proof fn law_when_a_message_got_through(
    success: bool,
    status: &str,
    reply: Option<DingtalkReply>,
    verdict: Result<(), String>,
)
    requires
        call_ensures(webhook_verdict, (success, status, reply), verdict),
    ensures
        !success ==> verdict is Err && verdict->Err_0@ == "Webhook 返回 HTTP "@ + status@,
        success && reply is None ==> verdict is Ok,
        success && reply is Some && reply->0 is Answer && reply->0->errcode == Some(0i64)
            ==> verdict is Ok,
        success && reply is Some && reply->0 is Answer && reply->0->errcode != Some(0i64)
            ==> verdict is Err,
        success && reply is Some && reply->0 is NotJson ==> verdict is Err,
        success && reply is Some && reply->0 is Answer && reply->0->errcode != Some(0i64)
            && reply->0->errmsg is Some ==> verdict->Err_0@ == "钉钉机器人拒绝消息："@
            + reply->0->errmsg->0@,
        success && reply is Some && reply->0 is Answer && reply->0->errcode != Some(0i64)
            && reply->0->errmsg is None ==> verdict->Err_0@ == "钉钉机器人拒绝消息："@
            + "未知错误"@,
{
}

/// A quality that is worse than the threshold is told, with both; one that is not known is not.
pub proof fn law_a_fallen_quality_is_told(
    remark: &str,
    actual: Option<&str>,
    threshold: Option<&str>,
    alert: Option<Alert>,
)
    requires
        call_ensures(notify_douyin_quality_fallback, (remark, actual, threshold), alert),
    ensures
        actual is None ==> alert is None,
        actual is Some && threshold is None ==> alert is Some == (actual->0@ != "origin"@
            && actual->0@ != "uhd"@),
        alert is Some && threshold is None ==> alert->0.content@ == remark@
            + "：当前录制画质为 "@ + quality_name(actual->0@) + "("@ + actual->0@
            + ")，低于告警阈值 "@ + quality_name("uhd"@) + "("@ + "uhd"@
            + ")。可能由候选线路熔断或 cookie（sessionid）失效触发，建议检查。"@,
{
    if actual is Some {
        crate::guarantees::platform::law_a_worse_quality_is_alerted(actual->0@, threshold);
    }
}

/// A picture is scaled to fill the canvas and cut in its middle; one without a size, or one that
/// would grow beyond 67108864 pixels, is not used.
pub proof fn law_how_a_picture_is_fitted(
    source: (u32, u32),
    scaled: (u32, u32),
    canvas: (u32, u32),
    fit: Option<Fit>,
)
    requires
        call_ensures(
            fit_picture,
            (source.0, source.1, scaled.0, scaled.1, canvas.0, canvas.1),
            fit,
        ),
    ensures
        source.0 == 0 || source.1 == 0 ==> fit is None,
        fit is Some ==> fit->0.scaled_width >= canvas.0 && fit->0.scaled_height >= canvas.1
            && fit->0.scaled_width >= scaled.0 && fit->0.scaled_height >= scaled.1 && fit->0.x
            + canvas.0 <= fit->0.scaled_width && fit->0.y + canvas.1 <= fit->0.scaled_height
            && fit->0.x == (fit->0.scaled_width - canvas.0) / 2 && fit->0.y == (
        fit->0.scaled_height - canvas.1) / 2,
        source.0 > 0 && source.1 > 0 && scaled.0 >= canvas.0 && scaled.1 >= canvas.1 && scaled.0
            * scaled.1 <= 67_108_864 ==> fit is Some && fit->0.scaled_width == scaled.0
            && fit->0.scaled_height == scaled.1,
{
}

/// A background falls back to black where its picture cannot be used or does not fit.
pub proof fn law_what_a_background_is_made_of(
    wanted: BackgroundSource,
    usable: bool,
    size: (u32, u32),
    canvas: (u32, u32),
    made: BackgroundSource,
)
    requires
        call_ensures(render_background, (wanted, usable, size, canvas), made),
    ensures
        wanted is Black ==> made is Black,
        wanted is Picture ==> made == (if usable {
            BackgroundSource::Picture
        } else {
            BackgroundSource::Black
        }),
        wanted is Bitmap ==> made == (if size.0 == canvas.0 && size.1 == canvas.1 {
            BackgroundSource::Bitmap
        } else {
            BackgroundSource::Black
        }),
{
}

/// Free space is the free blocks times their size, and is looked for in the directory itself, or
/// in the one above a file.
pub proof fn law_how_free_space_is_found(
    reading: Option<VolumeReading>,
    bytes: Option<u64>,
    is_directory: bool,
    has_parent: bool,
    place: ProbedDirectory,
)
    requires
        call_ensures(available_bytes, (reading,), bytes),
        call_ensures(probed_directory, (is_directory, has_parent), place),
    ensures
        reading is None ==> bytes is None,
        reading is Some && reading->0.fragment_size > 0 && reading->0.available_blocks
            * reading->0.fragment_size <= u64::MAX ==> bytes is Some && bytes->0
            == reading->0.available_blocks * reading->0.fragment_size,
        reading is Some && reading->0.fragment_size == 0 && reading->0.available_blocks
            * reading->0.block_size <= u64::MAX ==> bytes is Some && bytes->0
            == reading->0.available_blocks * reading->0.block_size,
        is_directory ==> place is Path,
        !is_directory && has_parent ==> place is Parent,
        !is_directory && !has_parent ==> place is Nothing,
{
}

/// Only FLV files without comments of viewers are joined, and only where their codecs can be read.
pub proof fn law_which_files_may_be_joined(
    has_danmaku: bool,
    extension: Option<&str>,
    yes: bool,
    contents: Option<&[u8]>,
    key: Option<u64>,
)
    requires
        call_ensures(may_be_joined, (has_danmaku, extension), yes),
        call_ensures(media_compatibility_key, (has_danmaku, extension, contents), key),
    ensures
        has_danmaku ==> !yes && key is None,
        extension is None ==> !yes && key is None,
        extension is Some && !has_danmaku ==> yes == (lower_spec(extension->0@) == lower_spec(
            "flv"@,
        )),
        !yes ==> key is None,
        contents is None ==> key is None,
        yes && contents is Some ==> key is Some == (codec_headers(contents->0@) is Some),
{
}

/// Two files or more are joined; a single one waits for a neighbour.
pub proof fn law_when_a_batch_is_joined(
    batch: &Vec<SegmentInfo>,
    step: BatchStep,
    pending: Vec<SegmentInfo>,
    keys: &Vec<Option<u64>>,
    max_files: usize,
    batches: Vec<RecoveryBatch>,
    i: int,
)
    requires
        call_ensures(batch_step, (batch,), step),
        call_ensures(recovery_batches, (pending, keys, max_files), batches),
    ensures
        batch@.len() >= 2 ==> step is Merge,
        batch@.len() < 2 ==> step is DeferIncompatible,
        0 <= i < batches@.len() ==> (batches@[i].step is Merge <==> batches@[i].segments@.len()
            >= 2),
{
}

/// A batch that is put off is written down with all its files, the beginning of the error and the
/// time of the next try.
pub proof fn law_what_a_deferred_batch_says(
    events: &Vec<SegmentInfo>,
    error: &str,
    interval: Span,
    process: u32,
    created: u128,
    manifest: Option<RecoveryManifest>,
)
    requires
        call_ensures(
            defer_recovery_batch,
            (events, error, interval, process, created),
            manifest,
        ),
        interval@ >= 0,
        created + interval@ / 1_000_000 <= u128::MAX,
    ensures
        events@.len() == 0 ==> manifest is None,
        events@.len() > 0 ==> manifest is Some && manifest->0.created_at_ms == created
            && manifest->0.next_retry_at_ms == created + interval@ / 1_000_000 && text_views(
            manifest->0.files@,
        ) == crate::download::recovery::all_files(events@) && manifest->0.last_error@.len() <= 4096
            && manifest->0.manifest_name@ == ".biliup-recovery-"@ + manifest->0.recovery_batch_id@
            + ".json"@ && manifest->0.temp_name@ == ".biliup-recovery-"@
            + manifest->0.recovery_batch_id@ + ".json.tmp"@,
{
}

/// The files of a join are named after the first segment, the process and the number.
pub proof fn law_how_a_join_names_its_files(
    stem: Option<&str>,
    process: u32,
    index: usize,
    names: MergeNames,
)
    requires
        call_ensures(MergeNames::new, (stem, process, index), names),
    ensures
        stem is Some ==> names.stem@ == stem->0@,
        stem is None ==> names.stem@ == "segment"@,
        names.suffix@ == decimal(process as nat) + "-"@ + decimal(index as nat),
        names.list@ == "."@ + names.stem@ + "."@ + names.suffix@ + ".concat.txt"@,
        names.copied@ == names.stem@ + "."@ + names.suffix@ + ".recovered.flv"@,
        names.remuxed@ == names.stem@ + "."@ + names.suffix@ + ".recovered.mkv"@,
{
}

/// The wait behind the first failure is two seconds and doubles with each that follows; a gap is
/// the sum of its parts.
pub proof fn law_waits_and_gaps(
    failures: u32,
    delay: Span,
    silent: Span,
    check: Span,
    backoff: Span,
    gap: StreamGap,
)
    requires
        call_ensures(exponential_backoff, (failures,), delay),
        call_ensures(compose_stream_gap, (silent, check, backoff), gap),
        silent@ >= 0,
        silent@ + check@ + backoff@ <= u64::MAX * 1_000_000_000,
    ensures
        failures <= 1 ==> delay@ == 2 * 1_000_000_000,
        failures == 2 ==> delay@ == 4 * 1_000_000_000,
        failures == 3 ==> delay@ == 8 * 1_000_000_000,
        failures == 4 ==> delay@ == 16 * 1_000_000_000,
        failures >= 5 ==> delay@ == 30 * 1_000_000_000,
        gap.silent == silent,
        gap.detect_to_retry@ == check@ + backoff@,
        gap.total@ == silent@ + check@ + backoff@,
{
    law_waits_double_up_to_half_a_minute(failures - 1);
}

/// What is done with a finished segment: a valid one is uploaded, behind those that wait; a short
/// one waits, where it is to be kept, and is removed otherwise; an invalid one is removed, for its
/// reason.
pub proof fn law_what_is_done_with_a_segment(
    processor: &mut SegmentEventProcessor,
    segment: SegmentInfo,
    validation: MediaValidation,
    bytes: u64,
    action: SegmentAction,
)
    requires
        call_ensures(
            SegmentEventProcessor::process,
            (processor, segment, validation, bytes),
            action,
        ),
    ensures
        validation is Valid ==> action == (SegmentAction::FlushThenEnqueue { segment }),
        validation is RecoverableShort && old(processor).preserve_recoverable_short_segments
            ==> action is Kept && final(processor).pending_short_segments@
            == old(processor).pending_short_segments@.push(segment),
        validation is RecoverableShort && !old(processor).preserve_recoverable_short_segments ==> (
        action matches SegmentAction::Remove { segment: gone, reason_code, short } && gone
            == segment && short && reason_code@ == "below_filtering_threshold"@),
        validation is Invalid ==> (action matches SegmentAction::Remove {
            segment: gone,
            short,
            ..
        } && gone == segment && !short),
        !(action is Kept) ==> final(processor).pending_short_segments@
            == old(processor).pending_short_segments@,
        final(processor).enrolled_session_ids == old(processor).enrolled_session_ids,
        final(processor).recovery_batch_max_files == old(processor).recovery_batch_max_files,
        final(processor).preserve_recoverable_short_segments
            == old(processor).preserve_recoverable_short_segments,
{
}

/// What becomes of an enrolled segment: a new one goes into the queue and its session is closed
/// with the recording; one that is known already is not queued again; one that was put off,
/// rejected or lost is told as such and not queued.
pub proof fn law_what_becomes_of_an_enrolled_segment(
    processor: &mut SegmentEventProcessor,
    outcome: EnrollmentOutcome,
    next: AfterEnrollment,
)
    requires
        call_ensures(SegmentEventProcessor::after_enrollment, (processor, outcome), next),
    ensures
        outcome matches EnrollmentOutcome::Enrolled(enrollment) ==> {
            &&& next.outcome@ == "executed"@
            &&& next.session_id == Some(enrollment.upload_session_id)
            &&& next.missing_id == Some(enrollment.missing_id)
            &&& next.segment_order == Some(enrollment.segment_order)
            &&& final(processor).enrolled_session_ids@.contains(enrollment.upload_session_id)
            &&& enrollment.duplicate ==> next.enqueue is None && next.reason_code@
                == "already_enrolled"@
            &&& !enrollment.duplicate ==> next.enqueue == Some(enrollment) && next.reason_code@
                == "enrolled"@
        },
        outcome is Outboxed ==> next.outcome@ == "waiting"@ && next.reason_code@ == "outboxed"@
            && next.enqueue is None,
        outcome is FinalizedRejected ==> next.outcome@ == "skipped"@ && next.reason_code@
            == "session_finalized"@ && next.enqueue is None,
        outcome is SourceMissing ==> next.outcome@ == "failed"@ && next.reason_code@
            == "source_missing"@ && next.enqueue is None,
        !(outcome is Enrolled) ==> final(processor).enrolled_session_ids
            == old(processor).enrolled_session_ids,
{
}

/// A segment is sent over an open queue, and over a new one where there is none; it is put off
/// where the uploader takes no queue, a new queue takes nothing, or the queue is full.
pub proof fn law_how_a_segment_is_queued(
    queue: QueueState,
    first: EnqueueStep,
    offered: bool,
    second: EnqueueStep,
    accepted: bool,
    fresh: bool,
    third: EnqueueStep,
)
    requires
        call_ensures(begin_enqueue, (queue,), first),
        call_ensures(after_offer, (offered,), second),
        call_ensures(after_send, (accepted, fresh), third),
    ensures
        queue is Open ==> first == EnqueueStep::Send,
        queue is Missing || queue is Closed ==> first == EnqueueStep::OpenQueue,
        offered ==> second == EnqueueStep::Send,
        !offered ==> second == EnqueueStep::Defer(DeferReason::UploaderUnavailable),
        accepted ==> third == EnqueueStep::Queued,
        !accepted && fresh ==> third == EnqueueStep::Defer(DeferReason::NewQueueUnavailable),
        !accepted && !fresh ==> third == EnqueueStep::Defer(DeferReason::QueueFull),
{
}

/// The queue is counted: every segment that goes in, and the most that ever waited; one that is
/// put off needs a manifest where it has no row.
pub proof fn law_the_queue_is_counted(
    one: &mut SegmentEventProcessor,
    depth: usize,
    other: &mut SegmentEventProcessor,
    segment: &SegmentInfo,
    needs: bool,
)
    requires
        call_ensures(SegmentEventProcessor::record_queued, (one, depth), ()),
        call_ensures(SegmentEventProcessor::defer_for_backpressure, (other, segment), needs),
        old(one).stats.segments_queued_for_upload < u64::MAX,
    ensures
        final(one).stats.segments_queued_for_upload == old(one).stats.segments_queued_for_upload
            + 1,
        final(one).stats.upload_queue_peak_depth >= depth,
        final(one).stats.upload_queue_peak_depth >= old(one).stats.upload_queue_peak_depth,
        final(one).stats.upload_queue_peak_depth == depth
            || final(one).stats.upload_queue_peak_depth == old(one).stats.upload_queue_peak_depth,
        final(other).stats.upload_queue_peak_depth >= 64,
        final(other).stats.segments_queued_for_upload
            == old(other).stats.segments_queued_for_upload,
        needs == (segment.enrollment is None),
{
}

/// A round downloads where a route is usable, handing on the gap once, and only checks otherwise.
pub proof fn law_how_a_round_begins(session: &mut RecordingSession, start: RoundStart)
    requires
        call_ensures(RecordingSession::begin_round, (session,), start),
    ensures
        old(session).can_download ==> start == (RoundStart::Download {
            reconnect: old(session).pending_reconnect,
        }) && final(session).pending_reconnect is None,
        !old(session).can_download ==> start is CheckOnly && final(session).pending_reconnect
            == old(session).pending_reconnect,
        final(session).grace == old(session).grace,
        final(session).failover_enabled == old(session).failover_enabled,
        final(session).stream == old(session).stream,
        final(session).stream_gap_count == old(session).stream_gap_count,
{
}

/// Why a recording stopped is told under these names.
pub proof fn law_why_a_recording_stopped(
    reason: &StopReason,
    outcome: &'static str,
    code: &'static str,
)
    requires
        call_ensures(StopReason::outcome, (reason,), outcome),
        call_ensures(StopReason::code, (reason,), code),
    ensures
        *reason == StopReason::UserCancel ==> outcome@ == "cancelled"@ && code@ == "user_cancel"@,
        *reason == StopReason::Offline ==> outcome@ == "executed"@ && code@ == "offline"@,
        *reason == StopReason::CheckFailed ==> outcome@ == "failed"@ && code@ == "check_failed"@,
{
}

/// A recording begins where the lease lets it; where the lease is not known it does not, and the
/// room is paused. The identity of a broadcast that is new goes with it.
pub proof fn law_when_a_recording_begins(
    answer: LeaseAnswer,
    reused: bool,
    start: WorkflowStart,
    broadcast: Timestamp,
    recording: Timestamp,
    started: Timestamp,
    paused: Option<bool>,
    wakes: bool,
)
    requires
        call_ensures(workflow_start, (answer, reused), start),
        call_ensures(candidate_started_at, (reused, broadcast, recording), started),
        call_ensures(wakes_monitor, (paused,), wakes),
    ensures
        answer is Admitted ==> start is Run,
        answer is Blocked ==> start == (WorkflowStart::Refuse {
            pause: false,
            remove_identity: !reused,
        }),
        answer is Unknown ==> start == (WorkflowStart::Refuse {
            pause: true,
            remove_identity: !reused,
        }),
        reused ==> started == broadcast,
        !reused ==> started == recording,
        wakes <==> paused == Some(false),
{
}

/// What is told of an attempt: it filled its segment where a split was seen or the download says
/// so, and was productive where segments came of it.
pub proof fn law_what_is_told_of_an_attempt(
    status: Option<DownloadStatus>,
    failure: bool,
    connected: Span,
    split: bool,
    before: u64,
    after: u64,
    silent: Option<Span>,
    attempt: DownloadAttempt,
    asked: Option<bool>,
    url: &str,
    wanted: bool,
)
    requires
        call_ensures(
            summarize_attempt,
            (status, failure, connected, split, before, after, silent),
            attempt,
        ),
        call_ensures(cover_wanted, (asked, url), wanted),
    ensures
        split ==> attempt.completed_configured_segment,
        status == Some(DownloadStatus::SegmentCompleted) ==> attempt.completed_configured_segment,
        !split && status != Some(DownloadStatus::SegmentCompleted)
            ==> !attempt.completed_configured_segment,
        attempt.productive_attempt == (after > before),
        attempt.transport_failure == failure,
        attempt.connected_for == connected,
        attempt.silent_for == silent,
        attempt.status == status,
        wanted == (asked == Some(true) && url@.len() > 0),
{
}

/// A diagnostics scan is told as failed where the process failed, and as unread where it named
/// faults without an amount; the same scan decides on the timestamps, unless it named none.
pub proof fn law_what_a_scan_is_told_as(
    success: bool,
    scan: &StderrScan,
    report: ScanReport,
    verdict: TextVerdict,
    bytes: Option<u64>,
    accepted: bool,
)
    requires
        call_ensures(scan_report, (success, scan), report),
        call_ensures(text_verdict, (success, scan), verdict),
        call_ensures(remux_accepted, (success, bytes), accepted),
    ensures
        !success ==> report == ScanReport::ProcessFailed && !accepted,
        success && scan.timestamp_anomaly && scan.max_backward_ms is None ==> report
            == ScanReport::AnomalyUnparsed,
        success && (!scan.timestamp_anomaly || scan.max_backward_ms is Some) ==> report
            == ScanReport::Nothing,
        scan.timestamp_anomaly ==> verdict == TextVerdict::Found(
            Detection::Anomalous { max_backward_ms: scan.max_backward_ms },
        ),
        !scan.timestamp_anomaly && success ==> verdict == TextVerdict::ScanPackets,
        !scan.timestamp_anomaly && !success ==> verdict == TextVerdict::Failed,
        success ==> accepted == (bytes is Some && bytes->0 > 0),
{
}

/// The alert of a failing route names the route, and what is not known of it as unknown; the
/// average of a route that was never tried is zero.
pub proof fn law_what_a_route_alert_says(
    remark: &str,
    key: &RouteKey,
    alert: Alert,
    route: &RouteMetricSnapshot,
    average: u128,
)
    requires
        call_ensures(route_alert, (remark, key), alert),
        call_ensures(average_connected_ms, (route,), average),
    ensures
        alert.title@ == "⚠️ 直播拉流线路故障，正在自动切换"@,
        key@.host is Some && key@.quality is Some ==> alert.content@ == remark@ + "：当前 "@
            + key@.host->0 + " / "@ + key@.protocol + " / "@ + key@.quality->0
            + " 线路连续失败，已熔断并尝试备用线路。后续同一轮故障不再重复告警。"@,
        route.attempts == 0 ==> average == 0,
        route.attempts == 1 ==> average == route.connected_for@ / 1_000_000,
{
}

} // verus!
