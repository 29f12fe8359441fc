//! How the loudness of a recording is corrected, and how a sample of it is made.
use crate::audio_normalization::commands::{
    correct_filter, has_index, measure_arguments, measure_filter, probe_arguments, sample_arguments,
    transcode_arguments, MeasuredLoudness,
};
use crate::audio_normalization::measurement::{
    first_readable, group_end, groups_from, open_groups, summary_loudness, summary_mode, tail_bytes,
    value_after, value_on_line,
};
use crate::audio_normalization::run::{
    output_name, step_after, streak_moves, NormalizationOutcome, NormalizeEvent, NormalizeStep,
    NormalizedForm, TranscodeEvent,
};
use crate::audio_normalization::sample::{
    below, candidate_name, claim_name, clip_name, given_back, is_stale, sample_after, ClaimStep,
    SampleEvent, SampleFailure, SampleStep,
};
use crate::audio_normalization::{
    codec_label, first_audio, judged, rejection_code, rejection_moves, success_moves, video_labels,
    AudioProbe, OriginalReason, OutputRejection, ProbeStream, RejectionStreak,
};
use crate::ffmpeg_args::ArgView;
use crate::guarantees::media::sets;
use crate::text::{
    hex_spec, lines_spec, lower_spec, occurs_at, opt_view, text_views, trim_spec, words_spec,
};
use crate::time::Span;
use vstd::prelude::*;

verus! {

/// An output is used where it can be read, has sound and a length, holds the same video as the
/// source, is no smaller than half of it, and is as long where the length of the source is known;
/// and it is rejected otherwise.
pub proof fn law_which_outputs_are_used(
    input: AudioProbe,
    output: AudioProbe,
    input_bytes: u64,
    output_bytes: u64,
    drifted: bool,
    verdict: Result<(), OutputRejection>,
)
    requires
        judged(input, Some(output), input_bytes, output_bytes, drifted, verdict),
    ensures
        verdict is Ok <==> {
            &&& output.primary_audio_stream is Some
            &&& output.positive_duration
            &&& text_views(input.video_codecs@) == text_views(output.video_codecs@)
            &&& output_bytes + output_bytes >= input_bytes
            &&& !input.span_known || !drifted
        },
        output.primary_audio_stream is None ==> verdict == Err::<(), OutputRejection>(
            OutputRejection::NoAudio { output_bytes },
        ),
        output.primary_audio_stream is Some && !output.positive_duration ==> verdict == Err::<
            (),
            OutputRejection,
        >(OutputRejection::NoDuration { output_bytes }),
        output.primary_audio_stream is Some && output.positive_duration && text_views(
            input.video_codecs@,
        ) != text_views(output.video_codecs@) ==> verdict is Err && verdict->Err_0
            is VideoStreamsDiffer,
        output.primary_audio_stream is Some && output.positive_duration && text_views(
            input.video_codecs@,
        ) == text_views(output.video_codecs@) && output_bytes + output_bytes < input_bytes
            ==> verdict == Err::<(), OutputRejection>(
            OutputRejection::TooSmall { input_bytes, output_bytes },
        ),
        verdict == Err::<(), OutputRejection>(OutputRejection::DurationDrift) ==> input.span_known
            && drifted,
{
}

/// An output that cannot be read is never used.
pub proof fn law_an_unreadable_output_is_rejected(
    input: AudioProbe,
    input_bytes: u64,
    output_bytes: u64,
    drifted: bool,
    verdict: Result<(), OutputRejection>,
)
    requires
        judged(input, None, input_bytes, output_bytes, drifted, verdict),
    ensures
        verdict == Err::<(), OutputRejection>(OutputRejection::Unreadable { output_bytes }),
        rejection_code(verdict->Err_0) == "output_unreadable"@,
{
}

/// The rejections are told under these names.
pub proof fn law_rejections_have_their_names(rejection: OutputRejection)
    ensures
        rejection_code(rejection) == (match rejection {
            OutputRejection::Unreadable { .. } => "output_unreadable"@,
            OutputRejection::NoAudio { .. } => "output_has_no_audio"@,
            OutputRejection::NoDuration { .. } => "output_has_no_duration"@,
            OutputRejection::VideoStreamsDiffer { .. } => "video_streams_differ"@,
            OutputRejection::TooSmall { .. } => "output_too_small"@,
            OutputRejection::DurationDrift => "duration_drift"@,
        }),
{
}

/// Three rejections for one reason in a row switch normalization off, with the third and not
/// before.
pub proof fn law_three_rejections_switch_it_off(
    zero: RejectionStreak,
    one: RejectionStreak,
    two: RejectionStreak,
    three: RejectionStreak,
    reason: Seq<char>,
    trips: (bool, bool, bool),
)
    requires
        zero.reason is None,
        zero.count == 0,
        !zero.tripped,
        rejection_moves(zero, one, reason, trips.0),
        rejection_moves(one, two, reason, trips.1),
        rejection_moves(two, three, reason, trips.2),
    ensures
        !trips.0 && !one.tripped,
        !trips.1 && !two.tripped,
        trips.2 && three.tripped,
{
}

/// Another reason begins a new row, and a success ends it; neither switches normalization on
/// again.
pub proof fn law_another_reason_begins_anew(
    before: RejectionStreak,
    after: RejectionStreak,
    well: RejectionStreak,
    reason: Seq<char>,
    trips: bool,
)
    requires
        rejection_moves(before, after, reason, trips),
        success_moves(after, well),
    ensures
        before.reason is None || before.reason->0@ != reason ==> after.count == 1 && !trips
            && after.tripped == before.tripped,
        before.reason is Some && before.reason->0@ == reason ==> after.count == before.count + 1,
        after.reason is Some && after.reason->0@ == reason,
        well.count == 0 && well.reason is None && well.tripped == after.tripped,
        before.tripped ==> after.tripped,
{
}

/// What a run makes of each result: a source that is missing, empty or silent, that cannot be
/// looked into, does not fit, cannot be measured or made, or whose output is rejected, is used as
/// it is, for its own reason; otherwise the run goes on, and an accepted output stands beside the
/// source or takes its place, as was asked.
pub proof fn law_what_a_run_makes_of_a_result(
    keep: bool,
    clean: bool,
    bytes: u64,
    read: Option<bool>,
)
    ensures
        step_after(keep, NormalizeEvent::Size(None), clean) == NormalizeStep::Finished(
            NormalizationOutcome::Original { reason: OriginalReason::MissingOrEmpty },
        ),
        step_after(keep, NormalizeEvent::Size(Some(bytes)), clean) == (if bytes == 0 {
            NormalizeStep::Finished(
                NormalizationOutcome::Original { reason: OriginalReason::MissingOrEmpty },
            )
        } else {
            NormalizeStep::Probe
        }),
        step_after(keep, NormalizeEvent::Probed(None), clean) == NormalizeStep::Finished(
            NormalizationOutcome::Original { reason: OriginalReason::ProbeFailed },
        ),
        step_after(keep, NormalizeEvent::Probed(Some(false)), clean) == NormalizeStep::Finished(
            NormalizationOutcome::Original { reason: OriginalReason::NoAudio },
        ),
        step_after(keep, NormalizeEvent::Probed(Some(true)), clean) == NormalizeStep::Admit,
        step_after(keep, NormalizeEvent::Admitted(false), clean) == NormalizeStep::Finished(
            NormalizationOutcome::Original { reason: OriginalReason::DiskAdmissionDenied },
        ),
        step_after(keep, NormalizeEvent::Admitted(true), clean) == NormalizeStep::Measure,
        step_after(keep, NormalizeEvent::Measured(None), clean) == NormalizeStep::Finished(
            NormalizationOutcome::Original { reason: OriginalReason::MeasureFailed },
        ),
        step_after(keep, NormalizeEvent::Measured(Some(read)), clean)
            == NormalizeStep::ReadMeasurement,
        step_after(keep, NormalizeEvent::MeasurementRead(false), clean) == NormalizeStep::Finished(
            NormalizationOutcome::Original { reason: OriginalReason::InvalidMeasurement },
        ),
        step_after(keep, NormalizeEvent::MeasurementRead(true), clean) == NormalizeStep::Transcode,
        step_after(keep, NormalizeEvent::Transcoded(TranscodeEvent::Done), clean)
            == NormalizeStep::Inspect,
        step_after(keep, NormalizeEvent::Transcoded(TranscodeEvent::Failed), clean)
            == NormalizeStep::Finished(
            NormalizationOutcome::Original { reason: OriginalReason::TranscodeFailed },
        ),
        step_after(keep, NormalizeEvent::Transcoded(TranscodeEvent::DiskPressure), clean)
            == NormalizeStep::Finished(
            NormalizationOutcome::Original { reason: OriginalReason::DiskPressureAborted },
        ),
        step_after(true, NormalizeEvent::Inspected(None), clean) == NormalizeStep::Finished(
            NormalizationOutcome::Normalized {
                form: NormalizedForm::Artifact,
                source_timestamps_clean: clean,
            },
        ),
        step_after(false, NormalizeEvent::Inspected(None), clean) == NormalizeStep::Commit,
        step_after(keep, NormalizeEvent::Committed(true), clean) == NormalizeStep::Finished(
            NormalizationOutcome::Normalized {
                form: NormalizedForm::ReplacedOriginal,
                source_timestamps_clean: clean,
            },
        ),
        step_after(keep, NormalizeEvent::Committed(false), clean) == NormalizeStep::Finished(
            NormalizationOutcome::Original { reason: OriginalReason::TranscodeFailed },
        ),
{
}

/// A rejected output is not used, and only what an output is judged to be moves the row of
/// rejections.
pub proof fn law_only_verdicts_move_the_row(
    before: RejectionStreak,
    after: RejectionStreak,
    event: NormalizeEvent,
    trips: bool,
    keep: bool,
    clean: bool,
)
    requires
        streak_moves(before, after, event, trips),
    ensures
        !(event is Inspected) ==> after == before && !trips,
        event matches NormalizeEvent::Inspected(Some(reason)) ==> after.reason is Some
            && after.reason->0@ == reason@ && step_after(keep, event, clean)
            == NormalizeStep::Finished(
            NormalizationOutcome::Original { reason: OriginalReason::InvalidOutput },
        ),
        event == NormalizeEvent::Inspected(None) ==> after.count == 0 && after.reason is None
            && !trips,
{
}

/// The first stream of sound is the one that is corrected.
pub proof fn law_the_first_sound_is_taken(streams: Seq<ProbeStream>, at: int)
    requires
        0 <= at <= streams.len(),
        forall|i: int|
            0 <= i < at ==> opt_view((#[trigger] streams[i]).codec_type) != Some("audio"@),
        at < streams.len() ==> opt_view(streams[at].codec_type) == Some("audio"@),
    ensures
        first_audio(streams) == (if at < streams.len() {
            Some(streams[at].index)
        } else {
            None::<usize>
        }),
    decreases streams.len(),
{
    if streams.len() > 0 && at > 0 {
        let rest = streams.drop_first();
        assert(opt_view(streams[0].codec_type) != Some("audio"@));
        assert forall|i: int| 0 <= i < at - 1 implies opt_view((#[trigger] rest[i]).codec_type)
            != Some("audio"@) by {
            assert(rest[i] == streams[i + 1]);
        }
        if at < streams.len() {
            assert(rest[at - 1] == streams[at]);
        }
        law_the_first_sound_is_taken(rest, at - 1);
    }
}

/// Every stream of video is listed with the name of its codec, in order.
pub proof fn law_videos_are_listed(streams: Seq<ProbeStream>, stream: ProbeStream)
    ensures
        video_labels(Seq::<ProbeStream>::empty()).len() == 0,
        opt_view(stream.codec_type) == Some("video"@) ==> video_labels(streams.push(stream))
            == video_labels(streams).push(codec_label(stream)),
        opt_view(stream.codec_type) != Some("video"@) ==> video_labels(streams.push(stream))
            == video_labels(streams),
        stream.codec_name is Some ==> codec_label(stream) == stream.codec_name->0@,
        stream.codec_name is None ==> codec_label(stream).len() == 0,
{
    assert(streams.push(stream).drop_last() =~= streams);
}

/// Whether `bytes` holds no brace from `from` up to `to`.
pub open spec fn braceless(bytes: Seq<u8>, from: int, to: int) -> bool {
    forall|i: int| from <= i < to ==> #[trigger] bytes[i] != 0x7b && bytes[i] != 0x7d
}

proof fn lemma_open_groups(bytes: Seq<u8>, at: int, to: int)
    requires
        0 <= at <= to <= bytes.len(),
        braceless(bytes, at, to),
    ensures
        open_groups(bytes, at) == open_groups(bytes, to),
    decreases to - at,
{
    if at < to {
        lemma_open_groups(bytes, at + 1, to);
        assert(bytes[at] != 0x7b && bytes[at] != 0x7d);
    }
}

proof fn lemma_group_end(bytes: Seq<u8>, at: int, close: int)
    requires
        0 <= at <= close < bytes.len(),
        braceless(bytes, at, close),
        bytes[close] == 0x7d,
        braceless(bytes, close + 1, bytes.len() as int),
    ensures
        group_end(bytes, at) == close + 1,
    decreases close - at,
{
    lemma_open_groups(bytes, close + 1, bytes.len() as int);
    assert(open_groups(bytes, close + 1) == 0);
    assert(open_groups(bytes, close) == 1);
    if at < close {
        lemma_open_groups(bytes, at + 1, close);
        lemma_group_end(bytes, at + 1, close);
    }
}

proof fn lemma_no_groups(bytes: Seq<u8>, at: int, close: int)
    requires
        0 <= at <= close < bytes.len(),
        braceless(bytes, at, close),
        bytes[close] == 0x7d,
        braceless(bytes, close + 1, bytes.len() as int),
    ensures
        groups_from(bytes, at).len() == 0,
        groups_from(bytes, close + 1).len() == 0,
    decreases close - at,
{
    lemma_no_braces(bytes, close + 1);
    if at < close {
        lemma_no_groups(bytes, at + 1, close);
        assert(bytes[at] != 0x7b);
    } else {
        assert(bytes[at] != 0x7b);
    }
}

proof fn lemma_no_braces(bytes: Seq<u8>, at: int)
    requires
        0 <= at <= bytes.len(),
        braceless(bytes, at, bytes.len() as int),
    ensures
        groups_from(bytes, at).len() == 0,
    decreases bytes.len() - at,
{
    if at < bytes.len() {
        lemma_no_braces(bytes, at + 1);
        assert(bytes[at] != 0x7b);
    }
}

proof fn lemma_first_group_stays(bytes: Seq<u8>, at: int, open: int)
    requires
        0 <= at <= open <= bytes.len(),
        groups_from(bytes, open).len() > 0,
    ensures
        groups_from(bytes, at).len() > 0,
        groups_from(bytes, at)[0] == groups_from(bytes, open)[0],
    decreases open - at,
{
    if at < open {
        lemma_first_group_stays(bytes, at + 1, open);
    }
}

/// The last group of braces in an output is the first candidate for the measurement, from its
/// opening brace to its closing one, whatever stands before it.
pub proof fn law_the_last_group_is_tried_first(bytes: Seq<u8>, open: int, close: int)
    requires
        0 <= open < close < bytes.len(),
        bytes[open] == 0x7b,
        bytes[close] == 0x7d,
        braceless(bytes, open + 1, close),
        braceless(bytes, close + 1, bytes.len() as int),
    ensures
        groups_from(bytes, 0).len() > 0,
        groups_from(bytes, 0)[0] == (open, close + 1),
{
    lemma_open_groups(bytes, close + 1, bytes.len() as int);
    assert(open_groups(bytes, close) == 1);
    lemma_open_groups(bytes, open + 1, close);
    lemma_group_end(bytes, open + 1, close);
    lemma_no_groups(bytes, open + 1, close);
    assert(groups_from(bytes, open) == groups_from(bytes, open + 1).push((open, close + 1)));
    lemma_first_group_stays(bytes, 0, open);
}

/// The first candidate that can be read decides.
pub proof fn law_the_first_readable_candidate_decides(
    readings: Seq<Option<bool>>,
    from: int,
    at: int,
)
    requires
        0 <= from <= at <= readings.len(),
        forall|i: int| from <= i < at ==> (#[trigger] readings[i]) is None,
        at < readings.len() ==> readings[at] is Some,
    ensures
        first_readable(readings, from) == at,
    decreases at - from,
{
    if from < at {
        assert(readings[from] is None);
        law_the_first_readable_candidate_decides(readings, from + 1, at);
    }
}

/// The value of a label is what stands behind it on the last line that begins with it, without
/// the blanks round it.
pub proof fn law_the_last_value_counts(all: Seq<Seq<char>>, line: Seq<char>, label: Seq<char>)
    ensures
        ({
            let text = trim_spec(line);
            let held = text.len() >= label.len() && text.take(label.len() as int) == label;
            &&& held ==> value_after(all.push(line), label) == Some(
                trim_spec(text.skip(label.len() as int)),
            )
            &&& !held ==> value_after(all.push(line), label) == value_after(all, label)
        }),
        value_after(Seq::<Seq<char>>::empty(), label) is None,
{
    assert(all.push(line).drop_last() =~= all);
    let text = trim_spec(line);
    if text.len() >= label.len() {
        assert(text.subrange(0, label.len() as int) =~= text.take(label.len() as int));
    }
    assert(value_on_line(line, label) is Some == occurs_at(text, label, 0));
}

/// A report says how the sound was corrected, in small letters, and how loud it came out, as the
/// first word behind the label.
pub proof fn law_what_a_report_says(stderr: Seq<char>, mode: Seq<char>, loudness: Seq<char>)
    ensures
        value_after(lines_spec(stderr), "Normalization Type:"@) == Some(mode) && lower_spec(
            mode,
        ).len() > 0 ==> summary_mode(stderr) == Some(lower_spec(mode)),
        value_after(lines_spec(stderr), "Normalization Type:"@) is None ==> summary_mode(stderr)
            is None,
        value_after(lines_spec(stderr), "Output Integrated:"@) == Some(loudness) && words_spec(
            loudness,
        ).len() > 0 ==> summary_loudness(stderr) == Some(words_spec(loudness)[0]),
        value_after(lines_spec(stderr), "Output Integrated:"@) is None ==> summary_loudness(stderr)
            is None,
        summary_mode(stderr) is Some ==> summary_mode(stderr)->0.len() > 0,
        value_after(lines_spec(stderr), "Output Integrated:"@) == Some(loudness) && words_spec(
            loudness,
        ).len() == 0 ==> summary_loudness(stderr) is None,
{
}

/// An output that is no longer than the limit is kept whole, and of a longer one exactly the end.
pub proof fn law_ends_are_kept(bytes: Seq<u8>, limit: int, i: int)
    requires
        limit >= 0,
        0 <= i < limit,
    ensures
        bytes.len() <= limit ==> tail_bytes(bytes, limit) == bytes,
        bytes.len() > limit ==> tail_bytes(bytes, limit).len() == limit && tail_bytes(
            bytes,
            limit,
        )[i] == bytes[bytes.len() - limit + i],
{
}

/// An output is named after its source and a number of sixteen digits, and keeps the extension.
pub proof fn law_outputs_are_named(stem: &str, extension: &str, nonce: u64)
    ensures
        output_name(Some(stem), Some(extension), nonce) == stem@ + ".audio-normalized-"@ + hex_spec(
            nonce as nat,
            16,
        ) + ".part."@ + extension@,
        output_name(None, None, nonce) == "segment"@ + ".audio-normalized-"@ + hex_spec(
            nonce as nat,
            16,
        ) + ".part."@ + "mkv"@,
{
}

/// A claim that is older than an hour is given back: it becomes the request again, or goes away
/// where there is one already.
pub proof fn law_old_claims_are_given_back(age: Span)
    ensures
        is_stale(Some(age)) <==> age@ > 3600 * 1_000_000_000,
        !is_stale(None),
        given_back(true) == ClaimStep::Remove,
        given_back(false) == ClaimStep::Rearm,
{
}

/// A sample is made only of a recording with sound, out of a clip that is not empty, normalized
/// beside it, that was then found good; any failure on the way is told as what it is, and the
/// clip is removed wherever there may be one.
pub proof fn law_how_a_sample_is_made(bytes: u64, long: bool)
    ensures
        sample_after(SampleEvent::Probed(Some(true))) == SampleStep::Extract,
        sample_after(SampleEvent::Probed(Some(false))) == (SampleStep::Failed {
            reason: SampleFailure::NoAudio,
            remove_clip: false,
        }),
        sample_after(SampleEvent::Probed(None)) == (SampleStep::Failed {
            reason: SampleFailure::ProbeFailed,
            remove_clip: false,
        }),
        sample_after(SampleEvent::Extracted(true)) == SampleStep::CheckClip,
        sample_after(SampleEvent::Extracted(false)) == (SampleStep::Failed {
            reason: SampleFailure::ExtractionFailed,
            remove_clip: true,
        }),
        sample_after(SampleEvent::ClipChecked { bytes, has_duration: long }) == (if bytes == 0
            || !long {
            SampleStep::Failed { reason: SampleFailure::EmptyClip, remove_clip: true }
        } else {
            SampleStep::Normalize
        }),
        sample_after(SampleEvent::Normalized(Some(false))) == SampleStep::CheckSample,
        sample_after(SampleEvent::Normalized(Some(true))) == (SampleStep::Failed {
            reason: SampleFailure::ReplacedSource,
            remove_clip: true,
        }),
        sample_after(SampleEvent::Normalized(None)) == (SampleStep::Failed {
            reason: SampleFailure::NotNormalized,
            remove_clip: true,
        }),
        sample_after(SampleEvent::SampleChecked(Some(true))) == SampleStep::Commit,
        sample_after(SampleEvent::SampleChecked(Some(false))) == (SampleStep::Failed {
            reason: SampleFailure::InvalidSample,
            remove_clip: true,
        }),
        sample_after(SampleEvent::SampleChecked(None)) == (SampleStep::Failed {
            reason: SampleFailure::InvalidSample,
            remove_clip: true,
        }),
        sample_after(SampleEvent::Committed(true)) == SampleStep::Done,
        sample_after(SampleEvent::Committed(false)) == (SampleStep::Failed {
            reason: SampleFailure::CommitFailed,
            remove_clip: true,
        }),
{
}

/// A name stands below its directory behind exactly one slash, and alone where the directory is
/// empty.
pub proof fn law_names_stand_below_their_directory(directory: Seq<char>, name: Seq<char>)
    ensures
        directory.len() == 0 ==> below(directory, name) == name,
        directory.len() > 0 && directory[directory.len() - 1] == '/' ==> below(directory, name)
            == directory + name,
        directory.len() > 0 && directory[directory.len() - 1] != '/' ==> below(directory, name)
            == directory + seq!['/'] + name,
{
    reveal_strlit("/");
    assert("/"@ =~= seq!['/']);
}

/// Claims, clips and candidates are named after a number of sixteen digits.
pub proof fn law_samples_are_named(nonce: u64)
    ensures
        claim_name(nonce) == "capture-in-progress-"@ + hex_spec(nonce as nat, 16),
        clip_name(nonce) == "sample-raw-"@ + hex_spec(nonce as nat, 16) + ".m4a"@,
        candidate_name(nonce) == "sample-new-"@ + hex_spec(nonce as nat, 16) + ".m4a"@,
{
}

proof fn lemma_sets(args: Seq<ArgView>, name: Seq<char>, value: ArgView, i: int)
    requires
        0 <= i,
        i + 1 < args.len(),
        args[i] == ArgView::Text(name),
        args[i + 1] == value,
    ensures
        sets(args, name, value),
{
}

/// The loudness is measured on the first sound of the source, against the target, a range of 11
/// and a peak of -1.5; nothing is written, and the timestamps are read on the side.
pub proof fn law_how_loudness_is_measured(target: Seq<char>, i: int)
    ensures
        measure_filter(target) == "loudnorm=I="@ + target + ":LRA=11:TP=-1.5"@
            + ":print_format=json"@,
        ({
            let args = measure_arguments(target);
            &&& sets(args, "-loglevel"@, ArgView::Text("verbose"@))
            &&& sets(args, "-fflags"@, ArgView::Text("+igndts"@))
            &&& sets(args, "-i"@, ArgView::Input)
            &&& sets(args, "-c"@, ArgView::Text("copy"@))
            &&& sets(args, "-map"@, ArgView::Text("0:a:0"@))
            &&& sets(args, "-af"@, ArgView::Text(measure_filter(target)))
            &&& sets(args, "-f"@, ArgView::Text("null"@))
            &&& args.last() == ArgView::Text("-"@)
            &&& 0 <= i < args.len() ==> args[i] != ArgView::Output
        }),
        ({
            let args = probe_arguments();
            &&& sets(args, "-v"@, ArgView::Text("error"@))
            &&& sets(args, "-of"@, ArgView::Text("json"@))
            &&& args[2] == ArgView::Text("-show_streams"@)
            &&& args[3] == ArgView::Text("-show_format"@)
            &&& args.last() == ArgView::Input
            &&& 0 <= i < args.len() ==> args[i] != ArgView::Output
        }),
{
    let args = measure_arguments(target);
    lemma_sets(args, "-loglevel"@, ArgView::Text("verbose"@), 1);
    lemma_sets(args, "-fflags"@, ArgView::Text("+igndts"@), 4);
    lemma_sets(args, "-i"@, ArgView::Input, 6);
    lemma_sets(args, "-c"@, ArgView::Text("copy"@), 8);
    lemma_sets(args, "-f"@, ArgView::Text("null"@), 10);
    lemma_sets(args, "-map"@, ArgView::Text("0:a:0"@), 13);
    lemma_sets(args, "-af"@, ArgView::Text(measure_filter(target)), 15);
    let args = probe_arguments();
    lemma_sets(args, "-v"@, ArgView::Text("error"@), 0);
    lemma_sets(args, "-of"@, ArgView::Text("json"@), 4);
}

/// The sound is corrected by what was measured, as AAC at the given rate and 48000 samples;
/// everything else is copied, and a file with an index gets it in front.
pub proof fn law_how_loudness_is_corrected(
    bitrate: Seq<char>,
    target: Seq<char>,
    measured: MeasuredLoudness,
    extension: Option<&str>,
)
    ensures
        correct_filter(target, measured) == "loudnorm=I="@ + target + ":LRA=11:TP=-1.5"@
            + ":measured_I="@ + measured.input_i@ + ":measured_LRA="@ + measured.input_lra@
            + ":measured_TP="@ + measured.input_tp@ + ":measured_thresh="@ + measured.input_thresh@
            + ":offset="@ + measured.target_offset@ + ":linear=true:print_format=summary"@,
        ({
            let args = transcode_arguments(bitrate, target, measured, extension);
            &&& args[2] == ArgView::Text("-y"@)
            &&& sets(args, "-i"@, ArgView::Input)
            &&& sets(args, "-map"@, ArgView::Text("0"@))
            &&& sets(args, "-c"@, ArgView::Text("copy"@))
            &&& sets(args, "-c:a:0"@, ArgView::Text("aac"@))
            &&& sets(args, "-b:a:0"@, ArgView::Text(bitrate))
            &&& sets(args, "-ar:a:0"@, ArgView::Text("48000"@))
            &&& sets(args, "-filter:a:0"@, ArgView::Text(correct_filter(target, measured)))
            &&& args.last() == ArgView::Output
            &&& extension is Some && (extension->0@ == "mp4"@ || extension->0@ == "mov"@
                || extension->0@ == "m4v"@) ==> sets(
                args,
                "-movflags"@,
                ArgView::Text("+faststart"@),
            )
        }),
        has_index(extension) <==> extension is Some && (extension->0@ == "mp4"@ || extension->0@
            == "mov"@ || extension->0@ == "m4v"@),
{
    let args = transcode_arguments(bitrate, target, measured, extension);
    lemma_sets(args, "-i"@, ArgView::Input, 3);
    lemma_sets(args, "-map"@, ArgView::Text("0"@), 5);
    lemma_sets(args, "-c"@, ArgView::Text("copy"@), 7);
    lemma_sets(args, "-c:a:0"@, ArgView::Text("aac"@), 9);
    lemma_sets(args, "-b:a:0"@, ArgView::Text(bitrate), 11);
    lemma_sets(args, "-ar:a:0"@, ArgView::Text("48000"@), 13);
    lemma_sets(args, "-filter:a:0"@, ArgView::Text(correct_filter(target, measured)), 15);
    if has_index(extension) {
        lemma_sets(args, "-movflags"@, ArgView::Text("+faststart"@), 17);
    }
}

/// A sample is cut out of the first sound between two times, without video, as AAC at 96k.
pub proof fn law_how_a_sample_is_cut(start: Seq<char>, length: Seq<char>)
    ensures
        ({
            let args = sample_arguments(start, length);
            &&& args[2] == ArgView::Text("-y"@)
            &&& sets(args, "-ss"@, ArgView::Text(start))
            &&& sets(args, "-t"@, ArgView::Text(length))
            &&& sets(args, "-i"@, ArgView::Input)
            &&& sets(args, "-map"@, ArgView::Text("0:a:0"@))
            &&& sets(args, "-c:a"@, ArgView::Text("aac"@))
            &&& sets(args, "-b:a"@, ArgView::Text("96k"@))
            &&& sets(args, "-ar"@, ArgView::Text("48000"@))
            &&& args[11] == ArgView::Text("-vn"@)
            &&& args.last() == ArgView::Output
        }),
{
    let args = sample_arguments(start, length);
    lemma_sets(args, "-ss"@, ArgView::Text(start), 3);
    lemma_sets(args, "-t"@, ArgView::Text(length), 5);
    lemma_sets(args, "-i"@, ArgView::Input, 7);
    lemma_sets(args, "-map"@, ArgView::Text("0:a:0"@), 9);
    lemma_sets(args, "-c:a"@, ArgView::Text("aac"@), 12);
    lemma_sets(args, "-b:a"@, ArgView::Text("96k"@), 14);
    lemma_sets(args, "-ar"@, ArgView::Text("48000"@), 16);
}

} // verus!
