//! Loudness normalization of a recording before its upload: when it is worth trying, when its
//! output is good enough to be used, and what is left behind when it is not.
pub mod commands;
pub mod measurement;
pub mod run;
pub mod sample;

use crate::text::{join, join_spec, opt_view, str_eq, text_views};
use vstd::prelude::*;

verus! {

/// Bytes in one GiB.
pub const GIB: u64 = 1_073_741_824;

/// Seconds between two looks at the free space while ffmpeg runs.
pub const DISK_CHECK_INTERVAL_SECS: u64 = 10;

/// The most bytes of an error output that are kept.
pub const STDERR_LIMIT: usize = 16_384;

/// How many outputs rejected in a row for the same reason switch normalization off.
pub const REJECTION_TRIP_THRESHOLD: u32 = 3;

/// Seconds after which a claim on the next sample is taken back.
pub const STALE_CLAIM_SECS: u64 = 3600;

/// How much disk normalization may use.
#[derive(Debug, Clone, Copy, PartialEq, Eq, Structural)]
pub struct DiskBudget {
    /// Bytes that always stay free.
    pub reserve_bytes: u64,
}

impl DiskBudget {
    /// A budget that keeps `reserve_gib` GiB free.
    pub fn from_reserve_gib(reserve_gib: u64) -> (budget: DiskBudget)
        ensures
            budget.reserve_bytes == (if reserve_gib * GIB <= u64::MAX {
                reserve_gib * GIB
            } else {
                u64::MAX as int
            }),
    {
        match reserve_gib.checked_mul(GIB) {
            Some(reserve_bytes) => DiskBudget { reserve_bytes },
            None => DiskBudget { reserve_bytes: u64::MAX },
        }
    }

    /// Whether an output of `projected_bytes` may be made with `available` bytes free: it and
    /// the reserve must fit. Where the free space is not known it may. The numbers that were
    /// held against each other come with a refusal.
    pub fn admits(&self, available: Option<u64>, projected_bytes: u64) -> (answer: Result<
        (),
        (u64, u64),
    >)
        requires
            available is Some ==> projected_bytes + self.reserve_bytes <= u64::MAX,
        ensures
            answer == (match available {
                Some(free) if free < projected_bytes + self.reserve_bytes => Err(
                    (free, (projected_bytes + self.reserve_bytes) as u64),
                ),
                _ => Ok(()),
            }),
    {
        match available {
            Some(free) => {
                let required: u64 = projected_bytes + self.reserve_bytes;
                if free < required {
                    Err((free, required))
                } else {
                    Ok(())
                }
            },
            None => Ok(()),
        }
    }

    /// Whether a running ffmpeg is to be stopped: the free space is known and below the reserve.
    pub fn under_pressure(&self, available: Option<u64>) -> (yes: bool)
        ensures
            yes == (available matches Some(free) && free < self.reserve_bytes),
    {
        match available {
            Some(free) => free < self.reserve_bytes,
            None => false,
        }
    }
}

/// How recordings are normalized. `target_lufs` is the target as ffmpeg is told it.
#[derive(Debug, PartialEq, Eq)]
pub struct NormalizationSettings {
    pub enabled: bool,
    pub target_lufs: String,
    pub keep_original: bool,
    pub budget: DiskBudget,
}

impl NormalizationSettings {
    /// Settings that keep `reserve_gib` GiB free.
    pub fn new(enabled: bool, target_lufs: String, keep_original: bool, reserve_gib: u64) -> (
        settings: NormalizationSettings)
        ensures
            settings.enabled == enabled,
            settings.target_lufs == target_lufs,
            settings.keep_original == keep_original,
            settings.budget.reserve_bytes == (if reserve_gib * GIB <= u64::MAX {
                reserve_gib * GIB
            } else {
                u64::MAX as int
            }),
    {
        NormalizationSettings {
            enabled,
            target_lufs,
            keep_original,
            budget: DiskBudget::from_reserve_gib(reserve_gib),
        }
    }

    /// The same settings, switched on or off.
    pub fn with_enabled(self, enabled: bool) -> (settings: NormalizationSettings)
        ensures
            settings == (NormalizationSettings { enabled, ..self }),
    {
        NormalizationSettings {
            enabled,
            target_lufs: self.target_lufs,
            keep_original: self.keep_original,
            budget: self.budget,
        }
    }
}

/// A stream of a media file, as ffprobe lists it.
#[derive(Debug)]
pub struct ProbeStream {
    pub codec_type: Option<String>,
    pub codec_name: Option<String>,
    pub index: usize,
}

/// What a look into a media file found. `span_known` tells whether the length of its content is
/// known, `positive_duration` whether its length counts as more than nothing.
#[derive(Debug)]
pub struct AudioProbe {
    pub span_known: bool,
    pub positive_duration: bool,
    pub primary_audio_stream: Option<usize>,
    pub video_codecs: Vec<String>,
}

/// Whether a stream is of the given type.
pub open spec fn has_type(stream: ProbeStream, kind: Seq<char>) -> bool {
    opt_view(stream.codec_type) == Some(kind)
}

/// The number of the first audio stream.
pub open spec fn first_audio(streams: Seq<ProbeStream>) -> Option<usize>
    decreases streams.len(),
{
    if streams.len() == 0 {
        None
    } else if has_type(streams[0], "audio"@) {
        Some(streams[0].index)
    } else {
        first_audio(streams.drop_first())
    }
}

/// The name of the codec of a stream, empty where it has none.
pub open spec fn codec_label(stream: ProbeStream) -> Seq<char> {
    match opt_view(stream.codec_name) {
        Some(name) => name,
        None => Seq::empty(),
    }
}

/// The codecs of the video streams, in order.
pub open spec fn video_labels(streams: Seq<ProbeStream>) -> Seq<Seq<char>>
    decreases streams.len(),
{
    if streams.len() == 0 {
        Seq::empty()
    } else if has_type(streams.last(), "video"@) {
        video_labels(streams.drop_last()).push(codec_label(streams.last()))
    } else {
        video_labels(streams.drop_last())
    }
}

fn type_is(stream: &ProbeStream, kind: &str) -> (yes: bool)
    ensures
        yes == has_type(*stream, kind@),
{
    match &stream.codec_type {
        Some(t) => str_eq(t.as_str(), kind),
        None => false,
    }
}

impl AudioProbe {
    /// What the list of streams of a file says.
    pub fn from_streams(streams: &Vec<ProbeStream>, span_known: bool, positive_duration: bool) -> (
        probe: AudioProbe)
        ensures
            probe.span_known == span_known,
            probe.positive_duration == positive_duration,
            probe.primary_audio_stream == first_audio(streams@),
            text_views(probe.video_codecs@) == video_labels(streams@),
    {
        let mut primary: Option<usize> = None;
        let mut codecs: Vec<String> = Vec::new();
        let mut i: usize = 0;
        proof {
            assert(streams@.take(0) =~= Seq::empty());
            assert(streams@.skip(0) =~= streams@);
            assert(text_views(codecs@) =~= video_labels(streams@.take(0)));
        }
        while i < streams.len()
            invariant
                i <= streams.len(),
                text_views(codecs@) == video_labels(streams@.take(i as int)),
                primary is Some ==> first_audio(streams@) == primary,
                primary is None ==> first_audio(streams@) == first_audio(streams@.skip(i as int)),
            decreases streams.len() - i,
        {
            let stream = &streams[i];
            let ghost before = codecs@;
            proof {
                assert(streams@.take(i + 1).drop_last() =~= streams@.take(i as int));
                assert(streams@.take(i + 1).last() == streams@[i as int]);
                assert(streams@.skip(i as int).drop_first() =~= streams@.skip(i + 1));
            }
            if primary.is_none() && type_is(stream, "audio") {
                primary = Some(stream.index);
            }
            if type_is(stream, "video") {
                let label: String = match &stream.codec_name {
                    Some(name) => name.clone(),
                    None => String::new(),
                };
                assert(label@ =~= codec_label(*stream));
                codecs.push(label);
                assert(text_views(codecs@) =~= text_views(before).push(label@));
            }
            i = i + 1;
        }
        proof {
            assert(streams@.take(i as int) =~= streams@);
        }
        AudioProbe {
            span_known,
            positive_duration,
            primary_audio_stream: primary,
            video_codecs: codecs,
        }
    }

    /// Whether the file has a video stream.
    pub fn has_video(&self) -> (yes: bool)
        ensures
            yes == (self.video_codecs@.len() > 0),
    {
        self.video_codecs.len() > 0
    }
}

/// Why a recording is uploaded as it is.
#[derive(Debug, Clone, Copy, PartialEq, Eq, Structural)]
pub enum OriginalReason {
    MissingOrEmpty,
    NoAudio,
    ProbeFailed,
    MeasureFailed,
    InvalidMeasurement,
    TranscodeFailed,
    InvalidOutput,
    DiskAdmissionDenied,
    DiskPressureAborted,
    NormalizationDisabled,
}

/// Why an output was rejected, with what it was judged by.
#[derive(Debug, PartialEq, Eq)]
pub enum OutputRejection {
    Unreadable { output_bytes: u64 },
    NoAudio { output_bytes: u64 },
    NoDuration { output_bytes: u64 },
    VideoStreamsDiffer { source: String, output: String },
    TooSmall { input_bytes: u64, output_bytes: u64 },
    DurationDrift,
}

/// The code of a rejection in reports.
pub open spec fn rejection_code(rejection: OutputRejection) -> Seq<char> {
    match rejection {
        OutputRejection::Unreadable { .. } => "output_unreadable"@,
        OutputRejection::NoAudio { .. } => "output_has_no_audio"@,
        OutputRejection::NoDuration { .. } => "output_has_no_duration"@,
        OutputRejection::VideoStreamsDiffer { .. } => "video_streams_differ"@,
        OutputRejection::TooSmall { .. } => "output_too_small"@,
        OutputRejection::DurationDrift => "duration_drift"@,
    }
}

impl OutputRejection {
    /// The code of the rejection in reports.
    pub fn reason(&self) -> (code: &'static str)
        ensures
            code@ == rejection_code(*self),
    {
        match self {
            OutputRejection::Unreadable { .. } => "output_unreadable",
            OutputRejection::NoAudio { .. } => "output_has_no_audio",
            OutputRejection::NoDuration { .. } => "output_has_no_duration",
            OutputRejection::VideoStreamsDiffer { .. } => "video_streams_differ",
            OutputRejection::TooSmall { .. } => "output_too_small",
            OutputRejection::DurationDrift => "duration_drift",
        }
    }
}

fn same_texts(a: &Vec<String>, b: &Vec<String>) -> (same: bool)
    ensures
        same == (text_views(a@) == text_views(b@)),
{
    if a.len() != b.len() {
        assert(text_views(a@).len() != text_views(b@).len());
        return false;
    }
    let mut i: usize = 0;
    while i < a.len()
        invariant
            i <= a.len(),
            a.len() == b.len(),
            forall|k: int| 0 <= k < i ==> (#[trigger] a@[k])@ == b@[k]@,
        decreases a.len() - i,
    {
        if !str_eq(a[i].as_str(), b[i].as_str()) {
            proof {
                assert(text_views(a@)[i as int] == a@[i as int]@);
                assert(text_views(b@)[i as int] == b@[i as int]@);
            }
            return false;
        }
        i = i + 1;
    }
    assert(text_views(a@) =~= text_views(b@));
    true
}

/// Whether `verdict` is the judgement of an output: it can be read, has sound and a length, the
/// same video streams as the source, at least half its size, and no drift of the length where
/// that of the source is known; the first that fails is the reason.
pub open spec fn judged(
    input: AudioProbe,
    output: Option<AudioProbe>,
    input_bytes: u64,
    output_bytes: u64,
    drifted: bool,
    verdict: Result<(), OutputRejection>,
) -> bool {
    match output {
        None => verdict == Err::<(), OutputRejection>(OutputRejection::Unreadable { output_bytes }),
        Some(out) => if out.primary_audio_stream is None {
            verdict == Err::<(), OutputRejection>(OutputRejection::NoAudio { output_bytes })
        } else if !out.positive_duration {
            verdict == Err::<(), OutputRejection>(OutputRejection::NoDuration { output_bytes })
        } else if text_views(input.video_codecs@) != text_views(out.video_codecs@) {
            verdict matches Err(OutputRejection::VideoStreamsDiffer { source, output: other })
                && source@ == join_spec(text_views(input.video_codecs@), ","@) && other@
                == join_spec(text_views(out.video_codecs@), ","@)
        } else if output_bytes * 2 < input_bytes {
            verdict == Err::<(), OutputRejection>(
                OutputRejection::TooSmall { input_bytes, output_bytes },
            )
        } else if input.span_known && drifted {
            verdict == Err::<(), OutputRejection>(OutputRejection::DurationDrift)
        } else {
            verdict == Ok::<(), OutputRejection>(())
        },
    }
}

/// Judges an output. `drifted` tells whether its length differs too much from that of the
/// source, where both are known.
pub fn output_is_faithful(
    input: &AudioProbe,
    output: Option<&AudioProbe>,
    input_bytes: u64,
    output_bytes: u64,
    drifted: bool,
) -> (verdict: Result<(), OutputRejection>)
    ensures
        judged(
            *input,
            crate::route_health::deref_opt(output),
            input_bytes,
            output_bytes,
            drifted,
            verdict,
        ),
{
    match output {
        None => Err(OutputRejection::Unreadable { output_bytes }),
        Some(out) => {
            if out.primary_audio_stream.is_none() {
                return Err(OutputRejection::NoAudio { output_bytes });
            }
            if !out.positive_duration {
                return Err(OutputRejection::NoDuration { output_bytes });
            }
            if !same_texts(&input.video_codecs, &out.video_codecs) {
                return Err(
                    OutputRejection::VideoStreamsDiffer {
                        source: join(&input.video_codecs, ","),
                        output: join(&out.video_codecs, ","),
                    },
                );
            }
            if (output_bytes as u128) * 2 < input_bytes as u128 {
                return Err(OutputRejection::TooSmall { input_bytes, output_bytes });
            }
            if input.span_known && drifted {
                return Err(OutputRejection::DurationDrift);
            }
            Ok(())
        },
    }
}

/// Outputs that were rejected in a row for the same reason. Enough of them switch normalization
/// off for good.
#[derive(Debug, PartialEq, Eq)]
pub struct RejectionStreak {
    pub reason: Option<&'static str>,
    pub count: u32,
    pub tripped: bool,
}

/// Whether the last rejection was for `reason`.
pub open spec fn same_reason(streak: RejectionStreak, reason: Seq<char>) -> bool {
    streak.reason matches Some(r) && r@ == reason
}

/// The length of the streak after one more rejection for `reason`.
pub open spec fn streak_after(streak: RejectionStreak, reason: Seq<char>) -> int {
    if same_reason(streak, reason) {
        streak.count + 1
    } else {
        1
    }
}

/// Whether a rejection for `reason` leads from one streak to the next, and `trips` tells that it
/// switches normalization off.
pub open spec fn rejection_moves(
    before: RejectionStreak,
    after: RejectionStreak,
    reason: Seq<char>,
    trips: bool,
) -> bool {
    &&& same_reason(after, reason)
    &&& after.count == streak_after(before, reason)
    &&& trips == (!before.tripped && streak_after(before, reason) >= REJECTION_TRIP_THRESHOLD)
    &&& after.tripped == (before.tripped || trips)
}

/// Whether a success leads from one streak to the next.
pub open spec fn success_moves(before: RejectionStreak, after: RejectionStreak) -> bool {
    &&& after.reason is None
    &&& after.count == 0
    &&& after.tripped == before.tripped
}

impl RejectionStreak {
    /// No output was rejected yet.
    pub fn new() -> (streak: RejectionStreak)
        ensures
            streak.reason is None,
            streak.count == 0,
            !streak.tripped,
    {
        RejectionStreak { reason: None, count: 0, tripped: false }
    }

    /// Records a rejection; whether it is the one that switches normalization off.
    pub fn record_rejection(&mut self, reason: &'static str) -> (trips: bool)
        requires
            old(self).count < u32::MAX,
        ensures
            rejection_moves(*old(self), *final(self), reason@, trips),
    {
        let repeated: bool = match self.reason {
            Some(r) => str_eq(r, reason),
            None => false,
        };
        if repeated {
            self.count = self.count + 1;
        } else {
            self.reason = Some(reason);
            self.count = 1;
        }
        if self.count >= REJECTION_TRIP_THRESHOLD && !self.tripped {
            self.tripped = true;
            return true;
        }
        false
    }

    /// Records an output that was used. What has been switched off stays so.
    pub fn record_success(&mut self)
        ensures
            success_moves(*old(self), *final(self)),
    {
        self.reason = None;
        self.count = 0;
    }
}

} // verus!
