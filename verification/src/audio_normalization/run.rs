//! The course of one normalization, and the files it makes.
use crate::audio_normalization::{
    rejection_moves, same_reason, success_moves, OriginalReason, RejectionStreak,
    REJECTION_TRIP_THRESHOLD,
};
use crate::chance::random_u64;
use crate::text::{contains, contains_text, hex_spec, hex_text, occurs_at, own};
use vstd::hash_set::StringHashSet;
use vstd::prelude::*;
use vstd::string::*;

verus! {

/// The name of an output for a source whose name has the given stem and extension.
pub open spec fn output_name(stem: Option<&str>, extension: Option<&str>, nonce: u64) -> Seq<char> {
    (match stem {
        Some(s) => s@,
        None => "segment"@,
    }) + ".audio-normalized-"@ + hex_spec(nonce as nat, 16) + ".part."@ + (match extension {
        Some(e) => e@,
        None => "mkv"@,
    })
}

/// The name of the output under `nonce`.
pub fn normalized_temp_name(stem: Option<&str>, extension: Option<&str>, nonce: u64) -> (name:
    String)
    ensures
        name@ == output_name(stem, extension, nonce),
{
    let mut name: String = match stem {
        Some(s) => own(s),
        None => own("segment"),
    };
    name.append(".audio-normalized-");
    let digits: String = hex_text(nonce as u128, 16);
    name.append(digits.as_str());
    name.append(".part.");
    match extension {
        Some(e) => {
            name.append(e);
        },
        None => {
            name.append("mkv");
        },
    }
    name
}

/// A fresh name for the output of a source, which is made beside it.
pub fn normalized_temp_path(stem: Option<&str>, extension: Option<&str>) -> (name: String)
    ensures
        exists|nonce: u64| name@ == #[trigger] output_name(stem, extension, nonce),
{
    let nonce: u64 = random_u64();
    let name: String = normalized_temp_name(stem, extension, nonce);
    assert(name@ == output_name(stem, extension, nonce));
    name
}

/// Whether a file name is that of an output.
pub open spec fn names_output(name: Seq<char>) -> bool {
    contains_text(name, ".audio-normalized-"@) && contains_text(name, ".part."@)
}

/// Whether the file `name` at `path` is left over from an earlier process, where this one uses the
/// files `active`.
pub open spec fn orphaned(active: Set<Seq<char>>, name: Seq<char>, path: Seq<char>) -> bool {
    names_output(name) && !active.contains(path)
}

/// An output that is in use is never taken for a leftover, whatever other outputs come and go; a
/// process that has just begun recognizes every leftover by its name.
pub proof fn law_only_leftovers_are_orphans(
    active: Set<Seq<char>>,
    path: Seq<char>,
    other: Seq<char>,
    stem: Option<&str>,
    extension: Option<&str>,
    nonce: u64,
)
    requires
        other != path,
    ensures
        ({
            let name = output_name(stem, extension, nonce);
            &&& !orphaned(active.insert(path), name, path)
            &&& !orphaned(active.insert(path).insert(other), name, path)
            &&& !orphaned(active.insert(path).remove(other), name, path)
            &&& orphaned(active.remove(path), name, path)
            &&& orphaned(Set::empty(), name, path)
        }),
{
    let name = output_name(stem, extension, nonce);
    let front = match stem {
        Some(s) => s@,
        None => "segment"@,
    };
    let digits = hex_spec(nonce as nat, 16);
    let first = front.len() as int;
    let second = first + ".audio-normalized-"@.len() + digits.len();
    assert(occurs_at(name, ".audio-normalized-"@, first));
    assert(occurs_at(name, ".part."@, second));
}

/// The outputs that this process still uses.
pub struct ActiveArtifacts {
    paths: StringHashSet,
}

impl View for ActiveArtifacts {
    type V = Set<Seq<char>>;

    closed spec fn view(&self) -> Set<Seq<char>> {
        self.paths@
    }
}

impl ActiveArtifacts {
    /// A process that has made no output yet.
    pub fn new() -> (active: ActiveArtifacts)
        ensures
            active@ == Set::<Seq<char>>::empty(),
    {
        ActiveArtifacts { paths: StringHashSet::new() }
    }

    /// Whether the file at `path` is still used.
    pub fn contains(&self, path: &str) -> (yes: bool)
        ensures
            yes == self@.contains(path@),
    {
        self.paths.contains(path)
    }

    fn insert(&mut self, path: &str)
        ensures
            final(self)@ == old(self)@.insert(path@),
    {
        let _ = self.paths.insert(own(path));
    }

    fn remove(&mut self, path: &str)
        ensures
            final(self)@ == old(self)@.remove(path@),
    {
        let _ = self.paths.remove(path);
    }

    /// Whether a file in the directory of a recording is left over from an earlier process: it
    /// has the name of an output and this process does not use it.
    pub fn is_orphan(&self, name: &str, path: &str) -> (yes: bool)
        ensures
            yes == orphaned(self@, name@, path@),
    {
        contains(name, ".audio-normalized-") && contains(name, ".part.") && !self.contains(path)
    }
}

/// An output, or another file that goes away with its owner.
#[derive(Debug)]
pub struct TempArtifact {
    path: String,
    committed: bool,
}

impl TempArtifact {
    /// Where the file is.
    pub closed spec fn location(&self) -> Seq<char> {
        self.path@
    }

    /// Whether the file has been moved into its final place.
    pub closed spec fn is_committed(&self) -> bool {
        self.committed
    }

    /// An output at `path`; from now on this process uses it.
    pub fn normalization_output(active: &mut ActiveArtifacts, path: String) -> (artifact:
        TempArtifact)
        ensures
            artifact.location() == path@,
            !artifact.is_committed(),
            final(active)@ == old(active)@.insert(path@),
    {
        active.insert(path.as_str());
        TempArtifact { path, committed: false }
    }

    /// Another file that goes away with its owner.
    pub fn guard(path: String) -> (artifact: TempArtifact)
        ensures
            artifact.location() == path@,
            !artifact.is_committed(),
    {
        TempArtifact { path, committed: false }
    }

    /// Where the file is.
    pub fn path(&self) -> (path: &str)
        ensures
            path@ == self.location(),
    {
        self.path.as_str()
    }

    /// Takes note that the file was moved into its final place.
    pub fn mark_committed(&mut self)
        ensures
            final(self).location() == old(self).location(),
            final(self).is_committed(),
    {
        self.committed = true;
    }

    /// Gives the file up: this process uses it no more. Whether it is to be removed: not where
    /// it was moved.
    pub fn release(&self, active: &mut ActiveArtifacts) -> (remove: bool)
        ensures
            final(active)@ == old(active)@.remove(self.location()),
            remove == !self.is_committed(),
    {
        active.remove(self.path.as_str());
        !self.committed
    }
}

/// What a normalization does next.
#[derive(Debug, Clone, Copy, PartialEq, Eq, Structural)]
pub enum NormalizeStep {
    /// Ask for the size of the source.
    Stat,
    /// Look into the source.
    Probe,
    /// Wait for a slot, then ask whether the output fits on the disk.
    Admit,
    /// Measure the loudness of the source.
    Measure,
    /// Read the measurement.
    ReadMeasurement,
    /// Make the output.
    Transcode,
    /// Judge the output.
    Inspect,
    /// Put the output in the place of the source.
    Commit,
    /// The normalization is over.
    Finished(NormalizationOutcome),
}

/// Where the output of a normalization is.
#[derive(Debug, Clone, Copy, PartialEq, Eq, Structural)]
pub enum NormalizedForm {
    /// It took the place of the source.
    ReplacedOriginal,
    /// It stands beside the source.
    Artifact,
}

/// How a normalization ended.
#[derive(Debug, Clone, Copy, PartialEq, Eq, Structural)]
pub enum NormalizationOutcome {
    /// The source is used as it is.
    Original { reason: OriginalReason },
    /// The output is used. Whether the timestamps of the source are known to be in order.
    Normalized { form: NormalizedForm, source_timestamps_clean: bool },
}

/// What became of the second pass.
#[derive(Debug, Clone, Copy, PartialEq, Eq, Structural)]
pub enum TranscodeEvent {
    Done,
    Failed,
    /// The free space fell below the reserve and the pass was stopped.
    DiskPressure,
}

/// What came of a step.
#[derive(Debug, Clone, Copy, PartialEq, Eq)]
pub enum NormalizeEvent {
    /// The size of the source, where it is there.
    Size(Option<u64>),
    /// Whether the source could be looked into, and then whether it has sound.
    Probed(Option<bool>),
    /// Whether the output fits.
    Admitted(bool),
    /// Whether the first pass went through, and then what it says of the timestamps.
    Measured(Option<Option<bool>>),
    /// Whether the measurement can be used.
    MeasurementRead(bool),
    Transcoded(TranscodeEvent),
    /// Why the output is rejected, where it is.
    Inspected(Option<&'static str>),
    /// Whether the output is in the place of the source.
    Committed(bool),
}

/// Where the files of a normalization stand.
#[derive(Debug, Clone, Copy, PartialEq, Eq, Structural)]
pub enum OutputFile {
    /// There is none.
    Absent,
    /// The output stands beside the source.
    Beside,
    /// The output was put in the place of the source.
    Replaced,
}

/// A normalization under way.
pub struct NormalizationRun {
    keep_original: bool,
    step: NormalizeStep,
    clean: bool,
    output: OutputFile,
    faithful: Ghost<bool>,
}

/// Whether an event answers a step.
pub open spec fn answers(step: NormalizeStep, event: NormalizeEvent) -> bool {
    match step {
        NormalizeStep::Stat => event is Size,
        NormalizeStep::Probe => event is Probed,
        NormalizeStep::Admit => event is Admitted,
        NormalizeStep::Measure => event is Measured,
        NormalizeStep::ReadMeasurement => event is MeasurementRead,
        NormalizeStep::Transcode => event is Transcoded,
        NormalizeStep::Inspect => event is Inspected,
        NormalizeStep::Commit => event is Committed,
        NormalizeStep::Finished(_) => false,
    }
}

/// Whether a step is the end at which the source is used.
pub open spec fn ends_with_source(step: NormalizeStep) -> bool {
    step matches NormalizeStep::Finished(NormalizationOutcome::Original { .. })
}

/// The source is used, for `reason`.
pub open spec fn falls_back(reason: OriginalReason) -> NormalizeStep {
    NormalizeStep::Finished(NormalizationOutcome::Original { reason })
}

/// The step that follows `event`, where `clean` tells whether the first pass found the
/// timestamps in order.
pub open spec fn step_after(
    keep_original: bool,
    event: NormalizeEvent,
    clean: bool,
) -> NormalizeStep {
    match event {
        NormalizeEvent::Size(size) => match size {
            Some(bytes) if bytes > 0 => NormalizeStep::Probe,
            _ => falls_back(OriginalReason::MissingOrEmpty),
        },
        NormalizeEvent::Probed(found) => match found {
            None => falls_back(OriginalReason::ProbeFailed),
            Some(false) => falls_back(OriginalReason::NoAudio),
            Some(true) => NormalizeStep::Admit,
        },
        NormalizeEvent::Admitted(yes) => if yes {
            NormalizeStep::Measure
        } else {
            falls_back(OriginalReason::DiskAdmissionDenied)
        },
        NormalizeEvent::Measured(found) => if found is Some {
            NormalizeStep::ReadMeasurement
        } else {
            falls_back(OriginalReason::MeasureFailed)
        },
        NormalizeEvent::MeasurementRead(usable) => if usable {
            NormalizeStep::Transcode
        } else {
            falls_back(OriginalReason::InvalidMeasurement)
        },
        NormalizeEvent::Transcoded(result) => match result {
            TranscodeEvent::Done => NormalizeStep::Inspect,
            TranscodeEvent::Failed => falls_back(OriginalReason::TranscodeFailed),
            TranscodeEvent::DiskPressure => falls_back(OriginalReason::DiskPressureAborted),
        },
        NormalizeEvent::Inspected(rejection) => if rejection is Some {
            falls_back(OriginalReason::InvalidOutput)
        } else if keep_original {
            NormalizeStep::Finished(
                NormalizationOutcome::Normalized {
                    form: NormalizedForm::Artifact,
                    source_timestamps_clean: clean,
                },
            )
        } else {
            NormalizeStep::Commit
        },
        NormalizeEvent::Committed(done) => if done {
            NormalizeStep::Finished(
                NormalizationOutcome::Normalized {
                    form: NormalizedForm::ReplacedOriginal,
                    source_timestamps_clean: clean,
                },
            )
        } else {
            falls_back(OriginalReason::TranscodeFailed)
        },
    }
}

/// Whether `after` is the streak that an event leaves, and `trips` whether it switched
/// normalization off.
pub open spec fn streak_moves(
    before: RejectionStreak,
    after: RejectionStreak,
    event: NormalizeEvent,
    trips: bool,
) -> bool {
    match event {
        NormalizeEvent::Inspected(Some(reason)) => rejection_moves(before, after, reason@, trips),
        NormalizeEvent::Inspected(None) => success_moves(before, after) && !trips,
        _ => after == before && !trips,
    }
}

/// Whether the parts of a run fit together: the output stands beside the source from the second
/// pass until it is judged and, where it is kept, after; it takes the place of the source only
/// once it was found faithful, and where the source is not to be kept; where the source is used
/// there is no output.
pub open spec fn run_ok(
    keep_original: bool,
    step: NormalizeStep,
    output: OutputFile,
    faithful: bool,
) -> bool {
    match step {
        NormalizeStep::Transcode | NormalizeStep::Inspect => output is Beside,
        NormalizeStep::Commit => output is Beside && faithful && !keep_original,
        NormalizeStep::Finished(end) => match end {
            NormalizationOutcome::Original { .. } => output is Absent,
            NormalizationOutcome::Normalized { form, .. } => faithful && match form {
                NormalizedForm::ReplacedOriginal => !keep_original && output is Replaced,
                NormalizedForm::Artifact => keep_original && output is Beside,
            },
        },
        _ => output is Absent,
    }
}

impl NormalizationRun {
    /// What the run does next.
    pub closed spec fn at(&self) -> NormalizeStep {
        self.step
    }

    /// Whether the source is to be kept.
    pub closed spec fn keeps_original(&self) -> bool {
        self.keep_original
    }

    /// Whether the first pass found the timestamps of the source in order.
    pub closed spec fn timestamps_clean(&self) -> bool {
        self.clean
    }

    /// Where the output stands.
    pub closed spec fn output_file(&self) -> OutputFile {
        self.output
    }

    /// Whether the output was judged and found faithful.
    pub closed spec fn found_faithful(&self) -> bool {
        self.faithful@
    }

    /// Whether the parts of the run fit together.
    pub open spec fn fits_together(&self) -> bool {
        run_ok(self.keeps_original(), self.at(), self.output_file(), self.found_faithful())
    }

    #[verifier::type_invariant]
    spec fn ok(self) -> bool {
        run_ok(self.keep_original, self.step, self.output, self.faithful@)
    }

    /// Begins a normalization; one that has been switched off is over at once.
    pub fn begin(keep_original: bool, streak: &RejectionStreak) -> (run: NormalizationRun)
        ensures
            run.keeps_original() == keep_original,
            run.at() == (if streak.tripped {
                falls_back(OriginalReason::NormalizationDisabled)
            } else {
                NormalizeStep::Stat
            }),
            run.output_file() is Absent,
            !run.timestamps_clean(),
            !run.found_faithful(),
            run.fits_together(),
    {
        NormalizationRun {
            keep_original,
            step: if streak.tripped {
                NormalizeStep::Finished(
                    NormalizationOutcome::Original { reason: OriginalReason::NormalizationDisabled },
                )
            } else {
                NormalizeStep::Stat
            },
            clean: false,
            output: OutputFile::Absent,
            faithful: Ghost(false),
        }
    }

    /// What the run does next.
    pub fn step(&self) -> (step: NormalizeStep)
        ensures
            step == self.at(),
    {
        self.step
    }

    /// Takes note of what came of the step; an output is to be removed where `discard` says so,
    /// and `trips` tells whether normalization was just switched off.
    pub fn advance(&mut self, event: NormalizeEvent, streak: &mut RejectionStreak) -> (moved:
        RunMove)
        requires
            answers(old(self).at(), event),
            old(streak).count < u32::MAX,
        ensures
            final(self).fits_together(),
            final(self).keeps_original() == old(self).keeps_original(),
            final(self).timestamps_clean() == (match event {
                NormalizeEvent::Measured(found) => found == Some(Some(false)),
                _ => old(self).timestamps_clean(),
            }),
            final(self).at() == step_after(
                old(self).keeps_original(),
                event,
                old(self).timestamps_clean(),
            ),
            moved.discard == (old(self).output_file() is Beside && ends_with_source(
                final(self).at(),
            )),
            final(self).output_file() == (if moved.discard {
                OutputFile::Absent
            } else if final(self).at() is Transcode {
                OutputFile::Beside
            } else if event == NormalizeEvent::Committed(true) {
                OutputFile::Replaced
            } else {
                old(self).output_file()
            }),
            final(self).found_faithful() == (old(self).found_faithful() || event
                == NormalizeEvent::Inspected(None)),
            streak_moves(*old(streak), *final(streak), event, moved.trips),
    {
        proof {
            use_type_invariant(&*self);
        }
        let keep: bool = self.keep_original;
        let mut clean: bool = self.clean;
        let mut trips: bool = false;
        let mut output: OutputFile = self.output;
        let ghost faithful = self.faithful@ || event == NormalizeEvent::Inspected(None);
        let step: NormalizeStep = match event {
            NormalizeEvent::Size(size) => match size {
                Some(bytes) => if bytes > 0 {
                    NormalizeStep::Probe
                } else {
                    original(OriginalReason::MissingOrEmpty)
                },
                None => original(OriginalReason::MissingOrEmpty),
            },
            NormalizeEvent::Probed(found) => match found {
                None => original(OriginalReason::ProbeFailed),
                Some(has_audio) => if has_audio {
                    NormalizeStep::Admit
                } else {
                    original(OriginalReason::NoAudio)
                },
            },
            NormalizeEvent::Admitted(yes) => if yes {
                NormalizeStep::Measure
            } else {
                original(OriginalReason::DiskAdmissionDenied)
            },
            NormalizeEvent::Measured(found) => {
                clean =
                match found {
                    Some(diagnosis) => match diagnosis {
                        Some(anomaly) => !anomaly,
                        None => false,
                    },
                    None => false,
                };
                if found.is_some() {
                    NormalizeStep::ReadMeasurement
                } else {
                    original(OriginalReason::MeasureFailed)
                }
            },
            NormalizeEvent::MeasurementRead(usable) => if usable {
                output = OutputFile::Beside;
                NormalizeStep::Transcode
            } else {
                original(OriginalReason::InvalidMeasurement)
            },
            NormalizeEvent::Transcoded(result) => match result {
                TranscodeEvent::Done => NormalizeStep::Inspect,
                TranscodeEvent::Failed => original(OriginalReason::TranscodeFailed),
                TranscodeEvent::DiskPressure => original(OriginalReason::DiskPressureAborted),
            },
            NormalizeEvent::Inspected(rejection) => match rejection {
                Some(reason) => {
                    trips = streak.record_rejection(reason);
                    original(OriginalReason::InvalidOutput)
                },
                None => {
                    streak.record_success();
                    if keep {
                        NormalizeStep::Finished(
                            NormalizationOutcome::Normalized {
                                form: NormalizedForm::Artifact,
                                source_timestamps_clean: clean,
                            },
                        )
                    } else {
                        NormalizeStep::Commit
                    }
                },
            },
            NormalizeEvent::Committed(done) => if done {
                output = OutputFile::Replaced;
                NormalizeStep::Finished(
                    NormalizationOutcome::Normalized {
                        form: NormalizedForm::ReplacedOriginal,
                        source_timestamps_clean: clean,
                    },
                )
            } else {
                original(OriginalReason::TranscodeFailed)
            },
        };
        let source_used: bool = match step {
            NormalizeStep::Finished(end) => match end {
                NormalizationOutcome::Original { .. } => true,
                _ => false,
            },
            _ => false,
        };
        let beside: bool = match output {
            OutputFile::Beside => true,
            _ => false,
        };
        let discard: bool = beside && source_used;
        if discard {
            output = OutputFile::Absent;
        }
        *self = NormalizationRun {
            keep_original: keep,
            step,
            clean,
            output,
            faithful: Ghost(faithful),
        };
        RunMove { discard, trips }
    }
}

/// What a step of a run asks for besides the next step.
#[derive(Debug, Clone, Copy, PartialEq, Eq, Structural)]
pub struct RunMove {
    pub discard: bool,
    pub trips: bool,
}

fn original(reason: OriginalReason) -> (step: NormalizeStep)
    ensures
        step == falls_back(reason),
{
    NormalizeStep::Finished(NormalizationOutcome::Original { reason })
}

impl NormalizationOutcome {
    /// Which file is uploaded: the source, unless the output stands beside it.
    pub fn upload_path<'a>(&self, original: &'a str, artifact: &'a str) -> (path: &'a str)
        ensures
            path@ == (match *self {
                NormalizationOutcome::Normalized { form: NormalizedForm::Artifact, .. } => artifact@,
                _ => original@,
            }),
    {
        match self {
            NormalizationOutcome::Original { .. } => original,
            NormalizationOutcome::Normalized { form, .. } => match form {
                NormalizedForm::ReplacedOriginal => original,
                NormalizedForm::Artifact => artifact,
            },
        }
    }
}

/// A run that ends with the source leaves no output behind, and has not touched the source; one
/// that replaced the source did so only with an output that was found faithful.
pub proof fn law_the_source_survives_every_failure(run: NormalizationRun)
    requires
        run.fits_together(),
    ensures
        ends_with_source(run.at()) ==> run.output_file() is Absent,
        run.output_file() is Replaced ==> run.found_faithful() && !run.keeps_original(),
{
}

/// Once normalization has been switched off, nothing that a run does switches it on again.
pub proof fn law_switched_off_stays_off(
    before: RejectionStreak,
    after: RejectionStreak,
    event: NormalizeEvent,
    trips: bool,
)
    requires
        before.tripped,
        streak_moves(before, after, event, trips),
    ensures
        after.tripped,
        !trips,
{
}

/// Whether an output was rejected for `reason`.
pub open spec fn is_rejection(event: NormalizeEvent, reason: Seq<char>) -> bool {
    event matches NormalizeEvent::Inspected(Some(r)) && r@ == reason
}

/// Whether the `count` verdicts before the one at `end` all reject for `reason`.
pub open spec fn rejected_in_a_row(
    verdicts: Seq<NormalizeEvent>,
    end: int,
    count: int,
    reason: Seq<char>,
) -> bool {
    forall|k: int| end - count <= k < end ==> is_rejection(#[trigger] verdicts[k], reason)
}

/// Whether a run of rejections for `reason` that is long enough ends before the verdict at `end`.
pub open spec fn long_row(verdicts: Seq<NormalizeEvent>, end: int, reason: Seq<char>) -> bool {
    &&& end >= REJECTION_TRIP_THRESHOLD
    &&& rejected_in_a_row(verdicts, end, REJECTION_TRIP_THRESHOLD as int, reason)
}

/// Whether the streaks are those that the verdicts lead through, one after the other, from a
/// streak that is empty.
pub open spec fn streaks_follow(
    states: Seq<RejectionStreak>,
    verdicts: Seq<NormalizeEvent>,
    trips: Seq<bool>,
) -> bool {
    &&& states.len() == verdicts.len() + 1
    &&& trips.len() == verdicts.len()
    &&& states[0].reason is None && states[0].count == 0 && !states[0].tripped
    &&& forall|i: int|
        0 <= i < verdicts.len() ==> (#[trigger] verdicts[i]) is Inspected && streak_moves(
            states[i],
            states[i + 1],
            verdicts[i],
            trips[i],
        )
}

/// Whether a run of rejections for one reason that is long enough is among the first `n` verdicts.
pub open spec fn had_long_row(verdicts: Seq<NormalizeEvent>, n: int) -> bool {
    exists|m: int, r: Seq<char>| m <= n && #[trigger] long_row(verdicts, m, r)
}

/// Normalization is switched off by a run of rejections for one reason and by nothing else: it is
/// off exactly where such a run is among the verdicts so far, and the verdict that is told to
/// switch it off is the one that ends the first such run. A success or another reason in between
/// starts the count anew.
pub proof fn law_only_a_run_of_one_reason_trips(
    states: Seq<RejectionStreak>,
    verdicts: Seq<NormalizeEvent>,
    trips: Seq<bool>,
    n: int,
)
    requires
        streaks_follow(states, verdicts, trips),
        0 <= n <= verdicts.len(),
    ensures
        states[n].tripped <==> had_long_row(verdicts, n),
        n > 0 ==> (trips[n - 1] <==> !had_long_row(verdicts, n - 1) && exists|r: Seq<char>| #[trigger]
            long_row(verdicts, n, r)),
    decreases n,
{
    if n > 0 {
        law_only_a_run_of_one_reason_trips(states, verdicts, trips, n - 1);
        assert(verdicts[n - 1] is Inspected);
        if trips[n - 1] {
            lemma_the_count_is_earned(states, verdicts, trips, n);
            assert(long_row(verdicts, n, states[n].reason->0@));
        }
        assert forall|r: Seq<char>| #[trigger] long_row(verdicts, n, r) implies trips[n - 1]
            || states[n - 1].tripped by {
            assert(is_rejection(verdicts[n - 1], r));
            lemma_a_row_is_counted(
                states,
                verdicts,
                trips,
                n - 1,
                REJECTION_TRIP_THRESHOLD - 1,
                r,
            );
        }
    }
}

/// Rejections whose reasons change from one to the next never switch normalization off.
pub proof fn law_changing_reasons_never_trip(
    states: Seq<RejectionStreak>,
    verdicts: Seq<NormalizeEvent>,
    trips: Seq<bool>,
    n: int,
)
    requires
        streaks_follow(states, verdicts, trips),
        0 <= n <= verdicts.len(),
        forall|k: int, r: Seq<char>|
            1 <= k < verdicts.len() && #[trigger] is_rejection(verdicts[k], r) ==> !is_rejection(
                verdicts[k - 1],
                r,
            ),
    ensures
        !states[n].tripped,
        n > 0 ==> !trips[n - 1],
    decreases n,
{
    law_only_a_run_of_one_reason_trips(states, verdicts, trips, n);
    if n > 0 {
        law_changing_reasons_never_trip(states, verdicts, trips, n - 1);
        assert(verdicts[n - 1] is Inspected);
        assert forall|r: Seq<char>| !(#[trigger] long_row(verdicts, n, r)) by {
            if long_row(verdicts, n, r) {
                assert(is_rejection(verdicts[n - 1], r) && is_rejection(verdicts[n - 2], r));
            }
        }
    }
}

proof fn lemma_the_count_is_earned(
    states: Seq<RejectionStreak>,
    verdicts: Seq<NormalizeEvent>,
    trips: Seq<bool>,
    n: int,
)
    requires
        streaks_follow(states, verdicts, trips),
        0 <= n <= verdicts.len(),
    ensures
        states[n].count <= n,
        states[n].count > 0 ==> states[n].reason is Some && rejected_in_a_row(
            verdicts,
            n,
            states[n].count as int,
            states[n].reason->0@,
        ),
    decreases n,
{
    if n > 0 {
        lemma_the_count_is_earned(states, verdicts, trips, n - 1);
        assert(verdicts[n - 1] is Inspected);
    }
}

proof fn lemma_a_row_is_counted(
    states: Seq<RejectionStreak>,
    verdicts: Seq<NormalizeEvent>,
    trips: Seq<bool>,
    n: int,
    m: int,
    reason: Seq<char>,
)
    requires
        streaks_follow(states, verdicts, trips),
        1 <= m <= n <= verdicts.len(),
        rejected_in_a_row(verdicts, n, m, reason),
    ensures
        states[n].count >= m,
        same_reason(states[n], reason),
    decreases m,
{
    assert(is_rejection(verdicts[n - 1], reason));
    if m > 1 {
        lemma_a_row_is_counted(states, verdicts, trips, n - 1, m - 1, reason);
    }
}

} // verus!
