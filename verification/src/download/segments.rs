//! What happens to a finished segment: it is uploaded, kept for recovery or discarded.
use crate::segment_enrollment::{EnrollmentOutcome, SegmentEnrollment};
use crate::text::{first_chars, join, join_spec, take_chars, words, words_spec};
use crate::time::Span;
use std::collections::HashSet;
use vstd::prelude::*;
use vstd::std_specs::iter::IteratorSpec;
use vstd::string::*;

verus! {

/// How many segments wait for the uploader at most.
pub const UPLOAD_SEGMENT_QUEUE_CAPACITY: usize = 64;

/// The most characters of an error that a manifest keeps.
pub const MANIFEST_ERROR_CHARS: usize = 4096;

/// Why a file is no usable media file.
#[derive(Debug, PartialEq, Eq)]
pub enum InvalidMediaReason {
    Empty,
    HeaderOnly,
    UnsupportedFormat(String),
    MalformedContainer(String),
    NoMediaTrack,
    ProbeFailed(String),
}

/// What a look into a finished segment found.
#[derive(Debug)]
pub enum MediaValidation {
    Valid,
    RecoverableShort {
        duration: Option<Span>,
        first_media_timestamp_ms: Option<u32>,
        last_media_timestamp_ms: Option<u32>,
    },
    Invalid { reason: InvalidMediaReason },
}

/// Why a segment was closed.
#[derive(Debug, Clone, Copy, PartialEq, Eq, Structural)]
pub enum SegmentCloseReason {
    TimedSplit,
    SizeSplit,
    TransportError,
    Other,
}

/// A finished segment.
#[derive(Debug, PartialEq, Eq)]
pub struct SegmentInfo {
    pub prev_file_path: String,
    pub danmaku_file_path: Option<String>,
    pub next_file_path: Option<String>,
    pub segment_index: usize,
    pub close_reason: SegmentCloseReason,
    pub attempt_id: Option<String>,
    pub segment_id: Option<String>,
    pub recovery_source_paths: Vec<String>,
    pub enrollment: Option<SegmentEnrollment>,
}

/// The code of the reason in reports.
pub open spec fn invalid_code(reason: InvalidMediaReason) -> Seq<char> {
    match reason {
        InvalidMediaReason::Empty => "empty_file"@,
        InvalidMediaReason::HeaderOnly => "header_only"@,
        InvalidMediaReason::UnsupportedFormat(_) => "unsupported_format"@,
        InvalidMediaReason::MalformedContainer(_) => "malformed_container"@,
        InvalidMediaReason::NoMediaTrack => "no_media_track"@,
        InvalidMediaReason::ProbeFailed(_) => "probe_failed"@,
    }
}

/// The code of the reason in reports.
pub fn invalid_media_reason_code(reason: &InvalidMediaReason) -> (code: &'static str)
    ensures
        code@ == invalid_code(*reason),
{
    match reason {
        InvalidMediaReason::Empty => "empty_file",
        InvalidMediaReason::HeaderOnly => "header_only",
        InvalidMediaReason::UnsupportedFormat(_) => "unsupported_format",
        InvalidMediaReason::MalformedContainer(_) => "malformed_container",
        InvalidMediaReason::NoMediaTrack => "no_media_track",
        InvalidMediaReason::ProbeFailed(_) => "probe_failed",
    }
}

/// What was counted over the segments of a recording.
#[derive(Debug, Clone, Copy, PartialEq, Eq, Structural)]
pub struct SegmentProcessingStats {
    pub productive_segments: u64,
    pub valid_segments: u64,
    pub recoverable_short_segments: u64,
    pub recoverable_short_bytes: u64,
    pub merged_recovery_outputs: u64,
    pub deferred_recovery_batches: u64,
    pub invalid_segments: u64,
    pub segments_queued_for_upload: u64,
    pub upload_queue_peak_depth: usize,
}

/// No segment counted yet.
pub open spec fn no_stats() -> SegmentProcessingStats {
    SegmentProcessingStats {
        productive_segments: 0,
        valid_segments: 0,
        recoverable_short_segments: 0,
        recoverable_short_bytes: 0,
        merged_recovery_outputs: 0,
        deferred_recovery_batches: 0,
        invalid_segments: 0,
        segments_queued_for_upload: 0,
        upload_queue_peak_depth: 0,
    }
}

/// The sum of two counts, cut off at `u64::MAX`.
pub open spec fn capped_sum(a: u64, b: u64) -> u64 {
    if a + b <= u64::MAX {
        (a + b) as u64
    } else {
        u64::MAX
    }
}

/// The counts with one more look into a segment: all but invalid ones are productive.
pub open spec fn validated(
    stats: SegmentProcessingStats,
    validation: MediaValidation,
) -> SegmentProcessingStats {
    if validation is Invalid {
        stats
    } else {
        SegmentProcessingStats {
            productive_segments: capped_sum(stats.productive_segments, 1),
            ..stats
        }
    }
}

impl Default for SegmentProcessingStats {
    fn default() -> (stats: SegmentProcessingStats)
        ensures
            stats == no_stats(),
    {
        SegmentProcessingStats {
            productive_segments: 0,
            valid_segments: 0,
            recoverable_short_segments: 0,
            recoverable_short_bytes: 0,
            merged_recovery_outputs: 0,
            deferred_recovery_batches: 0,
            invalid_segments: 0,
            segments_queued_for_upload: 0,
            upload_queue_peak_depth: 0,
        }
    }
}

impl SegmentProcessingStats {
    /// Counts a look into a segment.
    pub fn record_validation(&mut self, validation: &MediaValidation)
        ensures
            *final(self) == validated(*old(self), *validation),
    {
        let productive: bool = match validation {
            MediaValidation::Invalid { .. } => false,
            _ => true,
        };
        if productive {
            self.productive_segments = self.productive_segments.saturating_add(1);
        }
    }
}

/// What is to be done with a finished segment.
#[derive(Debug)]
pub enum SegmentAction {
    /// First recover the short segments that wait, then upload this one.
    FlushThenEnqueue { segment: SegmentInfo },
    /// The segment waits for recovery.
    Kept,
    /// The file is removed; `reason_code` is reported. `short` tells that the media was only too
    /// short.
    Remove { segment: SegmentInfo, reason_code: &'static str, short: bool },
}

/// The segments of a recording that is under way.
pub struct SegmentEventProcessor {
    pub preserve_recoverable_short_segments: bool,
    pub recovery_batch_max_files: usize,
    pub recovery_retry_interval: Span,
    pub filtering_threshold_bytes: u64,
    pub pending_short_segments: Vec<SegmentInfo>,
    pub enrolled_session_ids: HashSet<i64>,
    pub stats: SegmentProcessingStats,
}

/// Whether everything but the pending segments, the sessions and the counts is the same.
pub open spec fn same_limits(a: SegmentEventProcessor, b: SegmentEventProcessor) -> bool {
    &&& a.preserve_recoverable_short_segments == b.preserve_recoverable_short_segments
    &&& a.recovery_batch_max_files == b.recovery_batch_max_files
    &&& a.recovery_retry_interval == b.recovery_retry_interval
    &&& a.filtering_threshold_bytes == b.filtering_threshold_bytes
}

/// The counts after `segment` was looked into.
pub open spec fn processed_stats(
    p: SegmentEventProcessor,
    validation: MediaValidation,
    file_bytes: u64,
) -> SegmentProcessingStats {
    let seen = validated(p.stats, validation);
    match validation {
        MediaValidation::Valid => SegmentProcessingStats {
            valid_segments: (seen.valid_segments + 1) as u64,
            ..seen
        },
        MediaValidation::RecoverableShort { .. } => if p.preserve_recoverable_short_segments {
            SegmentProcessingStats {
                recoverable_short_segments: (seen.recoverable_short_segments + 1) as u64,
                recoverable_short_bytes: capped_sum(seen.recoverable_short_bytes, file_bytes),
                ..seen
            }
        } else {
            seen
        },
        MediaValidation::Invalid { .. } => SegmentProcessingStats {
            invalid_segments: (seen.invalid_segments + 1) as u64,
            ..seen
        },
    }
}

impl SegmentEventProcessor {
    /// A processor for a recording whose settings are given: sizes below `filtering_threshold`
    /// megabytes count as short, and short segments are joined in batches of
    /// `recovery_batch_max_files`.
    pub fn new(
        filtering_threshold: u64,
        preserve_recoverable_short_segments: bool,
        recovery_batch_max_files: usize,
        recovery_retry_interval_secs: u64,
    ) -> (processor: SegmentEventProcessor)
        requires
            filtering_threshold * 1_000_000 <= u64::MAX,
        ensures
            processor.filtering_threshold_bytes == filtering_threshold * 1_000_000,
            processor.preserve_recoverable_short_segments == preserve_recoverable_short_segments,
            processor.recovery_batch_max_files == (if recovery_batch_max_files >= 1 {
                recovery_batch_max_files
            } else {
                1
            }),
            processor.recovery_retry_interval@ == recovery_retry_interval_secs
                * crate::time::NANOS_PER_SEC,
            processor.pending_short_segments@ == Seq::<SegmentInfo>::empty(),
            processor.enrolled_session_ids@ == Set::<i64>::empty(),
            processor.stats == no_stats(),
    {
        SegmentEventProcessor {
            preserve_recoverable_short_segments,
            recovery_batch_max_files: if recovery_batch_max_files >= 1 {
                recovery_batch_max_files
            } else {
                1
            },
            recovery_retry_interval: Span::from_secs(recovery_retry_interval_secs),
            filtering_threshold_bytes: filtering_threshold * 1000 * 1000,
            pending_short_segments: Vec::new(),
            enrolled_session_ids: HashSet::new(),
            stats: SegmentProcessingStats::default(),
        }
    }

    /// Decides on a finished segment of `file_bytes` bytes that was looked into. Only invalid
    /// media, and short media where it is not kept, is removed.
    pub fn process(
        &mut self,
        segment: SegmentInfo,
        validation: MediaValidation,
        file_bytes: u64,
    ) -> (action: SegmentAction)
        requires
            old(self).stats.valid_segments < u64::MAX,
            old(self).stats.recoverable_short_segments < u64::MAX,
            old(self).stats.invalid_segments < u64::MAX,
        ensures
            same_limits(*old(self), *final(self)),
            final(self).enrolled_session_ids == old(self).enrolled_session_ids,
            final(self).stats == processed_stats(*old(self), validation, file_bytes),
            match validation {
                MediaValidation::Valid => {
                    &&& action == (SegmentAction::FlushThenEnqueue { segment })
                    &&& final(self).pending_short_segments == old(self).pending_short_segments
                },
                MediaValidation::RecoverableShort {
                    ..
                } => if old(self).preserve_recoverable_short_segments {
                    &&& action is Kept
                    &&& final(self).pending_short_segments@ == old(
                        self,
                    ).pending_short_segments@.push(segment)
                } else {
                    &&& action matches SegmentAction::Remove { segment: s, reason_code, short }
                        && s == segment && reason_code@ == "below_filtering_threshold"@ && short
                    &&& final(self).pending_short_segments == old(self).pending_short_segments
                },
                MediaValidation::Invalid { reason } => {
                    &&& action matches SegmentAction::Remove { segment: s, reason_code, short }
                        && s == segment && reason_code@ == invalid_code(reason) && !short
                    &&& final(self).pending_short_segments == old(self).pending_short_segments
                },
            },
    {
        self.stats.record_validation(&validation);
        match validation {
            MediaValidation::Valid => {
                self.stats.valid_segments = self.stats.valid_segments + 1;
                SegmentAction::FlushThenEnqueue { segment }
            },
            MediaValidation::RecoverableShort { .. } => {
                if self.preserve_recoverable_short_segments {
                    self.stats.recoverable_short_segments = self.stats.recoverable_short_segments
                        + 1;
                    self.stats.recoverable_short_bytes =
                    self.stats.recoverable_short_bytes.saturating_add(file_bytes);
                    self.pending_short_segments.push(segment);
                    SegmentAction::Kept
                } else {
                    SegmentAction::Remove {
                        segment,
                        reason_code: "below_filtering_threshold",
                        short: true,
                    }
                }
            },
            MediaValidation::Invalid { reason } => {
                self.stats.invalid_segments = self.stats.invalid_segments + 1;
                SegmentAction::Remove {
                    segment,
                    reason_code: invalid_media_reason_code(&reason),
                    short: false,
                }
            },
        }
    }

    /// Takes the segments that wait for recovery.
    pub fn take_pending(&mut self) -> (pending: Vec<SegmentInfo>)
        ensures
            pending@ == old(self).pending_short_segments@,
            final(self).pending_short_segments@ == Seq::<SegmentInfo>::empty(),
            same_limits(*old(self), *final(self)),
            final(self).enrolled_session_ids == old(self).enrolled_session_ids,
            final(self).stats == old(self).stats,
    {
        let mut pending: Vec<SegmentInfo> = Vec::new();
        std::mem::swap(&mut pending, &mut self.pending_short_segments);
        pending
    }

    /// Counts a batch of short segments that was joined into one file.
    pub fn record_merged(&mut self)
        requires
            old(self).stats.merged_recovery_outputs < u64::MAX,
        ensures
            same_limits(*old(self), *final(self)),
            final(self).pending_short_segments == old(self).pending_short_segments,
            final(self).enrolled_session_ids == old(self).enrolled_session_ids,
            final(self).stats == (SegmentProcessingStats {
                merged_recovery_outputs: (old(self).stats.merged_recovery_outputs + 1) as u64,
                ..old(self).stats
            }),
    {
        self.stats.merged_recovery_outputs = self.stats.merged_recovery_outputs + 1;
    }

    /// Counts a batch of segments that was put off.
    pub fn record_deferred(&mut self)
        requires
            old(self).stats.deferred_recovery_batches < u64::MAX,
        ensures
            same_limits(*old(self), *final(self)),
            final(self).pending_short_segments == old(self).pending_short_segments,
            final(self).enrolled_session_ids == old(self).enrolled_session_ids,
            final(self).stats == (SegmentProcessingStats {
                deferred_recovery_batches: (old(self).stats.deferred_recovery_batches + 1) as u64,
                ..old(self).stats
            }),
    {
        self.stats.deferred_recovery_batches = self.stats.deferred_recovery_batches + 1;
    }

    fn note_session(&mut self, id: i64)
        ensures
            same_limits(*old(self), *final(self)),
            final(self).pending_short_segments == old(self).pending_short_segments,
            final(self).stats == old(self).stats,
            final(self).enrolled_session_ids@ == old(self).enrolled_session_ids@.insert(id),
    {
        broadcast use vstd::std_specs::hash::group_hash_axioms;

        let _ = self.enrolled_session_ids.insert(id);
    }

    /// What follows the enrollment of a validated segment: an enrolled one that was not known
    /// before goes to the upload queue and its session is remembered; any other stays where it
    /// is.
    pub fn after_enrollment(&mut self, outcome: EnrollmentOutcome) -> (next: AfterEnrollment)
        ensures
            same_limits(*old(self), *final(self)),
            final(self).pending_short_segments == old(self).pending_short_segments,
            final(self).stats == old(self).stats,
            match outcome {
                EnrollmentOutcome::Enrolled(enrollment) => {
                    &&& final(self).enrolled_session_ids@ == old(
                        self,
                    ).enrolled_session_ids@.insert(enrollment.upload_session_id)
                    &&& next.outcome@ == "executed"@
                    &&& next.reason_code@ == (if enrollment.duplicate {
                        "already_enrolled"@
                    } else {
                        "enrolled"@
                    })
                    &&& next.session_id == Some(enrollment.upload_session_id)
                    &&& next.missing_id == Some(enrollment.missing_id)
                    &&& next.segment_order == Some(enrollment.segment_order)
                    &&& next.enqueue == (if enrollment.duplicate {
                        None
                    } else {
                        Some(enrollment)
                    })
                },
                EnrollmentOutcome::Outboxed(_) => {
                    &&& final(self).enrolled_session_ids == old(self).enrolled_session_ids
                    &&& next.outcome@ == "waiting"@
                    &&& next.reason_code@ == "outboxed"@
                    &&& next.session_id is None
                    &&& next.missing_id is None
                    &&& next.segment_order is None
                    &&& next.enqueue is None
                },
                EnrollmentOutcome::FinalizedRejected { session_id } => {
                    &&& final(self).enrolled_session_ids == old(self).enrolled_session_ids
                    &&& next.outcome@ == "skipped"@
                    &&& next.reason_code@ == "session_finalized"@
                    &&& next.session_id == Some(session_id)
                    &&& next.missing_id is None
                    &&& next.segment_order is None
                    &&& next.enqueue is None
                },
                EnrollmentOutcome::SourceMissing => {
                    &&& final(self).enrolled_session_ids == old(self).enrolled_session_ids
                    &&& next.outcome@ == "failed"@
                    &&& next.reason_code@ == "source_missing"@
                    &&& next.session_id is None
                    &&& next.missing_id is None
                    &&& next.segment_order is None
                    &&& next.enqueue is None
                },
            },
    {
        match outcome {
            EnrollmentOutcome::Enrolled(enrollment) => {
                self.note_session(enrollment.upload_session_id);
                AfterEnrollment {
                    outcome: "executed",
                    reason_code: if enrollment.duplicate {
                        "already_enrolled"
                    } else {
                        "enrolled"
                    },
                    session_id: Some(enrollment.upload_session_id),
                    missing_id: Some(enrollment.missing_id),
                    segment_order: Some(enrollment.segment_order),
                    enqueue: if enrollment.duplicate {
                        None
                    } else {
                        Some(enrollment)
                    },
                }
            },
            EnrollmentOutcome::Outboxed(_) => AfterEnrollment {
                outcome: "waiting",
                reason_code: "outboxed",
                session_id: None,
                missing_id: None,
                segment_order: None,
                enqueue: None,
            },
            EnrollmentOutcome::FinalizedRejected { session_id } => AfterEnrollment {
                outcome: "skipped",
                reason_code: "session_finalized",
                session_id: Some(session_id),
                missing_id: None,
                segment_order: None,
                enqueue: None,
            },
            EnrollmentOutcome::SourceMissing => AfterEnrollment {
                outcome: "failed",
                reason_code: "source_missing",
                session_id: None,
                missing_id: None,
                segment_order: None,
                enqueue: None,
            },
        }
    }

    /// Counts a segment that was handed to the uploader, whose queue then held `depth` segments.
    pub fn record_queued(&mut self, depth: usize)
        requires
            old(self).stats.segments_queued_for_upload < u64::MAX,
        ensures
            same_limits(*old(self), *final(self)),
            final(self).pending_short_segments == old(self).pending_short_segments,
            final(self).enrolled_session_ids == old(self).enrolled_session_ids,
            final(self).stats == (SegmentProcessingStats {
                segments_queued_for_upload: (old(self).stats.segments_queued_for_upload + 1) as u64,
                upload_queue_peak_depth: if depth > old(self).stats.upload_queue_peak_depth {
                    depth
                } else {
                    old(self).stats.upload_queue_peak_depth
                },
                ..old(self).stats
            }),
    {
        self.stats.segments_queued_for_upload = self.stats.segments_queued_for_upload + 1;
        if depth > self.stats.upload_queue_peak_depth {
            self.stats.upload_queue_peak_depth = depth;
        }
    }

    /// Records that the uploader took no segment. Whether the segment needs a recovery manifest:
    /// one with an enrollment is kept by its row in the database.
    pub fn defer_for_backpressure(&mut self, segment: &SegmentInfo) -> (needs_manifest: bool)
        ensures
            same_limits(*old(self), *final(self)),
            final(self).pending_short_segments == old(self).pending_short_segments,
            final(self).enrolled_session_ids == old(self).enrolled_session_ids,
            final(self).stats == (SegmentProcessingStats {
                upload_queue_peak_depth: if UPLOAD_SEGMENT_QUEUE_CAPACITY > old(
                    self,
                ).stats.upload_queue_peak_depth {
                    UPLOAD_SEGMENT_QUEUE_CAPACITY
                } else {
                    old(self).stats.upload_queue_peak_depth
                },
                ..old(self).stats
            }),
            needs_manifest == (segment.enrollment is None),
    {
        if UPLOAD_SEGMENT_QUEUE_CAPACITY > self.stats.upload_queue_peak_depth {
            self.stats.upload_queue_peak_depth = UPLOAD_SEGMENT_QUEUE_CAPACITY;
        }
        segment.enrollment.is_none()
    }
}

/// What is reported of an enrollment, and the enrollment with which the segment goes to the
/// upload queue, if it does.
#[derive(Debug)]
pub struct AfterEnrollment {
    pub outcome: &'static str,
    pub reason_code: &'static str,
    pub session_id: Option<i64>,
    pub missing_id: Option<i64>,
    pub segment_order: Option<i64>,
    pub enqueue: Option<SegmentEnrollment>,
}

/// Whether the queue to the uploader is there.
#[derive(Debug, Clone, Copy, PartialEq, Eq, Structural)]
pub enum QueueState {
    Missing,
    Closed,
    Open,
}

/// What handing a segment to the uploader needs next.
#[derive(Debug, Clone, Copy, PartialEq, Eq, Structural)]
pub enum EnqueueStep {
    /// Open a queue and offer it to the uploader.
    OpenQueue,
    /// Put the segment into the queue.
    Send,
    /// The segment is in the queue.
    Queued,
    /// The segment is put off, for the reason.
    Defer(DeferReason),
}

/// Why a segment was put off.
#[derive(Debug, Clone, Copy, PartialEq, Eq, Structural)]
pub enum DeferReason {
    UploaderUnavailable,
    NewQueueUnavailable,
    QueueFull,
}

impl DeferReason {
    /// The reason in words.
    pub fn text(&self) -> (text: &'static str)
        ensures
            text@ == (match *self {
                DeferReason::UploaderUnavailable => "upload actor queue unavailable"@,
                DeferReason::NewQueueUnavailable => "new upload segment queue unavailable"@,
                DeferReason::QueueFull =>
                    "upload segment queue full during rate-limit/backlog window"@,
            }),
    {
        match self {
            DeferReason::UploaderUnavailable => "upload actor queue unavailable",
            DeferReason::NewQueueUnavailable => "new upload segment queue unavailable",
            DeferReason::QueueFull => "upload segment queue full during rate-limit/backlog window",
        }
    }
}

/// The first step of handing over a segment: a queue that the uploader closed is replaced.
pub fn begin_enqueue(queue: QueueState) -> (step: EnqueueStep)
    ensures
        step == (if queue is Open {
            EnqueueStep::Send
        } else {
            EnqueueStep::OpenQueue
        }),
{
    match queue {
        QueueState::Open => EnqueueStep::Send,
        _ => EnqueueStep::OpenQueue,
    }
}

/// The step after a new queue was offered to the uploader.
pub fn after_offer(accepted: bool) -> (step: EnqueueStep)
    ensures
        step == (if accepted {
            EnqueueStep::Send
        } else {
            EnqueueStep::Defer(DeferReason::UploaderUnavailable)
        }),
{
    if accepted {
        EnqueueStep::Send
    } else {
        EnqueueStep::Defer(DeferReason::UploaderUnavailable)
    }
}

/// The step after the segment was put into the queue, or was not.
pub fn after_send(accepted: bool, new_queue: bool) -> (step: EnqueueStep)
    ensures
        step == (if accepted {
            EnqueueStep::Queued
        } else if new_queue {
            EnqueueStep::Defer(DeferReason::NewQueueUnavailable)
        } else {
            EnqueueStep::Defer(DeferReason::QueueFull)
        }),
{
    if accepted {
        EnqueueStep::Queued
    } else if new_queue {
        EnqueueStep::Defer(DeferReason::NewQueueUnavailable)
    } else {
        EnqueueStep::Defer(DeferReason::QueueFull)
    }
}

/// The text with its white space reduced to single blanks, cut off after `max_chars` characters.
pub fn bounded_diagnostic(value: &str, max_chars: usize) -> (text: String)
    ensures
        text@ == first_chars(join_spec(words_spec(value@), " "@), max_chars as int),
{
    let pieces: Vec<String> = words(value);
    let joined: String = join(&pieces, " ");
    take_chars(joined.as_str(), max_chars)
}

/// Whether the ids rise from one to the next.
pub open spec fn is_rising(ids: Seq<i64>) -> bool {
    forall|i: int, j: int| 0 <= i < j < ids.len() ==> #[trigger] ids[i] < #[trigger] ids[j]
}

/// Whether `id` is among the first `n` of the ids that were walked through.
spec fn met(walked: Seq<&i64>, n: int, id: i64) -> bool {
    exists|k: int| 0 <= k < n && *(#[trigger] walked[k]) == id
}

/// The sessions of a recording in the order in which their submission is asked for: by id.
pub fn closing_order(ids: &HashSet<i64>) -> (sorted: Vec<i64>)
    ensures
        is_rising(sorted@),
        sorted@.to_set() == ids@,
{
    broadcast use vstd::std_specs::hash::group_hash_axioms;

    let mut sorted: Vec<i64> = Vec::new();
    let ghost walked: Seq<&i64> = IteratorSpec::remaining(&ids.iter());
    for id in it: ids.iter()
        invariant
            is_rising(sorted@),
            it.seq() == walked,
            walked.no_duplicates(),
            forall|x: i64| #[trigger] sorted@.contains(x) <==> met(walked, it.index(), x),
    {
        let ghost before = sorted@;
        let ghost n = it.index();
        assert(!before.contains(*id)) by {
            if before.contains(*id) {
                let k = choose|k: int| 0 <= k < n && *(#[trigger] walked[k]) == *id;
                assert(walked[k] == walked[n]);
            }
        }
        let mut at: usize = 0;
        while at < sorted.len() && sorted[at] < *id
            invariant
                at <= sorted.len(),
                forall|k: int| 0 <= k < at ==> sorted@[k] < *id,
            decreases sorted.len() - at,
        {
            at = at + 1;
        }
        sorted.insert(at, *id);
        proof {
            lemma_put_in_order(before, at as int, *id);
            assert(*walked[n] == *id);
            assert forall|x: i64| #[trigger] sorted@.contains(x) <==> met(walked, n + 1, x) by {
                if met(walked, n + 1, x) && x != *id {
                    let k = choose|k: int| 0 <= k < n + 1 && *(#[trigger] walked[k]) == x;
                    assert(met(walked, n, x));
                }
                if met(walked, n, x) {
                    let k = choose|k: int| 0 <= k < n && *(#[trigger] walked[k]) == x;
                    assert(met(walked, n + 1, x));
                }
            }
        }
    }
    proof {
        assert forall|x: i64| sorted@.to_set().contains(x) == ids@.contains(x) by {
            assert(ids@.contains(x) == walked.unref().to_set().contains(x));
            if walked.unref().contains(x) {
                let k = choose|k: int| 0 <= k < walked.len() && walked.unref()[k] == x;
                assert(*walked[k] == x);
            }
            if met(walked, walked.len() as int, x) {
                let k = choose|k: int| 0 <= k < walked.len() && *(#[trigger] walked[k]) == x;
                assert(walked.unref()[k] == x);
            }
            assert(sorted@.contains(x) == met(walked, walked.len() as int, x));
        }
        assert(sorted@.to_set() =~= ids@);
    }
    sorted
}

/// An id that is put before the first one that is not smaller keeps a list rising.
proof fn lemma_put_in_order(before: Seq<i64>, at: int, id: i64)
    requires
        is_rising(before),
        !before.contains(id),
        0 <= at <= before.len(),
        forall|k: int| 0 <= k < at ==> before[k] < id,
        at < before.len() ==> before[at] >= id,
    ensures
        is_rising(before.insert(at, id)),
        forall|x: i64| #[trigger]
            before.insert(at, id).contains(x) <==> x == id || before.contains(x),
{
    let after = before.insert(at, id);
    assert forall|a: int, b: int| 0 <= a < b < after.len() implies (#[trigger] after[a]) < (
    #[trigger] after[b]) by {
        if a < at {
            assert(after[a] == before[a]);
        } else if a > at {
            assert(after[a] == before[a - 1]);
        }
        if b < at {
            assert(after[b] == before[b]);
        } else if b > at {
            assert(after[b] == before[b - 1]);
        }
        if at < before.len() {
            assert(before.contains(before[at]));
        }
    }
    assert(after[at] == id);
    assert forall|x: i64| before.contains(x) implies #[trigger] after.contains(x) by {
        let k = choose|k: int| 0 <= k < before.len() && before[k] == x;
        assert(after[if k < at {
            k
        } else {
            k + 1
        }] == x);
    }
    assert forall|x: i64| #[trigger] after.contains(x) implies x == id || before.contains(x) by {
        let k = choose|k: int| 0 <= k < after.len() && after[k] == x;
        if k < at {
            assert(before[k] == x);
        } else if k > at {
            assert(before[k - 1] == x);
        }
    }
}

} // verus!
