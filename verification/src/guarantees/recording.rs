//! How a recording goes on from round to round, and what is counted of its segments.
use crate::download::retry::{
    absent_since, doubled_delay, grace_over, unavailable, OfflineRetryState,
};
use crate::download::segments::{
    capped_sum, invalid_code, processed_stats, validated, InvalidMediaReason, MediaValidation,
    SegmentEventProcessor, SegmentProcessingStats,
};
use crate::download::session::{
    absent_round, failover_wanted, failure_count_after, live_round, whole_millis, DownloadAttempt,
    RecordingSession, RoundEnd, StopReason,
};
use crate::route_health::{LiveStream, RouteSelection, UpdateView};
use crate::time::{Span, Timestamp};
use vstd::prelude::*;

verus! {

/// The wait doubles with every failure: two seconds, four, eight, sixteen, and half a minute from
/// there on.
pub proof fn law_waits_double_up_to_half_a_minute(times: int)
    ensures
        doubled_delay(0) == 2 * 1_000_000_000,
        doubled_delay(1) == 4 * 1_000_000_000,
        doubled_delay(2) == 8 * 1_000_000_000,
        doubled_delay(3) == 16 * 1_000_000_000,
        times >= 4 ==> doubled_delay(times) == 30 * 1_000_000_000,
{
    vstd::arithmetic::power2::lemma2_to64();
}

/// A stream that is not live is given up once it has been away for the grace, counted from the
/// first check that missed it; until then it is checked again, each time after a longer wait. Of
/// the recording nothing changes.
pub proof fn law_an_absent_stream_has_its_grace(
    before: RecordingSession,
    after: RecordingSession,
    now: Timestamp,
    reason: StopReason,
    end: RoundEnd,
)
    requires
        absent_round(before, after, now, reason, end),
        before.offline_retry.offline_retry_count < u32::MAX,
        before.grace@ >= 0,
    ensures
        ({
            let since = match before.offline_retry.offline_since {
                Some(at) => at@,
                None => now@,
            };
            let missed = before.offline_retry.offline_retry_count;
            &&& before.offline_retry.offline_since is None ==> after.offline_retry.offline_since
                == Some(now)
            &&& before.offline_retry.offline_since is Some ==> after.offline_retry.offline_since
                == before.offline_retry.offline_since
            &&& after.offline_retry.offline_retry_count == missed + 1
            &&& now@ - since >= before.grace@ || before.grace@ == 0 ==> end == (RoundEnd::Stop {
                reason,
            })
            &&& now@ - since < before.grace@ && before.grace@ > 0 ==> (end matches
                RoundEnd::WaitOffline { backoff } && (missed == 0 ==> backoff@ == 4
                * 1_000_000_000) && (missed == 1 ==> backoff@ == 8 * 1_000_000_000) && (missed == 2
                ==> backoff@ == 16 * 1_000_000_000) && (missed >= 3 ==> backoff@ == 30
                * 1_000_000_000))
            &&& after.stream == before.stream
            &&& after.can_download == before.can_download
            &&& after.route_health == before.route_health
            &&& after.route_failure_count == before.route_failure_count
            &&& after.stream_gap_count == before.stream_gap_count
            &&& after.estimated_missing == before.estimated_missing
            &&& after.pending_reconnect == before.pending_reconnect
            &&& after.grace == before.grace
            &&& after.route_health_enabled == before.route_health_enabled
            &&& after.failover_enabled == before.failover_enabled
        }),
{
    law_waits_double_up_to_half_a_minute(after.offline_retry.offline_retry_count as int);
}

/// How long a recording waits before it connects again: not at all where it changes its route;
/// where no route is free, until one is, but half a minute at most; otherwise two seconds, which
/// double with every failure of the route in a row where health is watched.
pub proof fn law_how_long_a_live_stream_waits(
    before: RecordingSession,
    after: RecordingSession,
    attempt: Option<DownloadAttempt>,
    found: LiveStream,
    check_elapsed: Span,
    observed_at: Timestamp,
    selected_at: Timestamp,
    end: RoundEnd,
)
    requires
        live_round(
            before,
            after,
            attempt,
            found,
            check_elapsed,
            observed_at,
            selected_at,
            end,
        ),
    ensures
        end matches RoundEnd::Continue { live, backoff } && {
            let failures = after.route_failure_count;
            &&& live.selection matches RouteSelection::Selected { changed, .. } ==> {
                &&& after.can_download
                &&& changed ==> backoff@ == 0
                &&& !changed && !before.route_health_enabled ==> backoff@ == 2 * 1_000_000_000
                &&& !changed && before.route_health_enabled ==> {
                    &&& failures <= 1 ==> backoff@ == 2 * 1_000_000_000
                    &&& failures == 2 ==> backoff@ == 4 * 1_000_000_000
                    &&& failures == 3 ==> backoff@ == 8 * 1_000_000_000
                    &&& failures == 4 ==> backoff@ == 16 * 1_000_000_000
                    &&& failures >= 5 ==> backoff@ == 30 * 1_000_000_000
                }
            }
            &&& live.selection matches RouteSelection::Unavailable { retry_after } ==> {
                &&& !after.can_download
                &&& retry_after@ <= 30 * 1_000_000_000 ==> backoff@ == retry_after@
                &&& retry_after@ > 30 * 1_000_000_000 ==> backoff@ == 30 * 1_000_000_000
            }
            &&& after.offline_retry.offline_since is None
            &&& after.offline_retry.offline_retry_count == 0
            &&& after.grace == before.grace
            &&& after.route_health_enabled == before.route_health_enabled
            &&& after.failover_enabled == before.failover_enabled
        },
{
    law_waits_double_up_to_half_a_minute(after.route_failure_count - 1);
}

/// A connection that broke, or for which no route was left, leaves a gap, and nothing else does.
/// The gap lasts from the last byte that came, where that was measured, over the check to the
/// end of the wait; it is counted, added to what is missing, and handed to the next connection in
/// whole milliseconds.
pub proof fn law_gaps_are_measured_and_counted(
    before: RecordingSession,
    after: RecordingSession,
    attempt: Option<DownloadAttempt>,
    found: LiveStream,
    check_elapsed: Span,
    observed_at: Timestamp,
    selected_at: Timestamp,
    end: RoundEnd,
)
    requires
        live_round(
            before,
            after,
            attempt,
            found,
            check_elapsed,
            observed_at,
            selected_at,
            end,
        ),
        before.stream_gap_count < u32::MAX,
    ensures
        end matches RoundEnd::Continue { live, backoff } && {
            let broke = attempt is Some && (attempt->0.status is None
                || attempt->0.transport_failure);
            let silence = if attempt is Some && attempt->0.silent_for is Some {
                attempt->0.silent_for->0@
            } else {
                0
            };
            &&& live.gap is Some <==> broke || live.selection is Unavailable
            &&& live.gap is Some && silence + check_elapsed@ + backoff@ <= u64::MAX * 1_000_000_000
                && silence >= 0 && check_elapsed@ >= 0 && backoff@ >= 0 ==> {
                &&& live.gap->0.silent@ == silence
                &&& live.gap->0.detect_to_retry@ == check_elapsed@ + backoff@
                &&& live.gap->0.total@ == silence + check_elapsed@ + backoff@
            }
            &&& live.gap is Some ==> {
                &&& after.stream_gap_count == before.stream_gap_count + 1
                &&& before.estimated_missing@ + live.gap->0.total@ <= u64::MAX * 1_000_000_000
                    ==> after.estimated_missing@ == before.estimated_missing@ + live.gap->0.total@
                &&& after.pending_reconnect is Some
                &&& after.pending_reconnect->0.silent_measured == (attempt is Some
                    && attempt->0.silent_for is Some)
                &&& after.pending_reconnect->0.gap_ms == whole_millis(live.gap->0.total@) as u64
                &&& after.pending_reconnect->0.silent_ms == whole_millis(live.gap->0.silent@) as u64
            }
            &&& live.gap is None ==> {
                &&& after.stream_gap_count == before.stream_gap_count
                &&& after.estimated_missing == before.estimated_missing
                &&& after.pending_reconnect == before.pending_reconnect
            }
        },
{
}

/// Milliseconds are whole and never more than have passed.
pub proof fn law_milliseconds_are_whole(nanos: int)
    requires
        0 <= nanos <= u64::MAX * 1_000_000,
    ensures
        whole_millis(nanos) * 1_000_000 <= nanos < (whole_millis(nanos) + 1) * 1_000_000,
{
    vstd::arithmetic::div_mod::lemma_fundamental_div_mod(nanos, 1_000_000);
    vstd::arithmetic::div_mod::lemma_mod_bound(nanos, 1_000_000);
}

/// A user is told of a failing route only where routes are changed, and of a changed quality only
/// on the one platform, where the new one is known; failures in a row follow the route.
pub proof fn law_what_a_round_tells(
    before: RecordingSession,
    after: RecordingSession,
    attempt: Option<DownloadAttempt>,
    found: LiveStream,
    check_elapsed: Span,
    observed_at: Timestamp,
    selected_at: Timestamp,
    end: RoundEnd,
)
    requires
        live_round(
            before,
            after,
            attempt,
            found,
            check_elapsed,
            observed_at,
            selected_at,
            end,
        ),
    ensures
        end matches RoundEnd::Continue { live, backoff } && {
            &&& !before.failover_enabled ==> !live.route_alert
            &&& live.update@ matches UpdateView::Failure { failures, alert, .. } ==> {
                &&& before.failover_enabled ==> live.route_alert == alert
                &&& after.route_failure_count == failures
            }
            &&& live.update@ is Recovered ==> after.route_failure_count == 0 && !live.route_alert
            &&& live.update@ is Unchanged || live.update@ is AuthRefresh
                ==> after.route_failure_count == before.route_failure_count && !live.route_alert
            &&& attempt is None ==> live.update@ == UpdateView::Unchanged
            &&& after.stream.platform@ != "douyin"@ ==> !live.quality_changed
            &&& after.stream.recording_quality is None ==> !live.quality_changed
            &&& after.stream.platform@ == "douyin"@ && after.stream.recording_quality is Some
                && before.stream.recording_quality is Some ==> live.quality_changed == (
            before.stream.recording_quality->0@ != after.stream.recording_quality->0@)
            &&& after.stream.platform@ == "douyin"@ && after.stream.recording_quality is Some
                && before.stream.recording_quality is None ==> live.quality_changed
        },
{
}

/// Routes are changed on the one platform, where that is asked for and health is watched.
pub proof fn law_when_routes_are_changed(
    platform: Seq<char>,
    asked: Option<bool>,
    watched: bool,
)
    ensures
        failover_wanted(platform, asked, watched) <==> platform == "douyin"@ && asked == Some(true)
            && watched,
{
}

/// The failures in a row are those of the last update: its own where it is a failure, none where
/// the route recovered, and as many as before otherwise.
pub proof fn law_failures_follow_the_update(count: int, update: UpdateView)
    ensures
        update matches UpdateView::Failure { failures, .. } ==> failure_count_after(count, update)
            == failures,
        update is Recovered ==> failure_count_after(count, update) == 0,
        update is Unchanged || update is AuthRefresh ==> failure_count_after(count, update)
            == count,
{
}

/// A segment is counted once for what it was found to be: a valid one as valid and productive, a
/// short one that is kept as such with its bytes and as productive, a short one that is not kept
/// only as productive, and an invalid one only as invalid.
pub proof fn law_segments_are_counted_once(
    p: SegmentEventProcessor,
    validation: MediaValidation,
    file_bytes: u64,
)
    requires
        p.stats.productive_segments < u64::MAX,
        p.stats.valid_segments < u64::MAX,
        p.stats.recoverable_short_segments < u64::MAX,
        p.stats.invalid_segments < u64::MAX,
        p.stats.recoverable_short_bytes + file_bytes <= u64::MAX,
    ensures
        ({
            let before = p.stats;
            let after = processed_stats(p, validation, file_bytes);
            let valid = if validation is Valid {
                1int
            } else {
                0
            };
            let short = if validation is RecoverableShort && p.preserve_recoverable_short_segments {
                1int
            } else {
                0
            };
            let invalid = if validation is Invalid {
                1int
            } else {
                0
            };
            &&& after.productive_segments == before.productive_segments + 1 - invalid
            &&& after.valid_segments == before.valid_segments + valid
            &&& after.recoverable_short_segments == before.recoverable_short_segments + short
            &&& after.recoverable_short_bytes == before.recoverable_short_bytes + (if short == 1 {
                file_bytes as int
            } else {
                0
            })
            &&& after.invalid_segments == before.invalid_segments + invalid
            &&& after.merged_recovery_outputs == before.merged_recovery_outputs
            &&& after.deferred_recovery_batches == before.deferred_recovery_batches
            &&& after.segments_queued_for_upload == before.segments_queued_for_upload
            &&& after.upload_queue_peak_depth == before.upload_queue_peak_depth
        }),
{
}

/// What is counted stops at the largest number and never turns over.
pub proof fn law_counts_stop_at_the_largest(
    stats: SegmentProcessingStats,
    validation: MediaValidation,
    a: u64,
    b: u64,
)
    ensures
        a + b <= u64::MAX ==> capped_sum(a, b) == a + b,
        a + b > u64::MAX ==> capped_sum(a, b) == u64::MAX,
        validation is Invalid ==> validated(stats, validation) == stats,
        !(validation is Invalid) && stats.productive_segments < u64::MAX ==> validated(
            stats,
            validation,
        ).productive_segments == stats.productive_segments + 1,
{
}

/// The reasons for which media is thrown away are told under these names.
pub proof fn law_reasons_have_their_names(reason: InvalidMediaReason)
    ensures
        invalid_code(reason) == (match reason {
            InvalidMediaReason::Empty => "empty_file"@,
            InvalidMediaReason::HeaderOnly => "header_only"@,
            InvalidMediaReason::UnsupportedFormat(_) => "unsupported_format"@,
            InvalidMediaReason::MalformedContainer(_) => "malformed_container"@,
            InvalidMediaReason::NoMediaTrack => "no_media_track"@,
            InvalidMediaReason::ProbeFailed(_) => "probe_failed"@,
        }),
{
}

/// An absence is counted from its first check, and each check counts one more.
pub proof fn law_absences_are_counted(
    before: OfflineRetryState,
    after: OfflineRetryState,
    now: Timestamp,
    grace: Span,
)
    requires
        unavailable(before, after, now),
        before.offline_retry_count < u32::MAX,
        grace@ > 0,
    ensures
        after.offline_retry_count == before.offline_retry_count + 1,
        before.offline_since is None ==> after.offline_since == Some(now) && !grace_over(
            absent_since(before, now),
            now,
            grace,
        ),
        before.offline_since matches Some(since) ==> after.offline_since == Some(since) && (
        grace_over(absent_since(before, now), now, grace) <==> now@ - since@ >= grace@),
{
}

} // verus!
