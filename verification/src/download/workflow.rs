//! The frame of a recording: whether it may begin, what its download amounted to, and what is
//! reported at its end.
use crate::cookie_health::Alert;
use crate::download::segments::SegmentCloseReason;
use crate::download::session::DownloadAttempt;
use crate::route_health::{DownloadStatus, RouteKey, RouteMetricSnapshot};
use crate::text::{opt_view, own};
use crate::time::{Span, Timestamp, NANOS_PER_MILLI};
use vstd::prelude::*;
use vstd::string::*;

verus! {

/// What the recording lease says of a broadcast that was detected.
#[derive(Debug, Clone, Copy, PartialEq, Eq, Structural)]
pub enum LeaseAnswer {
    Admitted,
    Blocked,
    /// The database did not answer.
    Unknown,
}

/// Whether a recording begins.
#[derive(Debug, Clone, Copy, PartialEq, Eq, Structural)]
pub enum WorkflowStart {
    Run,
    /// The recording does not begin; the room is paused where `pause` says so, and the identity
    /// of the broadcast is removed where it is new.
    Refuse { pause: bool, remove_identity: bool },
}

/// Whether a recording begins. Without an answer it does not, and the room is paused.
pub fn workflow_start(answer: LeaseAnswer, reused_session: bool) -> (start: WorkflowStart)
    ensures
        start == (match answer {
            LeaseAnswer::Admitted => WorkflowStart::Run,
            LeaseAnswer::Blocked => WorkflowStart::Refuse {
                pause: false,
                remove_identity: !reused_session,
            },
            LeaseAnswer::Unknown => WorkflowStart::Refuse {
                pause: true,
                remove_identity: !reused_session,
            },
        }),
{
    match answer {
        LeaseAnswer::Admitted => WorkflowStart::Run,
        LeaseAnswer::Blocked => WorkflowStart::Refuse {
            pause: false,
            remove_identity: !reused_session,
        },
        LeaseAnswer::Unknown => WorkflowStart::Refuse {
            pause: true,
            remove_identity: !reused_session,
        },
    }
}

/// When the broadcast of a recording began: with the first recording of it.
pub fn candidate_started_at(
    reused_session: bool,
    broadcast_date: Timestamp,
    recording_started_at: Timestamp,
) -> (started: Timestamp)
    ensures
        started == (if reused_session {
            broadcast_date
        } else {
            recording_started_at
        }),
{
    if reused_session {
        broadcast_date
    } else {
        recording_started_at
    }
}

/// Whether the cover of the broadcast is fetched.
pub fn cover_wanted(use_live_cover: Option<bool>, cover_url: &str) -> (wanted: bool)
    ensures
        wanted == (use_live_cover == Some(true) && cover_url@.len() > 0),
{
    match use_live_cover {
        Some(wanted) => wanted && !cover_url.is_empty(),
        None => false,
    }
}

/// Whether the room is checked again after a recording: not where the lease paused it, nor
/// where that is not known.
pub fn wakes_monitor(lease_paused: Option<bool>) -> (wakes: bool)
    ensures
        wakes == (lease_paused == Some(false)),
{
    match lease_paused {
        Some(paused) => !paused,
        None => false,
    }
}

/// Whether a segment was closed because it was full.
pub open spec fn is_configured_split(reason: SegmentCloseReason) -> bool {
    reason is TimedSplit || reason is SizeSplit
}

/// Whether a segment was closed because it was full.
pub fn configured_split(reason: SegmentCloseReason) -> (yes: bool)
    ensures
        yes == is_configured_split(reason),
{
    match reason {
        SegmentCloseReason::TimedSplit => true,
        SegmentCloseReason::SizeSplit => true,
        _ => false,
    }
}

/// What a download amounted to. `split_seen` tells whether one of its segments was closed
/// because it was full; the counts are those of productive segments before and after it.
pub fn summarize_attempt(
    status: Option<DownloadStatus>,
    transport_failure: bool,
    connected_for: Span,
    split_seen: bool,
    productive_before: u64,
    productive_after: u64,
    silent_for: Option<Span>,
) -> (attempt: DownloadAttempt)
    ensures
        attempt.status == status,
        attempt.transport_failure == transport_failure,
        attempt.connected_for == connected_for,
        attempt.completed_configured_segment == (split_seen || status == Some(
            DownloadStatus::SegmentCompleted,
        )),
        attempt.productive_attempt == (productive_after > productive_before),
        attempt.silent_for == silent_for,
{
    let completed: bool = match &status {
        Some(s) => match s {
            DownloadStatus::SegmentCompleted => true,
            _ => false,
        },
        None => false,
    };
    DownloadAttempt {
        status,
        transport_failure,
        connected_for,
        completed_configured_segment: split_seen || completed,
        productive_attempt: productive_after > productive_before,
        silent_for,
    }
}

/// The average time of a connection over a route, in milliseconds.
pub fn average_connected_ms(route: &RouteMetricSnapshot) -> (average: u128)
    ensures
        average == (if route.attempts == 0 {
            0
        } else {
            route.connected_for@ / (NANOS_PER_MILLI as int) / (route.attempts as int)
        }),
{
    if route.attempts == 0 {
        0
    } else {
        route.connected_for.as_millis() / route.attempts as u128
    }
}

/// A text, or a word for its absence.
pub open spec fn or_unknown(text: Option<Seq<char>>) -> Seq<char> {
    match text {
        Some(t) => t,
        None => "unknown"@,
    }
}

fn text_or_unknown(text: &Option<String>) -> (shown: &str)
    ensures
        shown@ == or_unknown(opt_view(*text)),
{
    match text {
        Some(t) => t.as_str(),
        None => "unknown",
    }
}

/// The title of the message that a route failed.
pub const ROUTE_ALERT_TITLE: &'static str = "⚠️ 直播拉流线路故障，正在自动切换";

/// The message that the route `key` of the room `remark` failed.
pub fn route_alert(remark: &str, key: &RouteKey) -> (alert: Alert)
    ensures
        alert.title@ == ROUTE_ALERT_TITLE@,
        alert.content@ == remark@ + "：当前 "@ + or_unknown(key@.host) + " / "@ + key@.protocol
            + " / "@ + or_unknown(key@.quality)
            + " 线路连续失败，已熔断并尝试备用线路。后续同一轮故障不再重复告警。"@,
{
    let mut content: String = own(remark);
    content.append("：当前 ");
    content.append(text_or_unknown(&key.host));
    content.append(" / ");
    content.append(key.protocol);
    content.append(" / ");
    content.append(text_or_unknown(&key.quality));
    content.append(
        " 线路连续失败，已熔断并尝试备用线路。后续同一轮故障不再重复告警。",
    );
    Alert { title: own(ROUTE_ALERT_TITLE), content }
}

} // verus!
