//! Health of the routes a live stream can be pulled over: failure counting, cooling down and
//! the choice of the next route.
//!
//! Only results of downloads that were confirmed to be still live come here. The signed query
//! of an address is no part of a [`RouteKey`], so a route keeps its history when the signature
//! is refreshed.
use crate::text::{
    ends_with, ends_with_spec, eq_ignore_ascii_case, lower_spec, opt_at_or_before, opt_eq, opt_le,
    opt_own, opt_view, own, str_eq, to_ascii_lowercase,
};
use crate::time::{clamp_span, in_clock_range, Span, Timestamp, NANOS_PER_SEC};
use crate::urls::{
    is_address, law_the_query_leaves_the_host_alone, parse_host, parse_path, query_plays_no_part,
    query_taken_off, url_host, url_path,
};
use vstd::prelude::*;

pub mod failover;
pub mod history;

verus! {

/// Failures that lie at most this many seconds apart count as consecutive.
pub const FAILURE_WINDOW_SECS: u64 = 120;

/// Seconds for which a route is left alone once its circuit has opened.
pub const ROUTE_COOLDOWN_SECS: u64 = 600;

/// Seconds of connection from which an attempt counts as stable.
pub const ROUTE_STABLE_THRESHOLD_SECS: u64 = 300;

/// Seconds to wait where no route names a time.
pub const DEFAULT_RETRY_SECS: u64 = 30;

/// The container a stream arrives in.
#[derive(Clone, Copy, Debug, PartialEq, Eq, Structural)]
pub enum StreamProtocol {
    Flv,
    Hls,
}

/// One address that a platform offers for a stream.
#[derive(Debug, PartialEq, Eq)]
pub struct StreamCandidate {
    pub url: String,
    pub host: Option<String>,
    pub protocol: StreamProtocol,
    pub quality: Option<String>,
    pub codec: Option<String>,
    pub resolution: Option<String>,
    pub priority: u16,
}

/// What a download needs to know of a live stream.
#[derive(Debug, PartialEq, Eq)]
pub struct LiveStream {
    pub platform: String,
    pub raw_stream_url: String,
    pub suffix: String,
    pub recording_quality: Option<String>,
    pub stream_candidates: Vec<StreamCandidate>,
}

/// How a download ended.
#[derive(Debug, PartialEq, Eq)]
pub enum DownloadStatus {
    Downloading,
    SegmentCompleted,
    StreamEnded,
    IncompleteFrame { buffered: usize },
    ReadTimeout { buffered: usize },
    HttpStatus { status: u16 },
    Cancelled,
    Error(String),
}

/// What tells two routes apart.
#[derive(Debug, PartialEq, Eq, Hash)]
pub struct RouteKey {
    pub host: Option<String>,
    pub protocol: &'static str,
    pub quality: Option<String>,
    pub codec: Option<String>,
}

/// A route key as mathematical text.
pub struct KeyView {
    pub host: Option<Seq<char>>,
    pub protocol: Seq<char>,
    pub quality: Option<Seq<char>>,
    pub codec: Option<Seq<char>>,
}

impl View for RouteKey {
    type V = KeyView;

    open spec fn view(&self) -> KeyView {
        KeyView {
            host: opt_view(self.host),
            protocol: self.protocol@,
            quality: opt_view(self.quality),
            codec: opt_view(self.codec),
        }
    }
}

/// An optional text with its ASCII capitals as small letters.
pub open spec fn lower_opt(text: Option<Seq<char>>) -> Option<Seq<char>> {
    match text {
        Some(t) => Some(lower_spec(t)),
        None => None,
    }
}

/// The name of a protocol in a route key.
pub open spec fn protocol_label(protocol: StreamProtocol) -> Seq<char> {
    match protocol {
        StreamProtocol::Flv => "flv"@,
        StreamProtocol::Hls => "hls"@,
    }
}

/// The key of a candidate whose address has the host `host`: that host (or, without one, the host
/// it names), its protocol, quality and codec.
pub open spec fn key_under(candidate: StreamCandidate, host: Option<Seq<char>>) -> KeyView {
    KeyView {
        host: match host {
            Some(h) => Some(lower_spec(h)),
            None => lower_opt(opt_view(candidate.host)),
        },
        protocol: protocol_label(candidate.protocol),
        quality: opt_view(candidate.quality),
        codec: lower_opt(opt_view(candidate.codec)),
    }
}

/// The key of a candidate.
pub open spec fn candidate_key(candidate: StreamCandidate) -> KeyView {
    key_under(candidate, url_host(candidate.url@))
}

/// Whether `key` is the key of a candidate: the one of its address, in whose host the query plays
/// no part.
pub open spec fn keyed(candidate: StreamCandidate, key: KeyView) -> bool {
    &&& key == candidate_key(candidate)
    &&& query_plays_no_part(candidate.url@, url_host(candidate.url@))
}

/// Whether a stream that is no candidate is taken to be HLS.
pub open spec fn looks_like_hls(stream: LiveStream) -> bool {
    ||| lower_spec(stream.suffix@) == lower_spec("m3u8"@)
    ||| lower_spec(stream.suffix@) == lower_spec("ts"@)
    ||| url_path(stream.raw_stream_url@) matches Some(path) && ends_with_spec(path, ".m3u8"@)
}

/// The position of the first of `candidates` whose address is `url`, or their number.
pub open spec fn candidate_position(candidates: Seq<StreamCandidate>, url: Seq<char>) -> int
    decreases candidates.len(),
{
    if candidates.len() == 0 || candidates[0].url@ == url {
        0
    } else {
        1 + candidate_position(candidates.drop_first(), url)
    }
}

/// The key of a stream: that of the first candidate with its address, else one read off the
/// address itself.
pub open spec fn stream_key(stream: LiveStream) -> KeyView {
    let at = candidate_position(stream.stream_candidates@, stream.raw_stream_url@);
    if at < stream.stream_candidates@.len() {
        candidate_key(stream.stream_candidates@[at])
    } else {
        KeyView {
            host: lower_opt(url_host(stream.raw_stream_url@)),
            protocol: if looks_like_hls(stream) {
                "hls"@
            } else {
                "flv"@
            },
            quality: opt_view(stream.recording_quality),
            codec: None,
        }
    }
}

proof fn lemma_candidate_position(candidates: Seq<StreamCandidate>, url: Seq<char>, at: int)
    requires
        0 <= at <= candidates.len(),
        forall|k: int| 0 <= k < at ==> candidates[k].url@ != url,
        at < candidates.len() ==> candidates[at].url@ == url,
    ensures
        candidate_position(candidates, url) == at,
    decreases candidates.len(),
{
    if candidates.len() > 0 && at > 0 {
        assert(candidates[0].url@ != url);
        let rest = candidates.drop_first();
        assert forall|k: int| 0 <= k < at - 1 implies rest[k].url@ != url by {
            assert(rest[k] == candidates[k + 1]);
        }
        lemma_candidate_position(rest, url, at - 1);
    }
}

/// The optional text with its ASCII capitals as small letters.
fn opt_lowercase(text: &Option<String>) -> (lower: Option<String>)
    ensures
        opt_view(lower) == lower_opt(opt_view(*text)),
{
    match text {
        Some(t) => Some(to_ascii_lowercase(t.as_str())),
        None => None,
    }
}

/// The name of a protocol in a route key.
fn protocol_name(protocol: StreamProtocol) -> (name: &'static str)
    ensures
        name@ == protocol_label(protocol),
{
    match protocol {
        StreamProtocol::Flv => "flv",
        StreamProtocol::Hls => "hls",
    }
}

impl RouteKey {
    /// The key of the route that `stream` is pulled over.
    pub fn from_stream(stream: &LiveStream) -> (key: RouteKey)
        ensures
            key@ == stream_key(*stream),
    {
        let mut at: usize = 0;
        while at < stream.stream_candidates.len()
            invariant
                at <= stream.stream_candidates.len(),
                forall|k: int|
                    0 <= k < at ==> stream.stream_candidates@[k].url@ != stream.raw_stream_url@,
            decreases stream.stream_candidates.len() - at,
        {
            let candidate = &stream.stream_candidates[at];
            if str_eq(candidate.url.as_str(), stream.raw_stream_url.as_str()) {
                proof {
                    lemma_candidate_position(
                        stream.stream_candidates@,
                        stream.raw_stream_url@,
                        at as int,
                    );
                }
                return RouteKey::from_candidate(candidate);
            }
            at = at + 1;
        }
        proof {
            lemma_candidate_position(stream.stream_candidates@, stream.raw_stream_url@, at as int);
        }
        let host: Option<String> = parse_host(stream.raw_stream_url.as_str());
        let path: Option<String> = parse_path(stream.raw_stream_url.as_str());
        let playlist: bool = match &path {
            Some(p) => ends_with(p.as_str(), ".m3u8"),
            None => false,
        };
        let hls: bool = eq_ignore_ascii_case(stream.suffix.as_str(), "m3u8")
            || eq_ignore_ascii_case(stream.suffix.as_str(), "ts") || playlist;
        RouteKey {
            host: opt_lowercase(&host),
            protocol: if hls {
                "hls"
            } else {
                "flv"
            },
            quality: opt_own(&stream.recording_quality),
            codec: None,
        }
    }

    /// The key of the route that `candidate` offers.
    pub fn from_candidate(candidate: &StreamCandidate) -> (key: RouteKey)
        ensures
            key@ == candidate_key(*candidate),
            keyed(*candidate, key@),
    {
        let host: Option<String> = match parse_host(candidate.url.as_str()) {
            Some(h) => Some(to_ascii_lowercase(h.as_str())),
            None => opt_lowercase(&candidate.host),
        };
        RouteKey {
            host,
            protocol: protocol_name(candidate.protocol),
            quality: opt_own(&candidate.quality),
            codec: opt_lowercase(&candidate.codec),
        }
    }

    /// Whether two keys name the same route.
    pub fn same_as(&self, other: &RouteKey) -> (same: bool)
        ensures
            same == (self@ == other@),
    {
        opt_eq(&self.host, &other.host) && str_eq(self.protocol, other.protocol) && opt_eq(
            &self.quality,
            &other.quality,
        ) && opt_eq(&self.codec, &other.codec)
    }
}

impl Clone for RouteKey {
    fn clone(&self) -> (copied: RouteKey)
        ensures
            copied == *self,
    {
        RouteKey {
            host: opt_own(&self.host),
            protocol: self.protocol,
            quality: opt_own(&self.quality),
            codec: opt_own(&self.codec),
        }
    }
}

impl Clone for StreamCandidate {
    fn clone(&self) -> (copied: StreamCandidate)
        ensures
            copied == *self,
    {
        StreamCandidate {
            url: self.url.clone(),
            host: opt_own(&self.host),
            protocol: self.protocol,
            quality: opt_own(&self.quality),
            codec: opt_own(&self.codec),
            resolution: opt_own(&self.resolution),
            priority: self.priority,
        }
    }
}

/// Values kept per route; the view is the map from key to value.
pub struct RouteTable<V> {
    entries: Vec<(RouteKey, V)>,
}

spec fn entries_map<V>(entries: Seq<(RouteKey, V)>) -> Map<KeyView, V>
    decreases entries.len(),
{
    if entries.len() == 0 {
        Map::empty()
    } else {
        entries_map(entries.drop_last()).insert(entries.last().0@, entries.last().1)
    }
}

spec fn distinct_keys<V>(entries: Seq<(RouteKey, V)>) -> bool {
    forall|i: int, j: int|
        0 <= i < j < entries.len() ==> (#[trigger] entries[i]).0@ != (#[trigger] entries[j]).0@
}

proof fn lemma_entries_map<V>(entries: Seq<(RouteKey, V)>)
    requires
        distinct_keys(entries),
    ensures
        forall|i: int|
            0 <= i < entries.len() ==> entries_map(entries).contains_key(
                (#[trigger] entries[i]).0@,
            ) && entries_map(entries)[entries[i].0@] == entries[i].1,
        forall|k: KeyView| #[trigger]
            entries_map(entries).contains_key(k) ==> exists|i: int|
                0 <= i < entries.len() && (#[trigger] entries[i]).0@ == k,
    decreases entries.len(),
{
    if entries.len() > 0 {
        let front = entries.drop_last();
        assert forall|i: int, j: int| 0 <= i < j < front.len() implies (#[trigger] front[i]).0@ != (
        #[trigger] front[j]).0@ by {
            assert(entries[i] == front[i] && entries[j] == front[j]);
        }
        lemma_entries_map(front);
        assert forall|i: int| 0 <= i < entries.len() implies entries_map(entries).contains_key(
            (#[trigger] entries[i]).0@,
        ) && entries_map(entries)[entries[i].0@] == entries[i].1 by {
            if i < front.len() {
                assert(front[i] == entries[i]);
                assert(entries[i].0@ != entries[entries.len() - 1].0@);
            }
        }
        assert forall|k: KeyView| #[trigger] entries_map(entries).contains_key(k) implies exists|
            i: int,
        | 0 <= i < entries.len() && (#[trigger] entries[i]).0@ == k by {
            if k == entries.last().0@ {
                assert(entries[entries.len() - 1].0@ == k);
            } else {
                assert(entries_map(front).contains_key(k));
                let i = choose|i: int| 0 <= i < front.len() && (#[trigger] front[i]).0@ == k;
                assert(entries[i].0@ == k);
            }
        }
    }
}

impl<V> View for RouteTable<V> {
    type V = Map<KeyView, V>;

    closed spec fn view(&self) -> Map<KeyView, V> {
        entries_map(self.entries@)
    }
}

impl<V> RouteTable<V> {
    #[verifier::type_invariant]
    spec fn keys_are_distinct(self) -> bool {
        distinct_keys(self.entries@)
    }

    /// A table without routes.
    pub fn new() -> (table: RouteTable<V>)
        ensures
            table@ == Map::<KeyView, V>::empty(),
    {
        RouteTable { entries: Vec::new() }
    }

    fn position(&self, key: &RouteKey) -> (at: Option<usize>)
        ensures
            at matches Some(i) ==> i < self.entries@.len() && self.entries@[i as int].0@ == key@,
            at is None ==> forall|i: int|
                0 <= i < self.entries@.len() ==> (#[trigger] self.entries@[i]).0@ != key@,
    {
        let mut i: usize = 0;
        while i < self.entries.len()
            invariant
                i <= self.entries.len(),
                forall|k: int| 0 <= k < i ==> (#[trigger] self.entries@[k]).0@ != key@,
            decreases self.entries.len() - i,
        {
            if self.entries[i].0.same_as(key) {
                return Some(i);
            }
            i = i + 1;
        }
        None
    }

    /// Keeps `value` for `key`.
    pub fn set(&mut self, key: &RouteKey, value: V)
        ensures
            final(self)@ == old(self)@.insert(key@, value),
    {
        proof {
            use_type_invariant(&*self);
            lemma_entries_map(self.entries@);
        }
        let ghost before = self.entries@;
        let found: Option<usize> = self.position(key);
        let mut entries: Vec<(RouteKey, V)> = Vec::new();
        std::mem::swap(&mut entries, &mut self.entries);
        match found {
            Some(i) => {
                let kept: RouteKey = entries[i].0.clone();
                entries.set(i, (kept, value));
            },
            None => {
                entries.push((key.clone(), value));
            },
        }
        proof {
            let after = entries@;
            assert(distinct_keys(after)) by {
                assert forall|i: int, j: int| 0 <= i < j < after.len() implies (
                #[trigger] after[i]).0@ != (#[trigger] after[j]).0@ by {
                    if i < before.len() {
                        assert(before[i].0@ == after[i].0@);
                    }
                    if j < before.len() {
                        assert(before[j].0@ == after[j].0@);
                    }
                }
            }
            lemma_entries_map(after);
            let expected = entries_map(before).insert(key@, value);
            assert forall|k: KeyView| entries_map(after).contains_key(k) implies
                expected.contains_key(k) by {
                let i = choose|i: int| 0 <= i < after.len() && (#[trigger] after[i]).0@ == k;
                if i < before.len() {
                    assert(before[i].0@ == after[i].0@);
                }
            }
            assert forall|k: KeyView| expected.contains_key(k) implies #[trigger] entries_map(
                after,
            ).contains_key(k) && entries_map(after)[k] == expected[k] by {
                if k == key@ {
                    match found {
                        Some(i) => {
                            assert(after[i as int].0@ == k);
                        },
                        None => {
                            assert(after[after.len() - 1].0@ == k);
                        },
                    }
                } else {
                    let i = choose|i: int|
                        0 <= i < before.len() && (#[trigger] before[i]).0@ == k;
                    assert(after[i] == before[i]);
                }
            }
            assert(entries_map(after) =~= expected);
        }
        self.entries = entries;
    }
}

impl<V: Copy> RouteTable<V> {
    /// The value kept for `key`.
    pub fn get(&self, key: &RouteKey) -> (value: Option<V>)
        ensures
            value == (if self@.contains_key(key@) {
                Some(self@[key@])
            } else {
                None
            }),
    {
        proof {
            use_type_invariant(self);
            lemma_entries_map(self.entries@);
        }
        match self.position(key) {
            Some(i) => {
                assert(self.entries@[i as int].0@ == key@);
                Some(self.entries[i].1)
            },
            None => None,
        }
    }
}

/// The failure history of one route.
#[derive(Clone, Copy, Debug)]
struct RouteRecord {
    consecutive_failures: u32,
    last_failure_at: Option<Timestamp>,
    cooldown_until: Option<Timestamp>,
    auth_refresh_pending: bool,
}

/// A failure history with its clock readings in nanoseconds.
pub struct RecordView {
    pub failures: int,
    pub last_failure: Option<int>,
    pub cooldown_until: Option<int>,
    pub auth_refresh_pending: bool,
}

spec fn reading(t: Option<Timestamp>) -> Option<int> {
    match t {
        Some(t) => Some(t@),
        None => None,
    }
}

impl View for RouteRecord {
    type V = RecordView;

    closed spec fn view(&self) -> RecordView {
        RecordView {
            failures: self.consecutive_failures as int,
            last_failure: reading(self.last_failure_at),
            cooldown_until: reading(self.cooldown_until),
            auth_refresh_pending: self.auth_refresh_pending,
        }
    }
}

/// The history of a route that never failed.
pub open spec fn clean_record() -> RecordView {
    RecordView {
        failures: 0,
        last_failure: None,
        cooldown_until: None,
        auth_refresh_pending: false,
    }
}

/// Whether a record still keeps its route out of use.
pub open spec fn cooling(record: RecordView, now: int) -> bool {
    record.cooldown_until matches Some(until) && until > now
}

/// Whether a record holds anything that a success would clear.
pub open spec fn unhealthy(record: RecordView) -> bool {
    record.failures > 0 || record.cooldown_until is Some || record.auth_refresh_pending
}

impl RouteRecord {
    fn fresh() -> (record: RouteRecord)
        ensures
            record@ == clean_record(),
    {
        RouteRecord {
            consecutive_failures: 0,
            last_failure_at: None,
            cooldown_until: None,
            auth_refresh_pending: false,
        }
    }

    fn is_cooling_down(&self, now: &Timestamp) -> (yes: bool)
        ensures
            yes == cooling(self@, now@),
    {
        match self.cooldown_until {
            Some(until) => until.nanos() > now.nanos(),
            None => false,
        }
    }

    fn retry_after(&self, now: &Timestamp) -> (wait: Option<Span>)
        ensures
            wait is Some <==> cooling(self@, now@),
            wait matches Some(span) ==> span@ == self@.cooldown_until->0 - now@,
    {
        match self.cooldown_until {
            Some(until) => if until.nanos() > now.nanos() {
                Some(until.saturating_since(now))
            } else {
                None
            },
            None => None,
        }
    }

    fn clear(&mut self) -> (was_unhealthy: bool)
        ensures
            was_unhealthy == unhealthy(old(self)@),
            final(self)@ == clean_record(),
    {
        let was_unhealthy: bool = self.consecutive_failures > 0 || self.cooldown_until.is_some()
            || self.auth_refresh_pending;
        *self = RouteRecord::fresh();
        was_unhealthy
    }
}

/// What was counted on one route.
#[derive(Clone, Copy, Debug)]
struct RouteRuntimeMetric {
    attempts: u64,
    failures: u64,
    stable_attempts: u64,
    connected_for: Span,
}

/// What was counted on one route, as numbers.
pub struct MetricView {
    pub attempts: int,
    pub failures: int,
    pub stable_attempts: int,
    pub connected_for: int,
}

impl View for RouteRuntimeMetric {
    type V = MetricView;

    closed spec fn view(&self) -> MetricView {
        MetricView {
            attempts: self.attempts as int,
            failures: self.failures as int,
            stable_attempts: self.stable_attempts as int,
            connected_for: self.connected_for@,
        }
    }
}

/// The counts of a route that was never tried.
pub open spec fn empty_metric() -> MetricView {
    MetricView { attempts: 0, failures: 0, stable_attempts: 0, connected_for: 0 }
}

impl RouteRuntimeMetric {
    fn empty() -> (metric: RouteRuntimeMetric)
        ensures
            metric@ == empty_metric(),
    {
        RouteRuntimeMetric {
            attempts: 0,
            failures: 0,
            stable_attempts: 0,
            connected_for: Span::zero(),
        }
    }
}

/// A change of route that no download has confirmed yet.
struct PendingSwitch {
    target: RouteKey,
    flv_to_hls: bool,
}

/// The health of the routes of one live session.
pub struct RouteHealthState {
    enabled: bool,
    routes: RouteTable<RouteRecord>,
    current_route_key: Option<RouteKey>,
    storm_alert_sent: bool,
    metrics: RouteTable<RouteRuntimeMetric>,
    connection_failures: u64,
    route_switches: u64,
    successful_switches: u64,
    flv_to_hls_switches: u64,
    successful_flv_to_hls_switches: u64,
    flv_to_hls_connected_for: Span,
    all_routes_backoffs: u64,
    pending_switch: Option<PendingSwitch>,
}

/// The health of the routes of one live session, as mathematical values. `pending` is the
/// change of route that no download has confirmed yet: its target, and whether it went from
/// FLV to HLS.
#[verifier::ext_equal]
pub struct RouteHealthModel {
    pub enabled: bool,
    pub routes: Map<KeyView, RecordView>,
    pub current: Option<KeyView>,
    pub storm_alert_sent: bool,
    pub metrics: Map<KeyView, MetricView>,
    pub connection_failures: int,
    pub route_switches: int,
    pub successful_switches: int,
    pub flv_to_hls_switches: int,
    pub successful_flv_to_hls_switches: int,
    pub flv_to_hls_connected_for: int,
    pub all_routes_backoffs: int,
    pub pending: Option<(KeyView, bool)>,
}

impl View for RouteHealthState {
    type V = RouteHealthModel;

    closed spec fn view(&self) -> RouteHealthModel {
        RouteHealthModel {
            enabled: self.enabled,
            routes: self.routes@.map_values(|r: RouteRecord| r@),
            current: match self.current_route_key {
                Some(key) => Some(key@),
                None => None,
            },
            storm_alert_sent: self.storm_alert_sent,
            metrics: self.metrics@.map_values(|m: RouteRuntimeMetric| m@),
            connection_failures: self.connection_failures as int,
            route_switches: self.route_switches as int,
            successful_switches: self.successful_switches as int,
            flv_to_hls_switches: self.flv_to_hls_switches as int,
            successful_flv_to_hls_switches: self.successful_flv_to_hls_switches as int,
            flv_to_hls_connected_for: self.flv_to_hls_connected_for@,
            all_routes_backoffs: self.all_routes_backoffs as int,
            pending: match self.pending_switch {
                Some(p) => Some((p.target@, p.flv_to_hls)),
                None => None,
            },
        }
    }
}

/// What an observed download means for the route it ran on.
#[derive(Debug, PartialEq, Eq)]
pub enum HealthUpdate {
    Unchanged,
    AuthRefresh { key: RouteKey },
    Failure { key: RouteKey, failures: u32, circuit_opened: bool, alert: bool },
    Recovered { key: RouteKey },
}

/// A health update over mathematical keys.
pub enum UpdateView {
    Unchanged,
    AuthRefresh { key: KeyView },
    Failure { key: KeyView, failures: int, circuit_opened: bool, alert: bool },
    Recovered { key: KeyView },
}

impl View for HealthUpdate {
    type V = UpdateView;

    open spec fn view(&self) -> UpdateView {
        match *self {
            HealthUpdate::Unchanged => UpdateView::Unchanged,
            HealthUpdate::AuthRefresh { key } => UpdateView::AuthRefresh { key: key@ },
            HealthUpdate::Failure { key, failures, circuit_opened, alert } => UpdateView::Failure {
                key: key@,
                failures: failures as int,
                circuit_opened,
                alert,
            },
            HealthUpdate::Recovered { key } => UpdateView::Recovered { key: key@ },
        }
    }
}

/// The route for the next download.
#[derive(Debug, PartialEq, Eq)]
pub enum RouteSelection {
    Selected { key: RouteKey, changed: bool },
    Unavailable { retry_after: Span },
}

/// The history of `key`, clean where there is none.
pub open spec fn record_of(m: RouteHealthModel, key: KeyView) -> RecordView {
    if m.routes.contains_key(key) {
        m.routes[key]
    } else {
        clean_record()
    }
}

/// The counts of `key`, all zero where there are none.
pub open spec fn metric_of(m: RouteHealthModel, key: KeyView) -> MetricView {
    if m.metrics.contains_key(key) {
        m.metrics[key]
    } else {
        empty_metric()
    }
}

/// Whether `key` is cooling down at `now`.
pub open spec fn route_cooling(m: RouteHealthModel, key: KeyView, now: int) -> bool {
    cooling(record_of(m, key), now)
}

/// The state with a download begun on `key`.
pub open spec fn begun(m: RouteHealthModel, key: KeyView) -> RouteHealthModel {
    if m.enabled {
        let metric = metric_of(m, key);
        RouteHealthModel {
            metrics: m.metrics.insert(key, MetricView { attempts: metric.attempts + 1, ..metric }),
            current: Some(key),
            ..m
        }
    } else {
        m
    }
}

/// Whether a result counts as a failure of the route, on a stream that is still live.
pub open spec fn counted_failure(status: Option<DownloadStatus>) -> bool {
    match status {
        None => true,
        Some(DownloadStatus::StreamEnded) => true,
        Some(DownloadStatus::IncompleteFrame { .. }) => true,
        Some(DownloadStatus::ReadTimeout { .. }) => true,
        Some(DownloadStatus::Error(_)) => true,
        Some(DownloadStatus::HttpStatus { status }) => status >= 500 || status == 401 || status
            == 403 || status == 404,
        Some(DownloadStatus::Downloading) => false,
        Some(DownloadStatus::SegmentCompleted) => false,
        Some(DownloadStatus::Cancelled) => false,
    }
}

/// Whether a result says that the signature of the address was refused.
pub open spec fn refused_signature(status: Option<DownloadStatus>) -> bool {
    status matches Some(DownloadStatus::HttpStatus { status }) && (status == 401 || status == 403)
}

/// Whether an attempt counts as stable.
pub open spec fn is_stable(connected_for: int, completed_configured_segment: bool) -> bool {
    connected_for >= ROUTE_STABLE_THRESHOLD_SECS * NANOS_PER_SEC || completed_configured_segment
}

/// The state with the connection time of an attempt credited to `key`, and a pending change to
/// `key` settled.
pub open spec fn credited(
    m: RouteHealthModel,
    key: KeyView,
    connected_for: int,
    stable: bool,
) -> RouteHealthModel {
    let metric = metric_of(m, key);
    let metrics = m.metrics.insert(
        key,
        MetricView {
            connected_for: clamp_span(metric.connected_for + connected_for),
            stable_attempts: metric.stable_attempts + (if stable {
                1int
            } else {
                0
            }),
            ..metric
        },
    );
    match m.pending {
        Some((target, flv_to_hls)) if target == key => RouteHealthModel {
            metrics,
            pending: None,
            flv_to_hls_connected_for: if flv_to_hls {
                clamp_span(m.flv_to_hls_connected_for + connected_for)
            } else {
                m.flv_to_hls_connected_for
            },
            successful_switches: m.successful_switches + (if stable {
                1int
            } else {
                0
            }),
            successful_flv_to_hls_switches: m.successful_flv_to_hls_switches + (if stable
                && flv_to_hls {
                1int
            } else {
                0
            }),
            ..m
        },
        _ => RouteHealthModel { metrics, ..m },
    }
}

/// The number of consecutive failures after one more at `now`.
pub open spec fn failures_after(record: RecordView, now: int) -> int {
    let recent = record.last_failure matches Some(last) && now - last <= FAILURE_WINDOW_SECS
        * NANOS_PER_SEC;
    if !recent {
        1
    } else if record.failures < u32::MAX {
        record.failures + 1
    } else {
        u32::MAX as int
    }
}

/// The state after a counted failure of `key`, whose history was `record`, and the update that
/// reports it.
pub open spec fn failed(
    m: RouteHealthModel,
    key: KeyView,
    record: RecordView,
    now: int,
) -> (RouteHealthModel, UpdateView) {
    let metric = metric_of(m, key);
    let failures = failures_after(record, now);
    let opened = failures >= 2;
    let alert = opened && !m.storm_alert_sent;
    let after = RecordView {
        failures,
        last_failure: Some(now),
        cooldown_until: if opened {
            Some(now + ROUTE_COOLDOWN_SECS * NANOS_PER_SEC)
        } else {
            record.cooldown_until
        },
        auth_refresh_pending: false,
    };
    (
        RouteHealthModel {
            routes: m.routes.insert(key, after),
            metrics: m.metrics.insert(key, MetricView { failures: metric.failures + 1, ..metric }),
            connection_failures: m.connection_failures + 1,
            storm_alert_sent: m.storm_alert_sent || alert,
            ..m
        },
        UpdateView::Failure { key, failures, circuit_opened: opened, alert },
    )
}

/// The state after an observed download, and what it means for its route.
pub open spec fn observed(
    m: RouteHealthModel,
    status: Option<DownloadStatus>,
    connected_for: int,
    completed_configured_segment: bool,
    productive_attempt: bool,
    now: int,
) -> (RouteHealthModel, UpdateView) {
    if !m.enabled || status == Some(DownloadStatus::Cancelled) || m.current is None {
        (m, UpdateView::Unchanged)
    } else {
        let key = m.current->0;
        let stable = is_stable(connected_for, completed_configured_segment);
        let paid = credited(m, key, connected_for, stable);
        let healed = stable || productive_attempt;
        let before = record_of(m, key);
        let recovered = healed && (unhealthy(before) || m.storm_alert_sent);
        let record = if healed {
            clean_record()
        } else {
            before
        };
        let base = RouteHealthModel {
            storm_alert_sent: m.storm_alert_sent && !healed,
            ..paid
        };
        if refused_signature(status) && !record.auth_refresh_pending {
            (
                RouteHealthModel {
                    routes: m.routes.insert(
                        key,
                        RecordView { auth_refresh_pending: true, ..record },
                    ),
                    ..base
                },
                UpdateView::AuthRefresh { key },
            )
        } else if !counted_failure(status) {
            (
                RouteHealthModel {
                    routes: m.routes.insert(
                        key,
                        RecordView { auth_refresh_pending: false, ..record },
                    ),
                    ..base
                },
                if recovered {
                    UpdateView::Recovered { key }
                } else {
                    UpdateView::Unchanged
                },
            )
        } else {
            failed(base, key, record, now)
        }
    }
}

/// Whether every counter that an observation may raise has room for one more.
pub open spec fn room_to_observe(m: RouteHealthModel) -> bool {
    &&& m.connection_failures < u64::MAX
    &&& m.successful_switches < u64::MAX
    &&& m.successful_flv_to_hls_switches < u64::MAX
    &&& m.current matches Some(key) ==> metric_of(m, key).stable_attempts < u64::MAX && metric_of(
        m,
        key,
    ).failures < u64::MAX
}

/// Whether a result counts as a failure of the route, on a stream that is still live.
fn is_counted_transport_failure(status: Option<&DownloadStatus>) -> (yes: bool)
    ensures
        yes == counted_failure(
            match status {
                Some(s) => Some(*s),
                None => None,
            },
        ),
{
    match status {
        None => true,
        Some(s) => match s {
            DownloadStatus::StreamEnded => true,
            DownloadStatus::IncompleteFrame { .. } => true,
            DownloadStatus::ReadTimeout { .. } => true,
            DownloadStatus::Error(_) => true,
            DownloadStatus::HttpStatus { status } => *status >= 500 || *status == 401 || *status
                == 403 || *status == 404,
            DownloadStatus::Downloading => false,
            DownloadStatus::SegmentCompleted => false,
            DownloadStatus::Cancelled => false,
        },
    }
}

/// The optional value behind an optional reference.
pub open spec fn deref_opt<T>(value: Option<&T>) -> Option<T> {
    match value {
        Some(v) => Some(*v),
        None => None,
    }
}

/// The state of a session that has not downloaded anything yet.
pub open spec fn fresh_health(enabled: bool) -> RouteHealthModel {
    RouteHealthModel {
        enabled,
        routes: Map::empty(),
        current: None,
        storm_alert_sent: false,
        metrics: Map::empty(),
        connection_failures: 0,
        route_switches: 0,
        successful_switches: 0,
        flv_to_hls_switches: 0,
        successful_flv_to_hls_switches: 0,
        flv_to_hls_connected_for: 0,
        all_routes_backoffs: 0,
        pending: None,
    }
}

impl RouteHealthState {
    /// The state of a session that has not downloaded anything yet.
    pub fn new(enabled: bool) -> (state: RouteHealthState)
        ensures
            state@ == fresh_health(enabled),
    {
        let state = RouteHealthState {
            enabled,
            routes: RouteTable::new(),
            current_route_key: None,
            storm_alert_sent: false,
            metrics: RouteTable::new(),
            connection_failures: 0,
            route_switches: 0,
            successful_switches: 0,
            flv_to_hls_switches: 0,
            successful_flv_to_hls_switches: 0,
            flv_to_hls_connected_for: Span::zero(),
            all_routes_backoffs: 0,
            pending_switch: None,
        };
        assert(state@.routes =~= Map::empty());
        assert(state@.metrics =~= Map::empty());
        state
    }

    /// The key of the route that the last download began on.
    pub fn current_route_key(&self) -> (key: Option<&RouteKey>)
        ensures
            self@.current == (match key {
                Some(k) => Some(k@),
                None => None,
            }),
    {
        match &self.current_route_key {
            Some(key) => Some(key),
            None => None,
        }
    }

    /// Records that a download begins on the route of `stream`.
    pub fn begin_attempt(&mut self, stream: &LiveStream)
        requires
            metric_of(old(self)@, stream_key(*stream)).attempts < u64::MAX,
        ensures
            final(self)@ == begun(old(self)@, stream_key(*stream)),
    {
        if self.enabled {
            let key: RouteKey = RouteKey::from_stream(stream);
            let mut metric: RouteRuntimeMetric = self.metric_at(&key);
            metric.attempts = metric.attempts + 1;
            self.metrics.set(&key, metric);
            self.current_route_key = Some(key);
            assert(self@.metrics =~= begun(old(self)@, stream_key(*stream)).metrics);
        }
    }

    fn metric_at(&self, key: &RouteKey) -> (metric: RouteRuntimeMetric)
        ensures
            metric@ == metric_of(self@, key@),
    {
        match self.metrics.get(key) {
            Some(metric) => metric,
            None => RouteRuntimeMetric::empty(),
        }
    }

    fn record_at(&self, key: &RouteKey) -> (record: RouteRecord)
        ensures
            record@ == record_of(self@, key@),
    {
        match self.routes.get(key) {
            Some(record) => record,
            None => RouteRecord::fresh(),
        }
    }

    fn is_cooling_down(&self, key: &RouteKey, now: &Timestamp) -> (yes: bool)
        ensures
            yes == route_cooling(self@, key@, now@),
    {
        self.record_at(key).is_cooling_down(now)
    }

    /// Credits an attempt to `key` and settles a pending change to it.
    fn credit(&mut self, key: &RouteKey, connected_for: &Span, stable: bool)
        requires
            metric_of(old(self)@, key@).stable_attempts < u64::MAX,
            old(self)@.successful_switches < u64::MAX,
            old(self)@.successful_flv_to_hls_switches < u64::MAX,
        ensures
            final(self)@ == credited(old(self)@, key@, connected_for@, stable),
    {
        let mut metric: RouteRuntimeMetric = self.metric_at(key);
        metric.connected_for = metric.connected_for.saturating_add(connected_for);
        if stable {
            metric.stable_attempts = metric.stable_attempts + 1;
        }
        self.metrics.set(key, metric);
        let settled: Option<bool> = match &self.pending_switch {
            Some(pending) => if pending.target.same_as(key) {
                Some(pending.flv_to_hls)
            } else {
                None
            },
            None => None,
        };
        if let Some(flv_to_hls) = settled {
            self.pending_switch = None;
            if flv_to_hls {
                self.flv_to_hls_connected_for =
                self.flv_to_hls_connected_for.saturating_add(connected_for);
            }
            if stable {
                self.successful_switches = self.successful_switches + 1;
                if flv_to_hls {
                    self.successful_flv_to_hls_switches = self.successful_flv_to_hls_switches + 1;
                }
            }
        }
        assert(self@.metrics =~= credited(old(self)@, key@, connected_for@, stable).metrics);
        assert(self@.routes =~= old(self)@.routes);
    }

    /// Records how a download ended on a stream that was then confirmed to be still live.
    pub fn observe_live_attempt(
        &mut self,
        status: Option<&DownloadStatus>,
        connected_for: Span,
        completed_configured_segment: bool,
        productive_attempt: bool,
        now: Timestamp,
    ) -> (update: HealthUpdate)
        requires
            room_to_observe(old(self)@),
            in_clock_range(now@ + ROUTE_COOLDOWN_SECS * NANOS_PER_SEC),
        ensures
            (final(self)@, update@) == observed(
                old(self)@,
                deref_opt(status),
                connected_for@,
                completed_configured_segment,
                productive_attempt,
                now@,
            ),
    {
        let cancelled: bool = match status {
            Some(s) => match s {
                DownloadStatus::Cancelled => true,
                _ => false,
            },
            None => false,
        };
        if !self.enabled || cancelled {
            return HealthUpdate::Unchanged;
        }
        let key: RouteKey = match &self.current_route_key {
            Some(key) => key.clone(),
            None => {
                return HealthUpdate::Unchanged;
            },
        };
        let stable: bool = connected_for.at_least(&Span::from_secs(ROUTE_STABLE_THRESHOLD_SECS))
            || completed_configured_segment;
        self.credit(&key, &connected_for, stable);
        let ghost paid = self@;
        let mut record: RouteRecord = self.record_at(&key);
        let recovered: bool = if stable || productive_attempt {
            let storm_was_active: bool = self.storm_alert_sent;
            self.storm_alert_sent = false;
            let was_unhealthy: bool = record.clear();
            was_unhealthy || storm_was_active
        } else {
            false
        };
        let refused: bool = match status {
            Some(s) => match s {
                DownloadStatus::HttpStatus { status } => *status == 401 || *status == 403,
                _ => false,
            },
            None => false,
        };
        if refused && !record.auth_refresh_pending {
            record.auth_refresh_pending = true;
            self.routes.set(&key, record);
            assert(self@.routes =~= paid.routes.insert(key@, record@));
            assert(self@.metrics =~= paid.metrics);
            return HealthUpdate::AuthRefresh { key };
        }
        if !is_counted_transport_failure(status) {
            record.auth_refresh_pending = false;
            self.routes.set(&key, record);
            assert(self@.routes =~= paid.routes.insert(key@, record@));
            assert(self@.metrics =~= paid.metrics);
            return if recovered {
                HealthUpdate::Recovered { key }
            } else {
                HealthUpdate::Unchanged
            };
        }
        let ghost base = self@;
        let ghost start = record@;
        record.auth_refresh_pending = false;
        self.connection_failures = self.connection_failures + 1;
        let mut metric: RouteRuntimeMetric = self.metric_at(&key);
        metric.failures = metric.failures + 1;
        self.metrics.set(&key, metric);
        let recent: bool = match record.last_failure_at {
            Some(last) => Span::from_secs(FAILURE_WINDOW_SECS).at_least(
                &now.saturating_since(&last),
            ),
            None => false,
        };
        if recent {
            record.consecutive_failures = record.consecutive_failures.saturating_add(1);
        } else {
            record.consecutive_failures = 1;
        }
        record.last_failure_at = Some(now);
        let circuit_opened: bool = record.consecutive_failures >= 2;
        if circuit_opened {
            record.cooldown_until = Some(now.plus(&Span::from_secs(ROUTE_COOLDOWN_SECS)));
        }
        let alert: bool = circuit_opened && !self.storm_alert_sent;
        if alert {
            self.storm_alert_sent = true;
        }
        self.routes.set(&key, record);
        proof {
            let (model, _) = failed(base, key@, start, now@);
            assert(self@.routes =~= model.routes);
            assert(self@.metrics =~= model.metrics);
        }
        HealthUpdate::Failure {
            key,
            failures: record.consecutive_failures,
            circuit_opened,
            alert,
        }
    }
}

/// The position of the first candidate with `key`, or the number of candidates.
pub open spec fn key_position(candidates: Seq<StreamCandidate>, key: KeyView) -> int
    decreases candidates.len(),
{
    if candidates.len() == 0 || candidate_key(candidates[0]) == key {
        0
    } else {
        1 + key_position(candidates.drop_first(), key)
    }
}

/// `key_position` is the first position that matches.
pub proof fn lemma_key_position(candidates: Seq<StreamCandidate>, key: KeyView, at: int)
    requires
        0 <= at <= candidates.len(),
        forall|k: int| 0 <= k < at ==> candidate_key(#[trigger] candidates[k]) != key,
        at < candidates.len() ==> candidate_key(candidates[at]) == key,
    ensures
        key_position(candidates, key) == at,
    decreases candidates.len(),
{
    if candidates.len() > 0 && at > 0 {
        assert(candidate_key(candidates[0]) != key);
        let rest = candidates.drop_first();
        assert forall|k: int| 0 <= k < at - 1 implies candidate_key(#[trigger] rest[k]) != key by {
            assert(rest[k] == candidates[k + 1]);
        }
        lemma_key_position(rest, key, at - 1);
    }
}

/// The first position, going round the candidates from `start + offset`, whose route is not
/// cooling down.
pub open spec fn next_available(
    m: RouteHealthModel,
    candidates: Seq<StreamCandidate>,
    start: int,
    offset: int,
    now: int,
) -> Option<int>
    decreases candidates.len() - offset,
{
    if offset < 0 || offset >= candidates.len() {
        None
    } else {
        let at = (start + offset) % (candidates.len() as int);
        if !route_cooling(m, candidate_key(candidates[at]), now) {
            Some(at)
        } else {
            next_available(m, candidates, start, offset + 1, now)
        }
    }
}

/// The candidate for the next download: the current one while it is healthy, else the first
/// healthy one after it, going round.
pub open spec fn chosen(
    m: RouteHealthModel,
    candidates: Seq<StreamCandidate>,
    now: int,
) -> Option<int> {
    match m.current {
        Some(current) => {
            let at = key_position(candidates, current);
            if at < candidates.len() && !route_cooling(m, current, now) {
                Some(at)
            } else {
                next_available(
                    m,
                    candidates,
                    if at < candidates.len() {
                        at + 1
                    } else {
                        0
                    },
                    0,
                    now,
                )
            }
        },
        None => next_available(m, candidates, 0, 0, now),
    }
}

/// The shortest time until a cooling candidate may be used again.
pub open spec fn shortest_wait(
    m: RouteHealthModel,
    candidates: Seq<StreamCandidate>,
    now: int,
) -> Option<int>
    decreases candidates.len(),
{
    if candidates.len() == 0 {
        None
    } else {
        let before = shortest_wait(m, candidates.drop_last(), now);
        let record = record_of(m, candidate_key(candidates.last()));
        if cooling(record, now) {
            let wait = record.cooldown_until->0 - now;
            match before {
                Some(w) if w <= wait => before,
                _ => Some(wait),
            }
        } else {
            before
        }
    }
}

/// The suffix that files of a protocol carry.
pub open spec fn protocol_suffix(protocol: StreamProtocol) -> Seq<char> {
    match protocol {
        StreamProtocol::Flv => "flv"@,
        StreamProtocol::Hls => "m3u8"@,
    }
}

/// Whether `after` is `before` switched over to `candidate`.
pub open spec fn switched(before: LiveStream, after: LiveStream, candidate: StreamCandidate) -> bool {
    &&& after.raw_stream_url@ == candidate.url@
    &&& after.suffix@ == protocol_suffix(candidate.protocol)
    &&& after.recording_quality == candidate.quality
    &&& after.platform == before.platform
    &&& after.stream_candidates == before.stream_candidates
}

/// Whether candidates are chosen among at all.
pub open spec fn failover_applies(
    m: RouteHealthModel,
    stream: LiveStream,
    failover_enabled: bool,
) -> bool {
    m.enabled && failover_enabled && stream.stream_candidates@.len() > 0
}

/// The state after the route moved to `key`.
pub open spec fn moved(m: RouteHealthModel, key: KeyView) -> RouteHealthModel {
    if m.current matches Some(previous) && previous != key {
        let flv_to_hls = m.current->0.protocol == "flv"@ && key.protocol == "hls"@;
        RouteHealthModel {
            route_switches: m.route_switches + 1,
            flv_to_hls_switches: m.flv_to_hls_switches + (if flv_to_hls {
                1int
            } else {
                0
            }),
            pending: Some((key, flv_to_hls)),
            ..m
        }
    } else {
        m
    }
}

/// The health state that a choice of route for `stream` leaves.
pub open spec fn after_select(
    m: RouteHealthModel,
    stream: LiveStream,
    now: int,
    failover_enabled: bool,
) -> RouteHealthModel {
    if !failover_applies(m, stream, failover_enabled) {
        m
    } else {
        match chosen(m, stream.stream_candidates@, now) {
            Some(at) => moved(m, candidate_key(stream.stream_candidates@[at])),
            None => RouteHealthModel { all_routes_backoffs: m.all_routes_backoffs + 1, ..m },
        }
    }
}

/// Whether `selection` is the choice of a route for `stream_before` at `now`, and `after` and
/// `stream_after` are the health state and the stream that it leaves.
pub open spec fn selects(
    before: RouteHealthModel,
    after: RouteHealthModel,
    stream_before: LiveStream,
    stream_after: LiveStream,
    now: int,
    failover_enabled: bool,
    selection: RouteSelection,
) -> bool {
    &&& after == after_select(before, stream_before, now, failover_enabled)
    &&& if !failover_applies(before, stream_before, failover_enabled) {
        &&& stream_after == stream_before
        &&& selection matches RouteSelection::Selected { key, changed } && key@ == stream_key(
            stream_before,
        ) && changed == (before.current is Some && before.current->0 != key@)
    } else {
        match chosen(before, stream_before.stream_candidates@, now) {
            Some(at) => {
                let candidate = stream_before.stream_candidates@[at];
                &&& 0 <= at < stream_before.stream_candidates@.len()
                &&& switched(stream_before, stream_after, candidate)
                &&& selection matches RouteSelection::Selected { key, changed } && key@
                    == candidate_key(candidate) && changed == (before.current is Some
                    && before.current->0 != key@)
            },
            None => {
                &&& stream_after == stream_before
                &&& selection matches RouteSelection::Unavailable { retry_after } && retry_after@
                    == (match shortest_wait(before, stream_before.stream_candidates@, now) {
                    Some(wait) => wait,
                    None => DEFAULT_RETRY_SECS * NANOS_PER_SEC,
                })
            },
        }
    }
}

/// Writes `candidate` into `stream`.
fn apply_candidate(stream: &mut LiveStream, candidate: &StreamCandidate)
    ensures
        switched(*old(stream), *final(stream), *candidate),
{
    stream.raw_stream_url = candidate.url.clone();
    stream.suffix =
    match candidate.protocol {
        StreamProtocol::Flv => own("flv"),
        StreamProtocol::Hls => own("m3u8"),
    };
    stream.recording_quality = opt_own(&candidate.quality);
}

impl RouteHealthState {
    fn candidate_cooling(&self, candidate: &StreamCandidate, now: &Timestamp) -> (yes: bool)
        ensures
            yes == route_cooling(self@, candidate_key(*candidate), now@),
    {
        let key: RouteKey = RouteKey::from_candidate(candidate);
        self.is_cooling_down(&key, now)
    }

    fn position_of(candidates: &Vec<StreamCandidate>, key: &RouteKey) -> (at: usize)
        ensures
            at <= candidates.len(),
            at == key_position(candidates@, key@),
    {
        let mut at: usize = 0;
        while at < candidates.len()
            invariant
                at <= candidates.len(),
                forall|k: int| 0 <= k < at ==> candidate_key(#[trigger] candidates@[k]) != key@,
            decreases candidates.len() - at,
        {
            let own_key: RouteKey = RouteKey::from_candidate(&candidates[at]);
            if own_key.same_as(key) {
                proof {
                    lemma_key_position(candidates@, key@, at as int);
                }
                return at;
            }
            at = at + 1;
        }
        proof {
            lemma_key_position(candidates@, key@, at as int);
        }
        at
    }

    fn rotate(&self, candidates: &Vec<StreamCandidate>, start: usize, now: &Timestamp) -> (found:
        Option<usize>)
        requires
            start <= candidates.len(),
        ensures
            next_available(self@, candidates@, start as int, 0, now@) == (match found {
                Some(at) => Some(at as int),
                None => None,
            }),
            found matches Some(at) ==> at < candidates.len(),
    {
        let mut offset: usize = 0;
        while offset < candidates.len()
            invariant
                offset <= candidates.len(),
                start <= candidates.len(),
                next_available(self@, candidates@, start as int, 0, now@) == next_available(
                    self@,
                    candidates@,
                    start as int,
                    offset as int,
                    now@,
                ),
            decreases candidates.len() - offset,
        {
            let until_end: usize = candidates.len() - start;
            let at: usize = if offset < until_end {
                start + offset
            } else {
                offset - until_end
            };
            proof {
                let n = candidates@.len() as int;
                let sum = start + offset;
                if offset < until_end {
                    vstd::arithmetic::div_mod::lemma_small_mod(sum as nat, n as nat);
                } else {
                    vstd::arithmetic::div_mod::lemma_small_mod(at as nat, n as nat);
                    vstd::arithmetic::div_mod::lemma_mod_add_multiples_vanish(at as int, n);
                    assert(sum == n + at);
                }
                assert(sum % n == at);
            }
            if !self.candidate_cooling(&candidates[at], now) {
                return Some(at);
            }
            offset = offset + 1;
        }
        None
    }

    fn wait_for_any(&self, candidates: &Vec<StreamCandidate>, now: &Timestamp) -> (wait: Option<
        Span,
    >)
        ensures
            shortest_wait(self@, candidates@, now@) == (match wait {
                Some(span) => Some(span@),
                None => None,
            }),
    {
        let mut wait: Option<Span> = None;
        let mut i: usize = 0;
        while i < candidates.len()
            invariant
                i <= candidates.len(),
                shortest_wait(self@, candidates@.take(i as int), now@) == (match wait {
                    Some(span) => Some(span@),
                    None => None,
                }),
            decreases candidates.len() - i,
        {
            let key: RouteKey = RouteKey::from_candidate(&candidates[i]);
            proof {
                let more = candidates@.take(i + 1);
                assert(more.drop_last() =~= candidates@.take(i as int));
                assert(more.last() == candidates@[i as int]);
            }
            if let Some(span) = self.record_at(&key).retry_after(now) {
                wait =
                match wait {
                    Some(best) => if span.at_least(&best) {
                        Some(best)
                    } else {
                        Some(span)
                    },
                    None => Some(span),
                };
            }
            i = i + 1;
        }
        assert(candidates@.take(i as int) =~= candidates@);
        wait
    }

    /// Chooses the route for the next download among the refreshed candidates and writes it into
    /// `stream`. A healthy current route is kept; one whose circuit is open is left for the next
    /// healthy one after it.
    pub fn select_route(
        &mut self,
        stream: &mut LiveStream,
        now: Timestamp,
        failover_enabled: bool,
    ) -> (selection: RouteSelection)
        requires
            old(self)@.all_routes_backoffs < u64::MAX,
            old(self)@.route_switches < u64::MAX,
            old(self)@.flv_to_hls_switches < u64::MAX,
        ensures
            selects(
                old(self)@,
                final(self)@,
                *old(stream),
                *final(stream),
                now@,
                failover_enabled,
                selection,
            ),
    {
        if !self.enabled || !failover_enabled || stream.stream_candidates.len() == 0 {
            let key: RouteKey = RouteKey::from_stream(stream);
            let changed: bool = match &self.current_route_key {
                Some(previous) => !previous.same_as(&key),
                None => false,
            };
            return RouteSelection::Selected { key, changed };
        }
        let selected: Option<usize> = match &self.current_route_key {
            Some(current) => {
                let at: usize = RouteHealthState::position_of(&stream.stream_candidates, current);
                let present: bool = at < stream.stream_candidates.len();
                if present && !self.is_cooling_down(current, &now) {
                    Some(at)
                } else {
                    self.rotate(
                        &stream.stream_candidates,
                        if present {
                            at + 1
                        } else {
                            0
                        },
                        &now,
                    )
                }
            },
            None => self.rotate(&stream.stream_candidates, 0, &now),
        };
        match selected {
            None => {
                self.all_routes_backoffs = self.all_routes_backoffs + 1;
                assert(self@.routes =~= old(self)@.routes);
                assert(self@.metrics =~= old(self)@.metrics);
                let wait: Option<Span> = self.wait_for_any(&stream.stream_candidates, &now);
                proof {
                    lemma_wait_needs_routes_only(
                        self@,
                        old(self)@,
                        stream.stream_candidates@,
                        now@,
                    );
                }
                RouteSelection::Unavailable {
                    retry_after: match wait {
                        Some(span) => span,
                        None => Span::from_secs(DEFAULT_RETRY_SECS),
                    },
                }
            },
            Some(at) => {
                let candidate: StreamCandidate = stream.stream_candidates[at].clone();
                apply_candidate(stream, &candidate);
                let key: RouteKey = RouteKey::from_candidate(&candidate);
                let (changed, was_flv): (bool, bool) = match &self.current_route_key {
                    Some(previous) => (
                        !previous.same_as(&key),
                        str_eq(previous.protocol, "flv"),
                    ),
                    None => (false, false),
                };
                if changed {
                    self.route_switches = self.route_switches + 1;
                    let flv_to_hls: bool = was_flv && str_eq(key.protocol, "hls");
                    if flv_to_hls {
                        self.flv_to_hls_switches = self.flv_to_hls_switches + 1;
                    }
                    self.pending_switch = Some(PendingSwitch { target: key.clone(), flv_to_hls });
                }
                assert(self@.routes =~= old(self)@.routes);
                assert(self@.metrics =~= old(self)@.metrics);
                RouteSelection::Selected { key, changed }
            },
        }
    }
}

proof fn lemma_wait_needs_routes_only(
    a: RouteHealthModel,
    b: RouteHealthModel,
    candidates: Seq<StreamCandidate>,
    now: int,
)
    requires
        a.routes == b.routes,
    ensures
        shortest_wait(a, candidates, now) == shortest_wait(b, candidates, now),
    decreases candidates.len(),
{
    if candidates.len() > 0 {
        lemma_wait_needs_routes_only(a, b, candidates.drop_last(), now);
    }
}

/// What was counted on one route of a session.
#[derive(Debug, PartialEq, Eq)]
pub struct RouteMetricSnapshot {
    pub key: RouteKey,
    pub attempts: u64,
    pub failures: u64,
    pub stable_attempts: u64,
    pub connected_for: Span,
}

impl RouteMetricSnapshot {
    /// The counts as numbers.
    pub open spec fn metric(&self) -> MetricView {
        MetricView {
            attempts: self.attempts as int,
            failures: self.failures as int,
            stable_attempts: self.stable_attempts as int,
            connected_for: self.connected_for@,
        }
    }
}

/// What was counted on all routes of a session.
#[derive(Debug, PartialEq, Eq)]
pub struct RouteHealthSnapshot {
    pub connection_failures: u64,
    pub route_switches: u64,
    pub successful_switches: u64,
    pub flv_to_hls_switches: u64,
    pub successful_flv_to_hls_switches: u64,
    pub flv_to_hls_connected_for: Span,
    pub all_routes_backoffs: u64,
    pub routes: Vec<RouteMetricSnapshot>,
}

/// The order of a report: by quality, then by protocol, then by host.
pub open spec fn report_le(a: KeyView, b: KeyView) -> bool {
    if a.quality != b.quality {
        opt_le(a.quality, b.quality)
    } else if a.protocol != b.protocol {
        crate::text::text_le(a.protocol, b.protocol)
    } else {
        opt_le(a.host, b.host)
    }
}

proof fn lemma_opt_le(a: Option<Seq<char>>, b: Option<Seq<char>>)
    ensures
        opt_le(a, b) || opt_le(b, a),
        opt_le(a, b) && opt_le(b, a) ==> a == b,
{
    if a is Some && b is Some {
        crate::text::lemma_text_le_total(a->0, b->0);
    }
}

proof fn lemma_opt_le_transitive(a: Option<Seq<char>>, b: Option<Seq<char>>, c: Option<Seq<char>>)
    requires
        opt_le(a, b),
        opt_le(b, c),
    ensures
        opt_le(a, c),
{
    if a is Some && b is Some && c is Some {
        crate::text::lemma_text_le_transitive(a->0, b->0, c->0);
    }
}

proof fn lemma_report_le(a: KeyView, b: KeyView)
    ensures
        report_le(a, b) || report_le(b, a),
{
    lemma_opt_le(a.quality, b.quality);
    crate::text::lemma_text_le_total(a.protocol, b.protocol);
    lemma_opt_le(a.host, b.host);
}

proof fn lemma_report_le_transitive(a: KeyView, b: KeyView, c: KeyView)
    requires
        report_le(a, b),
        report_le(b, c),
    ensures
        report_le(a, c),
{
    lemma_opt_le(a.quality, b.quality);
    lemma_opt_le(b.quality, c.quality);
    lemma_opt_le(a.quality, c.quality);
    crate::text::lemma_text_le_total(a.protocol, b.protocol);
    crate::text::lemma_text_le_total(b.protocol, c.protocol);
    crate::text::lemma_text_le_total(a.protocol, c.protocol);
    if opt_le(a.quality, b.quality) && opt_le(b.quality, c.quality) {
        lemma_opt_le_transitive(a.quality, b.quality, c.quality);
    }
    if crate::text::text_le(a.protocol, b.protocol) && crate::text::text_le(b.protocol, c.protocol) {
        crate::text::lemma_text_le_transitive(a.protocol, b.protocol, c.protocol);
    }
    if opt_le(a.host, b.host) && opt_le(b.host, c.host) {
        lemma_opt_le_transitive(a.host, b.host, c.host);
    }
}

fn reports_before(a: &RouteKey, b: &RouteKey) -> (yes: bool)
    ensures
        yes == report_le(a@, b@),
{
    if !opt_eq(&a.quality, &b.quality) {
        opt_at_or_before(&a.quality, &b.quality)
    } else if !str_eq(a.protocol, b.protocol) {
        crate::text::text_at_or_before(a.protocol, b.protocol)
    } else {
        opt_at_or_before(&a.host, &b.host)
    }
}

/// Whether `routes` reports `metrics`: every route once, in the order of a report.
pub open spec fn reports(routes: Seq<RouteMetricSnapshot>, metrics: Map<KeyView, MetricView>) -> bool {
    &&& forall|i: int|
        0 <= i < routes.len() ==> metrics.contains_key((#[trigger] routes[i]).key@)
            && metrics[routes[i].key@] == routes[i].metric()
    &&& forall|k: KeyView| #[trigger]
        metrics.contains_key(k) ==> exists|i: int|
            0 <= i < routes.len() && (#[trigger] routes[i]).key@ == k
    &&& forall|i: int, j: int|
        0 <= i < j < routes.len() ==> (#[trigger] routes[i]).key@ != (#[trigger] routes[j]).key@
    &&& forall|i: int, j: int|
        0 <= i < j < routes.len() ==> report_le(
            (#[trigger] routes[i]).key@,
            (#[trigger] routes[j]).key@,
        )
}

/// Whether `routes` holds the first `n` of `all`, each once, in the order of a report.
spec fn reported(
    routes: Seq<RouteMetricSnapshot>,
    all: Seq<(RouteKey, RouteRuntimeMetric)>,
    n: int,
) -> bool {
    &&& forall|r: int|
        0 <= r < routes.len() ==> #[trigger] has_source(routes[r], all, n)
    &&& forall|e: int|
        0 <= e < n ==> exists|r: int|
            0 <= r < routes.len() && (#[trigger] routes[r]).key@ == (#[trigger] all[e]).0@
    &&& forall|a: int, b: int|
        0 <= a < b < routes.len() ==> (#[trigger] routes[a]).key@ != (#[trigger] routes[b]).key@
            && report_le(routes[a].key@, routes[b].key@)
}

spec fn has_source(
    route: RouteMetricSnapshot,
    all: Seq<(RouteKey, RouteRuntimeMetric)>,
    n: int,
) -> bool {
    exists|e: int|
        0 <= e < n && (#[trigger] all[e]).0@ == route.key@ && all[e].1@ == route.metric()
}

proof fn lemma_report_insert(
    before: Seq<RouteMetricSnapshot>,
    item: RouteMetricSnapshot,
    at: int,
    all: Seq<(RouteKey, RouteRuntimeMetric)>,
    n: int,
)
    requires
        0 <= n < all.len(),
        0 <= at <= before.len(),
        distinct_keys(all),
        reported(before, all, n),
        item.key@ == all[n].0@,
        item.metric() == all[n].1@,
        forall|k: int| 0 <= k < at ==> report_le((#[trigger] before[k]).key@, item.key@),
        at < before.len() ==> !report_le(before[at].key@, item.key@),
    ensures
        reported(before.insert(at, item), all, n + 1),
{
    let after = before.insert(at, item);
    assert forall|r: int| 0 <= r < after.len() implies #[trigger] has_source(
        after[r],
        all,
        n + 1,
    ) by {
        if r == at {
            assert(all[n].0@ == after[r].key@);
        } else {
            let source = if r < at {
                r
            } else {
                r - 1
            };
            assert(after[r] == before[source]);
            assert(has_source(before[source], all, n));
        }
    }
    assert forall|e: int| 0 <= e < n + 1 implies exists|r: int|
        0 <= r < after.len() && (#[trigger] after[r]).key@ == (#[trigger] all[e]).0@ by {
        if e == n {
            assert(after[at].key@ == all[e].0@);
        } else {
            let r = choose|r: int|
                0 <= r < before.len() && (#[trigger] before[r]).key@ == all[e].0@;
            let target = if r < at {
                r
            } else {
                r + 1
            };
            assert(after[target] == before[r]);
        }
    }
    assert forall|k: int| 0 <= k < before.len() implies (#[trigger] before[k]).key@ != item.key@ by {
        assert(has_source(before[k], all, n));
        let e = choose|e: int|
            0 <= e < n && (#[trigger] all[e]).0@ == before[k].key@ && all[e].1@
                == before[k].metric();
        assert(all[e].0@ != all[n].0@);
    }
    assert forall|k: int| at <= k < before.len() implies report_le(
        item.key@,
        (#[trigger] before[k]).key@,
    ) by {
        lemma_report_le(before[at].key@, item.key@);
        if k > at {
            assert(report_le(before[at].key@, before[k].key@));
            lemma_report_le_transitive(item.key@, before[at].key@, before[k].key@);
        }
    }
    assert forall|a: int, b: int| 0 <= a < b < after.len() implies (#[trigger] after[a]).key@ != (
    #[trigger] after[b]).key@ && report_le(after[a].key@, after[b].key@) by {
        if a < at {
            assert(after[a] == before[a]);
        } else if a > at {
            assert(after[a] == before[a - 1]);
        }
        if b < at {
            assert(after[b] == before[b]);
        } else if b > at {
            assert(after[b] == before[b - 1]);
        }
    }
}

proof fn lemma_reported_all(
    routes: Seq<RouteMetricSnapshot>,
    all: Seq<(RouteKey, RouteRuntimeMetric)>,
)
    requires
        distinct_keys(all),
        reported(routes, all, all.len() as int),
    ensures
        reports(routes, entries_map(all).map_values(|m: RouteRuntimeMetric| m@)),
{
    let metrics = entries_map(all).map_values(|m: RouteRuntimeMetric| m@);
    lemma_entries_map(all);
    assert forall|r: int| 0 <= r < routes.len() implies metrics.contains_key(
        (#[trigger] routes[r]).key@,
    ) && metrics[routes[r].key@] == routes[r].metric() by {
        assert(has_source(routes[r], all, all.len() as int));
        let e = choose|e: int|
            0 <= e < all.len() && (#[trigger] all[e]).0@ == routes[r].key@ && all[e].1@
                == routes[r].metric();
        assert(entries_map(all).contains_key(all[e].0@));
    }
    assert forall|k: KeyView| #[trigger] metrics.contains_key(k) implies exists|r: int|
        0 <= r < routes.len() && (#[trigger] routes[r]).key@ == k by {
        assert(entries_map(all).contains_key(k));
        let e = choose|e: int| 0 <= e < all.len() && (#[trigger] all[e]).0@ == k;
        let r = choose|r: int| 0 <= r < routes.len() && (#[trigger] routes[r]).key@ == all[e].0@;
        assert(routes[r].key@ == k);
    }
}

impl RouteHealthState {
    /// What was counted so far.
    pub fn metrics_snapshot(&self) -> (snapshot: RouteHealthSnapshot)
        ensures
            snapshot.connection_failures == self@.connection_failures,
            snapshot.route_switches == self@.route_switches,
            snapshot.successful_switches == self@.successful_switches,
            snapshot.flv_to_hls_switches == self@.flv_to_hls_switches,
            snapshot.successful_flv_to_hls_switches == self@.successful_flv_to_hls_switches,
            snapshot.flv_to_hls_connected_for@ == self@.flv_to_hls_connected_for,
            snapshot.all_routes_backoffs == self@.all_routes_backoffs,
            reports(snapshot.routes@, self@.metrics),
    {
        let entries = &self.metrics.entries;
        proof {
            use_type_invariant(&self.metrics);
            lemma_entries_map(entries@);
        }
        let ghost all = entries@;
        let mut routes: Vec<RouteMetricSnapshot> = Vec::new();
        let mut i: usize = 0;
        while i < entries.len()
            invariant
                i <= entries.len(),
                all == entries@,
                distinct_keys(all),
                reported(routes@, all, i as int),
            decreases entries.len() - i,
        {
            let metric: RouteRuntimeMetric = entries[i].1;
            let item = RouteMetricSnapshot {
                key: entries[i].0.clone(),
                attempts: metric.attempts,
                failures: metric.failures,
                stable_attempts: metric.stable_attempts,
                connected_for: metric.connected_for,
            };
            let mut at: usize = 0;
            while at < routes.len() && reports_before(&routes[at].key, &item.key)
                invariant
                    at <= routes.len(),
                    forall|k: int|
                        0 <= k < at ==> report_le((#[trigger] routes@[k]).key@, item.key@),
                decreases routes.len() - at,
            {
                at = at + 1;
            }
            let ghost before = routes@;
            proof {
                lemma_report_insert(before, item, at as int, all, i as int);
            }
            routes.insert(at, item);
            i = i + 1;
        }
        proof {
            lemma_reported_all(routes@, all);
            assert(self@.metrics =~= entries_map(all).map_values(|m: RouteRuntimeMetric| m@));
        }
        RouteHealthSnapshot {
            connection_failures: self.connection_failures,
            route_switches: self.route_switches,
            successful_switches: self.successful_switches,
            flv_to_hls_switches: self.flv_to_hls_switches,
            successful_flv_to_hls_switches: self.successful_flv_to_hls_switches,
            flv_to_hls_connected_for: self.flv_to_hls_connected_for,
            all_routes_backoffs: self.all_routes_backoffs,
            routes,
        }
    }
}

proof fn lemma_next_available(
    m: RouteHealthModel,
    candidates: Seq<StreamCandidate>,
    start: int,
    offset: int,
    now: int,
)
    requires
        0 <= start,
        0 <= offset,
    ensures
        next_available(m, candidates, start, offset, now) matches Some(at) ==> 0 <= at
            < candidates.len() && !route_cooling(m, candidate_key(candidates[at]), now),
        next_available(m, candidates, start, offset, now) is None ==> forall|k: int|
            offset <= k < candidates.len() ==> route_cooling(
                m,
                candidate_key(candidates[#[trigger] ((start + k) % (candidates.len() as int))]),
                now,
            ),
    decreases candidates.len() - offset,
{
    if offset < candidates.len() {
        lemma_next_available(m, candidates, start, offset + 1, now);
    }
}

/// Every position is reached by going round from `start`.
proof fn lemma_rotation_reaches(n: int, start: int, at: int)
    requires
        0 <= start <= n,
        0 <= at < n,
    ensures
        ({
            let k = if at >= start {
                at - start
            } else {
                at + n - start
            };
            0 <= k < n && (start + k) % n == at
        }),
{
    if at >= start {
        vstd::arithmetic::div_mod::lemma_small_mod(at as nat, n as nat);
    } else {
        vstd::arithmetic::div_mod::lemma_small_mod(at as nat, n as nat);
        vstd::arithmetic::div_mod::lemma_mod_add_multiples_vanish(at, n);
        assert(start + (at + n - start) == n + at);
    }
}

/// A route that is cooling down is never chosen, and no route is chosen only while every
/// candidate is cooling down; the wait is then the shortest of theirs, and not zero.
pub proof fn law_cooling_routes_are_left_alone(
    m: RouteHealthModel,
    candidates: Seq<StreamCandidate>,
    now: int,
)
    ensures
        chosen(m, candidates, now) matches Some(at) ==> 0 <= at < candidates.len()
            && !route_cooling(m, candidate_key(candidates[at]), now),
        chosen(m, candidates, now) is None <==> (forall|i: int|
            0 <= i < candidates.len() ==> route_cooling(
                m,
                candidate_key(#[trigger] candidates[i]),
                now,
            )),
        chosen(m, candidates, now) is None && candidates.len() > 0 ==> (shortest_wait(
            m,
            candidates,
            now,
        ) matches Some(wait) && wait > 0),
{
    let n = candidates.len() as int;
    match m.current {
        Some(current) => {
            lemma_position_is_first(candidates, current);
        },
        None => {},
    }
    let at = match m.current {
        Some(current) => key_position(candidates, current),
        None => n,
    };
    let start = if at < n {
        at + 1
    } else {
        0
    };
    lemma_next_available(m, candidates, start, 0, now);
    if chosen(m, candidates, now) is None {
        assert forall|i: int| 0 <= i < n implies route_cooling(
            m,
            candidate_key(#[trigger] candidates[i]),
            now,
        ) by {
            lemma_rotation_reaches(n, start, i);
            let k = if i >= start {
                i - start
            } else {
                i + n - start
            };
            assert(candidates[(start + k) % n] == candidates[i]);
        }
        lemma_shortest_wait(m, candidates, now);
    }
}

proof fn lemma_position_is_first(candidates: Seq<StreamCandidate>, key: KeyView)
    ensures
        0 <= key_position(candidates, key) <= candidates.len(),
        key_position(candidates, key) < candidates.len() ==> candidate_key(
            candidates[key_position(candidates, key)],
        ) == key,
    decreases candidates.len(),
{
    if candidates.len() > 0 && candidate_key(candidates[0]) != key {
        lemma_position_is_first(candidates.drop_first(), key);
    }
}

proof fn lemma_shortest_wait(m: RouteHealthModel, candidates: Seq<StreamCandidate>, now: int)
    requires
        forall|i: int|
            0 <= i < candidates.len() ==> route_cooling(
                m,
                candidate_key(#[trigger] candidates[i]),
                now,
            ),
    ensures
        candidates.len() > 0 ==> (shortest_wait(m, candidates, now) matches Some(wait) && wait > 0),
    decreases candidates.len(),
{
    if candidates.len() > 0 {
        let front = candidates.drop_last();
        assert forall|i: int| 0 <= i < front.len() implies route_cooling(
            m,
            candidate_key(#[trigger] front[i]),
            now,
        ) by {
            assert(front[i] == candidates[i]);
        }
        lemma_shortest_wait(m, front, now);
        assert(route_cooling(m, candidate_key(candidates[candidates.len() - 1]), now));
    }
}

/// A current route that is still offered and not cooling down is kept.
pub proof fn law_healthy_route_is_kept(
    m: RouteHealthModel,
    candidates: Seq<StreamCandidate>,
    now: int,
)
    requires
        m.current is Some,
        exists|i: int|
            0 <= i < candidates.len() && candidate_key(#[trigger] candidates[i]) == m.current->0,
        !route_cooling(m, m.current->0, now),
    ensures
        chosen(m, candidates, now) matches Some(at) && candidate_key(candidates[at])
            == m.current->0,
{
    let i = choose|i: int|
        0 <= i < candidates.len() && candidate_key(#[trigger] candidates[i]) == m.current->0;
    lemma_position_before(candidates, m.current->0, i);
    lemma_position_is_first(candidates, m.current->0);
}

proof fn lemma_position_before(candidates: Seq<StreamCandidate>, key: KeyView, at: int)
    requires
        0 <= at < candidates.len(),
        candidate_key(candidates[at]) == key,
    ensures
        key_position(candidates, key) <= at,
    decreases candidates.len(),
{
    if candidate_key(candidates[0]) != key {
        assert(candidates.drop_first()[at - 1] == candidates[at]);
        lemma_position_before(candidates.drop_first(), key, at - 1);
    }
}

/// The second counted failure of a route within the window opens its circuit: the route cools
/// down for exactly the cooldown.
pub proof fn law_second_failure_opens_the_circuit(
    m: RouteHealthModel,
    status: Option<DownloadStatus>,
    connected_for: int,
    now: int,
    later: int,
)
    requires
        m.enabled,
        m.current is Some,
        record_of(m, m.current->0).failures >= 1,
        record_of(m, m.current->0).last_failure matches Some(last) && now - last
            <= FAILURE_WINDOW_SECS * NANOS_PER_SEC,
        counted_failure(status),
        !refused_signature(status),
        !is_stable(connected_for, false),
    ensures
        ({
            let (after, update) = observed(m, status, connected_for, false, false, now);
            &&& update matches UpdateView::Failure { circuit_opened: true, .. }
            &&& route_cooling(after, m.current->0, later) <==> later < now + ROUTE_COOLDOWN_SECS
                * NANOS_PER_SEC
        }),
{
}

/// An attempt that was stable or produced something leaves its route with no failures behind
/// it: what it ends in counts as a first failure at most, and opens no circuit.
pub proof fn law_healing_clears_the_record(
    m: RouteHealthModel,
    status: Option<DownloadStatus>,
    connected_for: int,
    completed_configured_segment: bool,
    productive_attempt: bool,
    now: int,
)
    requires
        m.enabled,
        m.current is Some,
        status != Some(DownloadStatus::Cancelled),
        is_stable(connected_for, completed_configured_segment) || productive_attempt,
    ensures
        ({
            let (after, update) = observed(
                m,
                status,
                connected_for,
                completed_configured_segment,
                productive_attempt,
                now,
            );
            let record = record_of(after, m.current->0);
            &&& record.failures <= 1
            &&& record.cooldown_until is None
            &&& !(update matches UpdateView::Failure { circuit_opened: true, .. })
        }),
{
}

/// A route whose signature was refused is first refreshed; only a second refusal in a row
/// counts as a failure.
pub proof fn law_refused_signature_is_refreshed_first(
    m: RouteHealthModel,
    first: Option<DownloadStatus>,
    second: Option<DownloadStatus>,
    now: int,
    later: int,
)
    requires
        m.enabled,
        m.current is Some,
        !record_of(m, m.current->0).auth_refresh_pending,
        refused_signature(first),
        refused_signature(second),
    ensures
        ({
            let (middle, update) = observed(m, first, 0, false, false, now);
            let (_, repeated) = observed(middle, second, 0, false, false, later);
            &&& update == (UpdateView::AuthRefresh { key: m.current->0 })
            &&& middle.connection_failures == m.connection_failures
            &&& repeated is Failure
        }),
{
}

/// The signature is no part of the key: two candidates that differ in nothing but the query of
/// their addresses have the same key, so a route keeps its history when the signature is
/// refreshed. This holds of every two texts that are addresses; blanks and control characters
/// around a text are no part of the address. Another codec makes another key, unless only the case
/// of its letters differs.
pub proof fn law_signature_is_no_part_of_the_key(
    a: StreamCandidate,
    key_a: KeyView,
    b: StreamCandidate,
    key_b: KeyView,
)
    requires
        keyed(a, key_a),
        keyed(b, key_b),
        is_address(a.url@),
        is_address(b.url@),
        query_taken_off(a.url@) == query_taken_off(b.url@),
        opt_view(a.host) == opt_view(b.host),
        a.protocol == b.protocol,
        opt_view(a.quality) == opt_view(b.quality),
    ensures
        opt_view(a.codec) == opt_view(b.codec) ==> key_a == key_b,
        key_a == key_b <==> lower_opt(opt_view(a.codec)) == lower_opt(opt_view(b.codec)),
{
    law_the_query_leaves_the_host_alone(
        a.url@,
        url_host(a.url@),
        b.url@,
        url_host(b.url@),
    );
}

} // verus!
