//! Health of the cookies of each platform: which failures count, when a platform is declared
//! unhealthy, and what is then sent where.
pub use crate::redaction::redact_sensitive;
use crate::redaction::redacted_text;
use crate::text::{
    contains, contains_text, decimal, decimal_text, first_chars, lower_spec, opt_view, own,
    replace, replace_spec, str_eq, take_chars, text_at_or_before, text_le, to_ascii_lowercase,
    trim_spec, trim_str,
};
use crate::urls::{percent_encode, percent_encoded};
use vstd::prelude::*;
use vstd::string::*;

verus! {

/// Counted failures in a row from which a platform is unhealthy.
pub const UNHEALTHY_THRESHOLD: u32 = 3;

/// Milliseconds after an error within which a further one is not counted.
pub const ERROR_DEBOUNCE_MS: i64 = 15_000;

/// The most characters of an error that are kept.
pub const ERROR_CHARS: usize = 300;

/// The quality below which an alert is sent, where none is set.
pub const DEFAULT_QUALITY_ALERT: &'static str = "uhd";

/// What kind of failure a check ended in.
#[derive(Clone, Copy, Debug, PartialEq, Eq, Structural)]
pub enum HealthErrorKind {
    Authentication,
    Transport,
    Server,
    InvalidResponse,
}

/// Whether a text speaks of a refused login.
pub open spec fn speaks_of_authentication(lower: Seq<char>) -> bool {
    ||| contains_text(lower, "401"@)
    ||| contains_text(lower, "403"@)
    ||| contains_text(lower, "unauthorized"@)
    ||| contains_text(lower, "forbidden"@)
    ||| contains_text(lower, "login expired"@)
    ||| contains_text(lower, "session invalid"@)
    ||| contains_text(lower, "风控"@)
    ||| contains_text(lower, "登录态"@)
}

/// Whether a text speaks of a broken connection.
pub open spec fn speaks_of_transport(lower: Seq<char>) -> bool {
    ||| contains_text(lower, "timeout"@)
    ||| contains_text(lower, "timed out"@)
    ||| contains_text(lower, "dns"@)
    ||| contains_text(lower, "certificate"@)
    ||| contains_text(lower, "connection"@)
    ||| contains_text(lower, "reset"@)
    ||| contains_text(lower, "network"@)
}

/// Whether a text names a status of the five hundreds.
pub open spec fn speaks_of_server(lower: Seq<char>) -> bool {
    exists|status: int| 500 <= status <= 599 && contains_text(lower, #[trigger] decimal(status as nat))
}

/// The kind of a failure, read off its text: a refused login before a broken connection before
/// a failing server.
pub open spec fn error_kind(error: Seq<char>) -> HealthErrorKind {
    let lower = lower_spec(error);
    if speaks_of_authentication(lower) {
        HealthErrorKind::Authentication
    } else if speaks_of_transport(lower) {
        HealthErrorKind::Transport
    } else if speaks_of_server(lower) {
        HealthErrorKind::Server
    } else {
        HealthErrorKind::InvalidResponse
    }
}

/// The kind of a failure, read off its text.
pub fn classify_error(error: &str) -> (kind: HealthErrorKind)
    ensures
        kind == error_kind(error@),
{
    let lowered: String = to_ascii_lowercase(error);
    let lower: &str = lowered.as_str();
    if contains(lower, "401") || contains(lower, "403") || contains(lower, "unauthorized")
        || contains(lower, "forbidden") || contains(lower, "login expired") || contains(
        lower,
        "session invalid",
    ) || contains(lower, "风控") || contains(lower, "登录态") {
        HealthErrorKind::Authentication
    } else if contains(lower, "timeout") || contains(lower, "timed out") || contains(lower, "dns")
        || contains(lower, "certificate") || contains(lower, "connection") || contains(
        lower,
        "reset",
    ) || contains(lower, "network") {
        HealthErrorKind::Transport
    } else {
        let mut status: u128 = 500;
        while status <= 599
            invariant
                500 <= status <= 600,
                lower@ == lower_spec(error@),
                !speaks_of_authentication(lower@),
                !speaks_of_transport(lower@),
                forall|k: int|
                    500 <= k < status ==> !contains_text(lower@, #[trigger] decimal(k as nat)),
            decreases 600 - status,
        {
            let digits: String = decimal_text(status);
            if contains(lower, digits.as_str()) {
                proof {
                    let named: int = status as int;
                    assert(500 <= named <= 599 && contains_text(lower@, decimal(named as nat)));
                    assert(speaks_of_server(lower@));
                }
                return HealthErrorKind::Server;
            }
            status = status + 1;
        }
        HealthErrorKind::InvalidResponse
    }
}

/// The health of the cookie of one platform. Times are milliseconds since the epoch.
#[derive(Debug, PartialEq, Eq)]
pub struct PlatformHealth {
    pub platform: String,
    pub unhealthy: bool,
    pub consecutive_errors: u32,
    pub last_ok_ms: Option<i64>,
    pub last_error: Option<String>,
    pub last_error_ms: Option<i64>,
    pub since_ms: Option<i64>,
    pub last_error_kind: Option<HealthErrorKind>,
    pub authentication_errors: u64,
    pub transport_errors: u64,
    pub server_errors: u64,
    pub invalid_response_errors: u64,
}

/// The health of the cookie of one platform, as mathematical values.
pub struct HealthView {
    pub platform: Seq<char>,
    pub unhealthy: bool,
    pub consecutive_errors: int,
    pub last_ok_ms: Option<i64>,
    pub last_error: Option<Seq<char>>,
    pub last_error_ms: Option<i64>,
    pub since_ms: Option<i64>,
    pub last_error_kind: Option<HealthErrorKind>,
    pub authentication_errors: int,
    pub transport_errors: int,
    pub server_errors: int,
    pub invalid_response_errors: int,
}

impl View for PlatformHealth {
    type V = HealthView;

    open spec fn view(&self) -> HealthView {
        HealthView {
            platform: self.platform@,
            unhealthy: self.unhealthy,
            consecutive_errors: self.consecutive_errors as int,
            last_ok_ms: self.last_ok_ms,
            last_error: opt_view(self.last_error),
            last_error_ms: self.last_error_ms,
            since_ms: self.since_ms,
            last_error_kind: self.last_error_kind,
            authentication_errors: self.authentication_errors as int,
            transport_errors: self.transport_errors as int,
            server_errors: self.server_errors as int,
            invalid_response_errors: self.invalid_response_errors as int,
        }
    }
}

/// The health of a platform that was never checked.
pub open spec fn unchecked_health(platform: Seq<char>) -> HealthView {
    HealthView {
        platform,
        unhealthy: false,
        consecutive_errors: 0,
        last_ok_ms: None,
        last_error: None,
        last_error_ms: None,
        since_ms: None,
        last_error_kind: None,
        authentication_errors: 0,
        transport_errors: 0,
        server_errors: 0,
        invalid_response_errors: 0,
    }
}

impl Clone for PlatformHealth {
    fn clone(&self) -> (copied: PlatformHealth)
        ensures
            copied == *self,
    {
        PlatformHealth {
            platform: self.platform.clone(),
            unhealthy: self.unhealthy,
            consecutive_errors: self.consecutive_errors,
            last_ok_ms: self.last_ok_ms,
            last_error: crate::text::opt_own(&self.last_error),
            last_error_ms: self.last_error_ms,
            since_ms: self.since_ms,
            last_error_kind: self.last_error_kind,
            authentication_errors: self.authentication_errors,
            transport_errors: self.transport_errors,
            server_errors: self.server_errors,
            invalid_response_errors: self.invalid_response_errors,
        }
    }
}

/// The health after a check that succeeded at `now`.
pub open spec fn after_success(h: HealthView, now: i64) -> HealthView {
    HealthView {
        last_ok_ms: Some(now),
        consecutive_errors: 0,
        last_error: None,
        last_error_kind: None,
        unhealthy: false,
        since_ms: None,
        ..h
    }
}

/// One more than a count, cut off at `u64::MAX`.
pub open spec fn counted(count: int) -> int {
    if count < u64::MAX {
        count + 1
    } else {
        u64::MAX as int
    }
}

/// Whether an error at `now` follows another so closely that it is not counted.
pub open spec fn debounced(h: HealthView, now: i64) -> bool {
    h.last_error_ms matches Some(t) && now - t < ERROR_DEBOUNCE_MS
}

/// Whether an error of `kind` at `now` counts towards the health of the cookie.
pub open spec fn counts(h: HealthView, kind: HealthErrorKind, now: i64) -> bool {
    kind is Authentication && !debounced(h, now)
}

/// The number of counted failures in a row after a counted one.
pub open spec fn failures_in_a_row(h: HealthView) -> int {
    if h.consecutive_errors < u32::MAX {
        h.consecutive_errors + 1
    } else {
        u32::MAX as int
    }
}

/// Whether an error of `kind` at `now` makes the platform unhealthy.
pub open spec fn becomes_unhealthy(h: HealthView, kind: HealthErrorKind, now: i64) -> bool {
    counts(h, kind, now) && !h.unhealthy && failures_in_a_row(h) >= UNHEALTHY_THRESHOLD
}

/// The health after a check that failed at `now` with `error`.
pub open spec fn after_error(h: HealthView, error: Seq<char>, now: i64) -> HealthView {
    let kind = error_kind(error);
    let falls = becomes_unhealthy(h, kind, now);
    HealthView {
        last_error: Some(first_chars(error, ERROR_CHARS as int)),
        last_error_kind: Some(kind),
        last_error_ms: Some(now),
        authentication_errors: if kind is Authentication {
            counted(h.authentication_errors)
        } else {
            h.authentication_errors
        },
        transport_errors: if kind is Transport {
            counted(h.transport_errors)
        } else {
            h.transport_errors
        },
        server_errors: if kind is Server {
            counted(h.server_errors)
        } else {
            h.server_errors
        },
        invalid_response_errors: if kind is InvalidResponse {
            counted(h.invalid_response_errors)
        } else {
            h.invalid_response_errors
        },
        consecutive_errors: if counts(h, kind, now) {
            failures_in_a_row(h)
        } else {
            h.consecutive_errors
        },
        unhealthy: h.unhealthy || falls,
        since_ms: if falls {
            Some(now)
        } else {
            h.since_ms
        },
        ..h
    }
}

/// Whether the state and the count of a platform agree: it is unhealthy exactly from the
/// threshold on, and then it is known since when. An error is held together with its kind, and
/// with the time of the last one.
pub open spec fn health_consistent(h: HealthView) -> bool {
    &&& h.consecutive_errors >= 0
    &&& h.unhealthy <==> h.consecutive_errors >= UNHEALTHY_THRESHOLD
    &&& h.unhealthy <==> h.since_ms is Some
    &&& h.last_error is Some <==> h.last_error_kind is Some
    &&& h.last_error is Some ==> h.last_error_ms is Some
}

/// A message to the user.
#[derive(Debug, PartialEq, Eq)]
pub struct Alert {
    pub title: String,
    pub content: String,
}

/// What is reported of a failed check.
#[derive(Debug, PartialEq, Eq)]
pub struct ErrorReport {
    pub kind: HealthErrorKind,
    /// Whether the failure is reported at all: a repeat that is not counted is not.
    pub reported: bool,
    /// The failures in a row, where they made the platform unhealthy.
    pub became_unhealthy: Option<u32>,
    /// The message to send, where the platform became unhealthy.
    pub alert: Option<Alert>,
}

/// The name of a platform for the user.
pub open spec fn display_spec(platform: Seq<char>) -> Seq<char> {
    if platform == "Douyin"@ {
        "抖音"@
    } else {
        platform
    }
}

/// The name of a platform for the user.
pub fn display(platform: &str) -> (name: &str)
    ensures
        name@ == display_spec(platform@),
{
    if str_eq(platform, "Douyin") {
        "抖音"
    } else {
        platform
    }
}

/// The title of the message that a cookie works again.
pub open spec fn recovered_title(platform: Seq<char>) -> Seq<char> {
    "✅ "@ + display_spec(platform) + " cookie 已恢复正常"@
}

/// The message that a cookie works again.
pub open spec fn recovered_content(platform: Seq<char>) -> Seq<char> {
    display_spec(platform) + " 直播间检查恢复成功，cookie 工作正常。"@
}

/// The title of the message that a cookie seems to be refused.
pub open spec fn failed_title(platform: Seq<char>) -> Seq<char> {
    "⚠️ "@ + display_spec(platform) + " cookie 鉴权连续失败"@
}

/// The message that a cookie seems to be refused.
pub open spec fn failed_content(platform: Seq<char>, error: Seq<char>) -> Seq<char> {
    display_spec(platform)
        + " 直播间连续检查失败，建议尽快更换 cookie（sessionid）。最近错误："@ + error
}

fn recovered_alert(platform: &str) -> (alert: Alert)
    ensures
        alert.title@ == recovered_title(platform@),
        alert.content@ == recovered_content(platform@),
{
    let mut title: String = own("✅ ");
    title.append(display(platform));
    title.append(" cookie 已恢复正常");
    let mut content: String = own(display(platform));
    content.append(" 直播间检查恢复成功，cookie 工作正常。");
    Alert { title, content }
}

fn failed_alert(platform: &str, error: &str) -> (alert: Alert)
    ensures
        alert.title@ == failed_title(platform@),
        alert.content@ == failed_content(platform@, error@),
{
    let mut title: String = own("⚠️ ");
    title.append(display(platform));
    title.append(" cookie 鉴权连续失败");
    let mut content: String = own(display(platform));
    content.append(
        " 直播间连续检查失败，建议尽快更换 cookie（sessionid）。最近错误：",
    );
    content.append(error);
    Alert { title, content }
}

/// Whether `report` is what is reported of a check of `platform` that failed at `now` with `error`,
/// where the health was `before`.
pub open spec fn reports_error(
    report: ErrorReport,
    before: HealthView,
    platform: Seq<char>,
    error: Seq<char>,
    now: i64,
) -> bool {
    let kind = error_kind(error);
    &&& report.kind == kind
    &&& report.reported == (!(kind is Authentication) || counts(before, kind, now))
    &&& report.became_unhealthy == (if becomes_unhealthy(before, kind, now) {
        Some(failures_in_a_row(before) as u32)
    } else {
        None
    })
    &&& report.alert is Some <==> becomes_unhealthy(before, kind, now)
    &&& report.alert matches Some(a) ==> a.title@ == failed_title(platform) && a.content@
        == failed_content(platform, error)
}

/// The health of every platform that was checked.
pub struct CookieHealth {
    platforms: Vec<PlatformHealth>,
}

spec fn platform_map(platforms: Seq<PlatformHealth>) -> Map<Seq<char>, HealthView>
    decreases platforms.len(),
{
    if platforms.len() == 0 {
        Map::empty()
    } else {
        platform_map(platforms.drop_last()).insert(platforms.last().platform@, platforms.last()@)
    }
}

spec fn distinct_platforms(platforms: Seq<PlatformHealth>) -> bool {
    forall|i: int, j: int|
        0 <= i < j < platforms.len() ==> (#[trigger] platforms[i]).platform@ != (
        #[trigger] platforms[j]).platform@
}

spec fn all_consistent(platforms: Seq<PlatformHealth>) -> bool {
    forall|i: int| 0 <= i < platforms.len() ==> health_consistent((#[trigger] platforms[i])@)
}

proof fn lemma_platform_map(platforms: Seq<PlatformHealth>)
    requires
        distinct_platforms(platforms),
    ensures
        forall|i: int|
            0 <= i < platforms.len() ==> platform_map(platforms).contains_key(
                (#[trigger] platforms[i]).platform@,
            ) && platform_map(platforms)[platforms[i].platform@] == platforms[i]@,
        forall|k: Seq<char>| #[trigger]
            platform_map(platforms).contains_key(k) ==> exists|i: int|
                0 <= i < platforms.len() && (#[trigger] platforms[i]).platform@ == k,
    decreases platforms.len(),
{
    if platforms.len() > 0 {
        let front = platforms.drop_last();
        assert forall|i: int, j: int| 0 <= i < j < front.len() implies (
        #[trigger] front[i]).platform@ != (#[trigger] front[j]).platform@ by {
            assert(platforms[i] == front[i] && platforms[j] == front[j]);
        }
        lemma_platform_map(front);
        assert forall|i: int| 0 <= i < platforms.len() implies platform_map(platforms).contains_key(
            (#[trigger] platforms[i]).platform@,
        ) && platform_map(platforms)[platforms[i].platform@] == platforms[i]@ by {
            if i < front.len() {
                assert(front[i] == platforms[i]);
                assert(platforms[i].platform@ != platforms[platforms.len() - 1].platform@);
            }
        }
        assert forall|k: Seq<char>| #[trigger]
            platform_map(platforms).contains_key(k) implies exists|i: int|
            0 <= i < platforms.len() && (#[trigger] platforms[i]).platform@ == k by {
            if k == platforms.last().platform@ {
                assert(platforms[platforms.len() - 1].platform@ == k);
            } else {
                assert(platform_map(front).contains_key(k));
                let i = choose|i: int|
                    0 <= i < front.len() && (#[trigger] front[i]).platform@ == k;
                assert(platforms[i].platform@ == k);
            }
        }
    }
}

proof fn lemma_platform_update(platforms: Seq<PlatformHealth>, at: int, health: PlatformHealth)
    requires
        distinct_platforms(platforms),
        0 <= at < platforms.len(),
        health.platform@ == platforms[at].platform@,
    ensures
        distinct_platforms(platforms.update(at, health)),
        platform_map(platforms.update(at, health)) == platform_map(platforms).insert(
            health.platform@,
            health@,
        ),
{
    let after = platforms.update(at, health);
    assert forall|i: int, j: int| 0 <= i < j < after.len() implies (#[trigger] after[i]).platform@
        != (#[trigger] after[j]).platform@ by {
        assert(platforms[i].platform@ != platforms[j].platform@);
    }
    lemma_platform_map(platforms);
    lemma_platform_map(after);
    let expected = platform_map(platforms).insert(health.platform@, health@);
    assert forall|k: Seq<char>| platform_map(after).contains_key(k) implies expected.contains_key(
        k,
    ) by {
        let i = choose|i: int| 0 <= i < after.len() && (#[trigger] after[i]).platform@ == k;
        assert(platforms[i].platform@ == k);
    }
    assert forall|k: Seq<char>| expected.contains_key(k) implies #[trigger] platform_map(
        after,
    ).contains_key(k) && platform_map(after)[k] == expected[k] by {
        if k == health.platform@ {
            assert(after[at].platform@ == k);
        } else {
            let i = choose|i: int|
                0 <= i < platforms.len() && (#[trigger] platforms[i]).platform@ == k;
            assert(after[i] == platforms[i]);
        }
    }
    assert(platform_map(after) =~= expected);
}

impl View for CookieHealth {
    type V = Map<Seq<char>, HealthView>;

    closed spec fn view(&self) -> Map<Seq<char>, HealthView> {
        platform_map(self.platforms@)
    }
}

/// The health of `platform`, as of a platform that was never checked where nothing is known.
pub open spec fn health_of(map: Map<Seq<char>, HealthView>, platform: Seq<char>) -> HealthView {
    if map.contains_key(platform) {
        map[platform]
    } else {
        unchecked_health(platform)
    }
}

impl CookieHealth {
    #[verifier::type_invariant]
    spec fn platforms_agree(self) -> bool {
        distinct_platforms(self.platforms@) && all_consistent(self.platforms@)
    }

    /// No platform was checked yet.
    pub fn new() -> (health: CookieHealth)
        ensures
            health@ == Map::<Seq<char>, HealthView>::empty(),
    {
        CookieHealth { platforms: Vec::new() }
    }

    /// What is known of `platform`: a copy, and where it stands.
    fn entry(&self, platform: &str) -> (found: (PlatformHealth, Option<usize>))
        ensures
            found.0@ == health_of(self@, platform@),
            found.0.platform@ == platform@,
            health_consistent(found.0@),
            found.1 matches Some(i) ==> i < self.platforms@.len()
                && self.platforms@[i as int].platform@ == platform@,
            found.1 is None ==> forall|i: int|
                0 <= i < self.platforms@.len() ==> (#[trigger] self.platforms@[i]).platform@
                    != platform@,
    {
        proof {
            use_type_invariant(self);
            lemma_platform_map(self.platforms@);
        }
        let mut i: usize = 0;
        while i < self.platforms.len()
            invariant
                i <= self.platforms.len(),
                distinct_platforms(self.platforms@),
                all_consistent(self.platforms@),
                forall|k: int|
                    0 <= k < i ==> (#[trigger] self.platforms@[k]).platform@ != platform@,
            decreases self.platforms.len() - i,
        {
            if str_eq(self.platforms[i].platform.as_str(), platform) {
                proof {
                    lemma_platform_map(self.platforms@);
                }
                return (self.platforms[i].clone(), Some(i));
            }
            i = i + 1;
        }
        let fresh = PlatformHealth {
            platform: own(platform),
            unhealthy: false,
            consecutive_errors: 0,
            last_ok_ms: None,
            last_error: None,
            last_error_ms: None,
            since_ms: None,
            last_error_kind: None,
            authentication_errors: 0,
            transport_errors: 0,
            server_errors: 0,
            invalid_response_errors: 0,
        };
        (fresh, None)
    }

    fn store(&mut self, health: PlatformHealth, at: Option<usize>)
        requires
            health_consistent(health@),
            at matches Some(i) ==> i < old(self).platforms@.len() && old(
                self,
            ).platforms@[i as int].platform@ == health.platform@,
            at is None ==> forall|i: int|
                0 <= i < old(self).platforms@.len() ==> (#[trigger] old(
                    self,
                ).platforms@[i]).platform@ != health.platform@,
        ensures
            final(self)@ == old(self)@.insert(health.platform@, health@),
    {
        proof {
            use_type_invariant(&*self);
        }
        let mut platforms: Vec<PlatformHealth> = Vec::new();
        std::mem::swap(&mut platforms, &mut self.platforms);
        let ghost before = platforms@;
        match at {
            Some(i) => {
                proof {
                    lemma_platform_update(before, i as int, health);
                }
                platforms.set(i, health);
            },
            None => {
                platforms.push(health);
                assert(platforms@.drop_last() =~= before);
            },
        }
        self.platforms = platforms;
    }

    /// Records a check of `platform` that succeeded at `now`; the message to send where the
    /// cookie works again.
    pub fn record_success(&mut self, platform: &str, now: i64) -> (alert: Option<Alert>)
        ensures
            final(self)@ == old(self)@.insert(
                platform@,
                after_success(health_of(old(self)@, platform@), now),
            ),
            health_consistent(final(self)@[platform@]),
            final(self)@[platform@].since_ms is None,
            alert is Some <==> health_of(old(self)@, platform@).unhealthy,
            alert matches Some(a) ==> a.title@ == recovered_title(platform@) && a.content@
                == recovered_content(platform@),
    {
        let (mut health, at): (PlatformHealth, Option<usize>) = self.entry(platform);
        health.last_ok_ms = Some(now);
        health.consecutive_errors = 0;
        health.last_error = None;
        health.last_error_kind = None;
        let recovered: bool = health.unhealthy;
        if recovered {
            health.unhealthy = false;
            health.since_ms = None;
        }
        assert(health@ == after_success(health_of(old(self)@, platform@), now));
        self.store(health, at);
        if recovered {
            Some(recovered_alert(platform))
        } else {
            None
        }
    }

    /// Records a check of `platform` that failed at `now` with `error`, which holds no
    /// credentials.
    pub fn record_redacted_error(&mut self, platform: &str, error: &str, now: i64) -> (report:
        ErrorReport)
        ensures
            final(self)@ == old(self)@.insert(
                platform@,
                after_error(health_of(old(self)@, platform@), error@, now),
            ),
            health_consistent(final(self)@[platform@]),
            reports_error(report, health_of(old(self)@, platform@), platform@, error@, now),
    {
        let kind: HealthErrorKind = classify_error(error);
        let (mut health, at): (PlatformHealth, Option<usize>) = self.entry(platform);
        let ghost before = health@;
        health.last_error = Some(take_chars(error, ERROR_CHARS));
        health.last_error_kind = Some(kind);
        match kind {
            HealthErrorKind::Authentication => {
                health.authentication_errors = health.authentication_errors.saturating_add(1);
            },
            HealthErrorKind::Transport => {
                health.transport_errors = health.transport_errors.saturating_add(1);
            },
            HealthErrorKind::Server => {
                health.server_errors = health.server_errors.saturating_add(1);
            },
            HealthErrorKind::InvalidResponse => {
                health.invalid_response_errors = health.invalid_response_errors.saturating_add(1);
            },
        }
        let repeated: bool = match health.last_error_ms {
            Some(t) => (now as i128 - t as i128) < ERROR_DEBOUNCE_MS as i128,
            None => false,
        };
        health.last_error_ms = Some(now);
        let is_authentication: bool = match kind {
            HealthErrorKind::Authentication => true,
            _ => false,
        };
        let mut fell: bool = false;
        if is_authentication && !repeated {
            health.consecutive_errors = health.consecutive_errors.saturating_add(1);
            if !health.unhealthy && health.consecutive_errors >= UNHEALTHY_THRESHOLD {
                health.unhealthy = true;
                health.since_ms = Some(now);
                fell = true;
            }
        }
        let in_a_row: u32 = health.consecutive_errors;
        assert(health@ == after_error(before, error@, now));
        self.store(health, at);
        ErrorReport {
            kind,
            reported: !is_authentication || !repeated,
            became_unhealthy: if fell {
                Some(in_a_row)
            } else {
                None
            },
            alert: if fell {
                Some(failed_alert(platform, error))
            } else {
                None
            },
        }
    }

    /// Records a check of `platform` that failed at `now`; credentials are taken out of `error`
    /// before anything is made of it.
    pub fn record_error_at(&mut self, platform: &str, error: &str, now: i64) -> (report:
        ErrorReport)
        ensures
            final(self)@ == old(self)@.insert(
                platform@,
                after_error(health_of(old(self)@, platform@), redacted_text(error@), now),
            ),
            health_consistent(final(self)@[platform@]),
            reports_error(
                report,
                health_of(old(self)@, platform@),
                platform@,
                redacted_text(error@),
                now,
            ),
    {
        let redacted: String = redact_sensitive(error);
        self.record_redacted_error(platform, redacted.as_str(), now)
    }

    /// Records a check of `platform` that failed, where the clock shows `now`.
    pub fn record_error(&mut self, platform: &str, error: &str, now: i64) -> (report: ErrorReport)
        ensures
            final(self)@ == old(self)@.insert(
                platform@,
                after_error(health_of(old(self)@, platform@), redacted_text(error@), now),
            ),
            health_consistent(final(self)@[platform@]),
            reports_error(
                report,
                health_of(old(self)@, platform@),
                platform@,
                redacted_text(error@),
                now,
            ),
    {
        self.record_error_at(platform, error, now)
    }

    /// The health of every platform that was checked, by platform.
    pub fn snapshot(&self) -> (platforms: Vec<PlatformHealth>)
        ensures
            forall|i: int|
                0 <= i < platforms@.len() ==> self@.contains_key(
                    (#[trigger] platforms@[i]).platform@,
                ) && self@[platforms@[i].platform@] == platforms@[i]@ && health_consistent(
                    platforms@[i]@,
                ),
            forall|k: Seq<char>| #[trigger]
                self@.contains_key(k) ==> exists|i: int|
                    0 <= i < platforms@.len() && (#[trigger] platforms@[i]).platform@ == k,
            forall|i: int, j: int|
                0 <= i < j < platforms@.len() ==> text_le(
                    (#[trigger] platforms@[i]).platform@,
                    (#[trigger] platforms@[j]).platform@,
                ) && platforms@[i].platform@ != platforms@[j].platform@,
    {
        proof {
            use_type_invariant(self);
            lemma_platform_map(self.platforms@);
        }
        let ghost all = self.platforms@;
        let mut sorted: Vec<PlatformHealth> = Vec::new();
        let mut i: usize = 0;
        while i < self.platforms.len()
            invariant
                i <= self.platforms.len(),
                all == self.platforms@,
                distinct_platforms(all),
                all_consistent(all),
                listed(sorted@, all, i as int),
            decreases self.platforms.len() - i,
        {
            let item: PlatformHealth = self.platforms[i].clone();
            let mut at: usize = 0;
            while at < sorted.len() && text_at_or_before(
                sorted[at].platform.as_str(),
                item.platform.as_str(),
            )
                invariant
                    at <= sorted.len(),
                    forall|k: int|
                        0 <= k < at ==> text_le((#[trigger] sorted@[k]).platform@, item.platform@),
                decreases sorted.len() - at,
            {
                at = at + 1;
            }
            proof {
                lemma_listed_insert(sorted@, item, at as int, all, i as int);
            }
            sorted.insert(at, item);
            i = i + 1;
        }
        proof {
            assert forall|r: int| 0 <= r < sorted@.len() implies self@.contains_key(
                (#[trigger] sorted@[r]).platform@,
            ) && self@[sorted@[r].platform@] == sorted@[r]@ && health_consistent(sorted@[r]@) by {
                assert(listed_from(sorted@[r], all, all.len() as int));
                let e = choose|e: int| 0 <= e < all.len() && #[trigger] all[e] == sorted@[r];
                assert(platform_map(all).contains_key(all[e].platform@));
            }
            assert forall|k: Seq<char>| #[trigger] self@.contains_key(k) implies exists|r: int|
                0 <= r < sorted@.len() && (#[trigger] sorted@[r]).platform@ == k by {
                assert(platform_map(all).contains_key(k));
                let e = choose|e: int| 0 <= e < all.len() && (#[trigger] all[e]).platform@ == k;
                let r = choose|r: int| 0 <= r < sorted@.len() && #[trigger] sorted@[r] == all[e];
                assert(sorted@[r].platform@ == k);
            }
        }
        sorted
    }
}

spec fn listed_from(health: PlatformHealth, all: Seq<PlatformHealth>, n: int) -> bool {
    exists|e: int| 0 <= e < n && #[trigger] all[e] == health
}

spec fn listed(sorted: Seq<PlatformHealth>, all: Seq<PlatformHealth>, n: int) -> bool {
    &&& forall|r: int| 0 <= r < sorted.len() ==> #[trigger] listed_from(sorted[r], all, n)
    &&& forall|e: int|
        0 <= e < n ==> exists|r: int|
            0 <= r < sorted.len() && #[trigger] sorted[r] == (#[trigger] all[e])
    &&& forall|a: int, b: int|
        0 <= a < b < sorted.len() ==> text_le(
            (#[trigger] sorted[a]).platform@,
            (#[trigger] sorted[b]).platform@,
        ) && sorted[a].platform@ != sorted[b].platform@
}

proof fn lemma_listed_insert(
    before: Seq<PlatformHealth>,
    item: PlatformHealth,
    at: int,
    all: Seq<PlatformHealth>,
    n: int,
)
    requires
        0 <= n < all.len(),
        0 <= at <= before.len(),
        distinct_platforms(all),
        listed(before, all, n),
        item == all[n],
        forall|k: int|
            0 <= k < at ==> text_le((#[trigger] before[k]).platform@, item.platform@),
        at < before.len() ==> !text_le(before[at].platform@, item.platform@),
    ensures
        listed(before.insert(at, item), all, n + 1),
{
    let after = before.insert(at, item);
    assert forall|r: int| 0 <= r < after.len() implies #[trigger] listed_from(
        after[r],
        all,
        n + 1,
    ) by {
        if r == at {
            assert(all[n] == after[r]);
        } else {
            let source = if r < at {
                r
            } else {
                r - 1
            };
            assert(after[r] == before[source]);
            assert(listed_from(before[source], all, n));
        }
    }
    assert forall|e: int| 0 <= e < n + 1 implies exists|r: int|
        0 <= r < after.len() && #[trigger] after[r] == (#[trigger] all[e]) by {
        if e == n {
            assert(after[at] == all[e]);
        } else {
            let r = choose|r: int| 0 <= r < before.len() && #[trigger] before[r] == all[e];
            let target = if r < at {
                r
            } else {
                r + 1
            };
            assert(after[target] == before[r]);
        }
    }
    assert forall|k: int| 0 <= k < before.len() implies (#[trigger] before[k]).platform@
        != item.platform@ by {
        assert(listed_from(before[k], all, n));
        let e = choose|e: int| 0 <= e < n && #[trigger] all[e] == before[k];
        assert(all[e].platform@ != all[n].platform@);
    }
    assert forall|k: int| at <= k < before.len() implies text_le(
        item.platform@,
        (#[trigger] before[k]).platform@,
    ) by {
        crate::text::lemma_text_le_total(before[at].platform@, item.platform@);
        if k > at {
            assert(text_le(before[at].platform@, before[k].platform@));
            crate::text::lemma_text_le_transitive(
                item.platform@,
                before[at].platform@,
                before[k].platform@,
            );
        }
    }
    assert forall|a: int, b: int| 0 <= a < b < after.len() implies text_le(
        (#[trigger] after[a]).platform@,
        (#[trigger] after[b]).platform@,
    ) && after[a].platform@ != after[b].platform@ by {
        if a < at {
            assert(after[a] == before[a]);
        } else if a > at {
            assert(after[a] == before[a - 1]);
        }
        if b < at {
            assert(after[b] == before[b]);
        } else if b > at {
            assert(after[b] == before[b - 1]);
        }
    }
}

/// What is sent to a webhook.
#[derive(Debug, PartialEq, Eq)]
pub enum WebhookRequest {
    /// A text message of a chat robot, posted as JSON.
    PostText { url: String, text: String, dingtalk: bool },
    /// The title and the content put into the address, which is fetched.
    Get { url: String },
    /// The title and the content, posted as JSON.
    PostJson { url: String, title: String, content: String },
}

/// Whether `request` carries the message to `url`: DingTalk and WeCom get a text message (that
/// for DingTalk begins with the keyword its robots ask for), an address with places for title
/// and content is filled in and fetched, any other gets JSON.
pub open spec fn carries(
    request: WebhookRequest,
    url: Seq<char>,
    title: Seq<char>,
    content: Seq<char>,
) -> bool {
    if contains_text(url, "oapi.dingtalk.com"@) {
        request matches WebhookRequest::PostText { url: u, text, dingtalk } && u@ == url && text@
            == "【biliup】"@ + title + "\n"@ + content && dingtalk
    } else if contains_text(url, "qyapi.weixin.qq.com"@) {
        request matches WebhookRequest::PostText { url: u, text, dingtalk } && u@ == url && text@
            == title + "\n"@ + content && !dingtalk
    } else if contains_text(url, "{title}"@) || contains_text(url, "{content}"@) {
        request matches WebhookRequest::Get { url: u } && u@ == replace_spec(
            replace_spec(url, "{title}"@, percent_encoded(title)),
            "{content}"@,
            percent_encoded(content),
        )
    } else {
        request matches WebhookRequest::PostJson { url: u, title: t, content: c } && u@ == url
            && t@ == title && c@ == content
    }
}

/// What is sent to the webhook at `url`.
pub fn webhook_request(url: &str, title: &str, content: &str) -> (request: WebhookRequest)
    ensures
        carries(request, url@, title@, content@),
{
    proof {
        reveal_strlit("{title}");
        reveal_strlit("{content}");
    }
    if contains(url, "oapi.dingtalk.com") {
        let mut text: String = own("【biliup】");
        text.append(title);
        text.append("\n");
        text.append(content);
        WebhookRequest::PostText { url: own(url), text, dingtalk: true }
    } else if contains(url, "qyapi.weixin.qq.com") {
        let mut text: String = own(title);
        text.append("\n");
        text.append(content);
        WebhookRequest::PostText { url: own(url), text, dingtalk: false }
    } else if contains(url, "{title}") || contains(url, "{content}") {
        let encoded_title: String = percent_encode(title);
        let with_title: String = replace(url, "{title}", encoded_title.as_str());
        let encoded_content: String = percent_encode(content);
        let filled: String = replace(with_title.as_str(), "{content}", encoded_content.as_str());
        WebhookRequest::Get { url: filled }
    } else {
        WebhookRequest::PostJson { url: own(url), title: own(title), content: own(content) }
    }
}

/// What is sent for an alert: nothing without a webhook, or where its address is blank.
pub fn notify_alert(webhook: Option<&str>, title: &str, content: &str) -> (request: Option<
    WebhookRequest,
>)
    ensures
        request is Some <==> (webhook matches Some(url) && trim_spec(url@).len() > 0),
        request matches Some(r) ==> carries(r, trim_spec(webhook->0@), title@, content@),
{
    match webhook {
        Some(raw) => {
            let url: &str = trim_str(raw);
            if url.is_empty() {
                None
            } else {
                Some(webhook_request(url, title, content))
            }
        },
        None => None,
    }
}

/// What DingTalk answered.
#[derive(Debug)]
pub enum DingtalkReply {
    /// No JSON; the error of the parser.
    NotJson { error: String },
    /// The code and the message, where they are there.
    Answer { errcode: Option<i64>, errmsg: Option<String> },
}

/// Whether a webhook took a message: the status is a success and, of DingTalk, the code is
/// zero. `status` is the status as text, `reply` the answer where DingTalk was asked.
pub fn webhook_verdict(success: bool, status: &str, reply: Option<DingtalkReply>) -> (verdict:
    Result<(), String>)
    ensures
        verdict is Ok <==> success && (reply matches Some(r) ==> (r matches DingtalkReply::Answer {
            errcode,
            ..
        } && errcode == Some(0i64))),
        !success ==> (verdict matches Err(e) && e@ == "Webhook 返回 HTTP "@ + status@),
        success ==> (reply matches Some(DingtalkReply::NotJson { error }) ==> (
        verdict matches Err(e) && e@ == "钉钉响应不是合法 JSON："@ + error@)),
        success ==> (reply matches Some(DingtalkReply::Answer { errcode, errmsg }) ==> (errcode
            != Some(0i64) ==> (verdict matches Err(e) && e@ == "钉钉机器人拒绝消息："@ + (
        match errmsg {
            Some(m) => m@,
            None => "未知错误"@,
        })))),
{
    if !success {
        let mut text: String = own("Webhook 返回 HTTP ");
        text.append(status);
        return Err(text);
    }
    match reply {
        None => Ok(()),
        Some(answer) => match answer {
            DingtalkReply::NotJson { error } => {
                let mut text: String = own("钉钉响应不是合法 JSON：");
                text.append(error.as_str());
                Err(text)
            },
            DingtalkReply::Answer { errcode, errmsg } => {
                let accepted: bool = match errcode {
                    Some(code) => code == 0,
                    None => false,
                };
                if accepted {
                    Ok(())
                } else {
                    let mut text: String = own("钉钉机器人拒绝消息：");
                    match errmsg {
                        Some(m) => {
                            text.append(m.as_str());
                        },
                        None => {
                            text.append("未知错误");
                        },
                    }
                    Err(text)
                }
            },
        },
    }
}

/// What JSON says under two keys: the integer under `number_key` and the text under `text_key`, each
/// where it is there, as `serde_json` reads them; for a text that is no JSON, the error of
/// `serde_json`.
pub uninterp spec fn json_answer(
    body: Seq<char>,
    number_key: Seq<char>,
    text_key: Seq<char>,
) -> Result<(Option<i64>, Option<Seq<char>>), Seq<char>>;

/// An answer of DingTalk as mathematical values.
pub open spec fn reply_view(reply: DingtalkReply) -> Result<
    (Option<i64>, Option<Seq<char>>),
    Seq<char>,
> {
    match reply {
        DingtalkReply::NotJson { error } => Err(error@),
        DingtalkReply::Answer { errcode, errmsg } => Ok((errcode, opt_view(errmsg))),
    }
}

/// Calls `serde_json::from_str` for a `serde_json::Value`, and on that `get` with each of the keys,
/// `as_i64` and `as_str`; an error is shown by its `Display`. What comes out is named, not
/// described.
#[verifier::external_body]
fn read_json(body: &str, number_key: &str, text_key: &str) -> (reply: DingtalkReply)
    ensures
        reply_view(reply) == json_answer(body@, number_key@, text_key@),
{
    match serde_json::from_str::<serde_json::Value>(body) {
        Err(error) => DingtalkReply::NotJson { error: error.to_string() },
        Ok(json) => DingtalkReply::Answer {
            errcode: json.get(number_key).and_then(|value| value.as_i64()),
            errmsg: json.get(text_key).and_then(|value| value.as_str()).map(String::from),
        },
    }
}

/// What DingTalk answers in a body: its code and its message.
pub open spec fn dingtalk_answer(body: Seq<char>) -> Result<
    (Option<i64>, Option<Seq<char>>),
    Seq<char>,
> {
    json_answer(body, "errcode"@, "errmsg"@)
}

/// Whether a webhook took a message, by the status and the body of its response. The body counts
/// only where DingTalk was asked.
pub fn webhook_answer(success: bool, status: &str, dingtalk: bool, body: &str) -> (verdict: Result<
    (),
    String,
>)
    ensures
        verdict is Ok <==> success && (dingtalk ==> (dingtalk_answer(body@) matches Ok(answer)
            && answer.0 == Some(0i64))),
        !success ==> (verdict matches Err(e) && e@ == "Webhook 返回 HTTP "@ + status@),
        success && dingtalk ==> (dingtalk_answer(body@) matches Err(error) ==> (
        verdict matches Err(e) && e@ == "钉钉响应不是合法 JSON："@ + error)),
        success && dingtalk ==> (dingtalk_answer(body@) matches Ok(answer) ==> (answer.0 != Some(
            0i64,
        ) ==> (verdict matches Err(e) && e@ == "钉钉机器人拒绝消息："@ + (match answer.1 {
            Some(m) => m,
            None => "未知错误"@,
        })))),
{
    let reply: Option<DingtalkReply> = if success && dingtalk {
        Some(read_json(body, "errcode", "errmsg"))
    } else {
        None
    };
    webhook_verdict(success, status, reply)
}

/// The place of a quality in the order of qualities, the best first; an unknown one comes last.
pub open spec fn rank(code: Seq<char>) -> int {
    if code == "origin"@ {
        0
    } else if code == "uhd"@ {
        1
    } else if code == "hd"@ {
        2
    } else if code == "sd"@ {
        3
    } else if code == "ld"@ {
        4
    } else if code == "md"@ {
        5
    } else {
        6
    }
}

/// The place of a quality in the order of qualities.
pub fn quality_rank(code: &str) -> (place: usize)
    ensures
        place == rank(code@),
{
    if str_eq(code, "origin") {
        0
    } else if str_eq(code, "uhd") {
        1
    } else if str_eq(code, "hd") {
        2
    } else if str_eq(code, "sd") {
        3
    } else if str_eq(code, "ld") {
        4
    } else if str_eq(code, "md") {
        5
    } else {
        6
    }
}

/// The name of a quality for the user; an unknown one as it is.
pub open spec fn quality_name(code: Seq<char>) -> Seq<char> {
    if code == "origin"@ {
        "原画"@
    } else if code == "uhd"@ {
        "蓝光"@
    } else if code == "hd"@ {
        "超清"@
    } else if code == "sd"@ {
        "高清"@
    } else if code == "ld"@ {
        "标清"@
    } else if code == "md"@ {
        "流畅"@
    } else {
        code
    }
}

/// The name of a quality for the user.
pub fn quality_display(code: &str) -> (name: String)
    ensures
        name@ == quality_name(code@),
{
    if str_eq(code, "origin") {
        own("原画")
    } else if str_eq(code, "uhd") {
        own("蓝光")
    } else if str_eq(code, "hd") {
        own("超清")
    } else if str_eq(code, "sd") {
        own("高清")
    } else if str_eq(code, "ld") {
        own("标清")
    } else if str_eq(code, "md") {
        own("流畅")
    } else {
        own(code)
    }
}

/// The threshold that applies: the one that is set without white space around it, or the
/// default where that is empty.
pub open spec fn effective_threshold(threshold: Option<&str>) -> Seq<char> {
    match threshold {
        Some(t) => if trim_spec(t@).len() > 0 {
            trim_spec(t@)
        } else {
            DEFAULT_QUALITY_ALERT@
        },
        None => DEFAULT_QUALITY_ALERT@,
    }
}

/// The threshold that applies.
pub fn effective_quality_alert<'a>(threshold: Option<&'a str>) -> (effective: &'a str)
    ensures
        effective@ == effective_threshold(threshold),
{
    match threshold {
        Some(t) => {
            let trimmed: &str = trim_str(t);
            if trimmed.is_empty() {
                DEFAULT_QUALITY_ALERT
            } else {
                trimmed
            }
        },
        None => DEFAULT_QUALITY_ALERT,
    }
}

/// Whether a recorded quality lies below the threshold; "off" switches the alert off.
pub open spec fn below_alert(actual: Seq<char>, threshold: Option<&str>) -> bool {
    effective_threshold(threshold) != "off"@ && rank(actual) > rank(effective_threshold(threshold))
}

/// Whether a recorded quality lies below the threshold.
pub fn quality_below_alert(actual: &str, threshold: Option<&str>) -> (below: bool)
    ensures
        below == below_alert(actual@, threshold),
{
    let effective: &str = effective_quality_alert(threshold);
    if str_eq(effective, "off") {
        return false;
    }
    quality_rank(actual) > quality_rank(effective)
}

/// The title of the message that a recording fell below the wanted quality.
pub const QUALITY_ALERT_TITLE: &'static str = "⚠️ 抖音录制画质已降级";

/// The message that a recording fell below the wanted quality.
pub open spec fn quality_alert_content(
    remark: Seq<char>,
    actual: Seq<char>,
    threshold: Seq<char>,
) -> Seq<char> {
    remark + "：当前录制画质为 "@ + quality_name(actual) + "("@ + actual
        + ")，低于告警阈值 "@ + quality_name(threshold) + "("@ + threshold
        + ")。可能由候选线路熔断或 cookie（sessionid）失效触发，建议检查。"@
}

/// The message to send where `actual`, the recorded quality of the room `remark`, lies below the
/// threshold.
pub fn notify_douyin_quality_fallback(remark: &str, actual: Option<&str>, threshold: Option<&str>) -> (
    alert: Option<Alert>)
    ensures
        alert is Some <==> (actual matches Some(quality) && below_alert(quality@, threshold)),
        alert matches Some(a) ==> a.title@ == QUALITY_ALERT_TITLE@ && a.content@
            == quality_alert_content(remark@, actual->0@, effective_threshold(threshold)),
{
    match actual {
        Some(quality) => {
            if !quality_below_alert(quality, threshold) {
                return None;
            }
            let effective: &str = effective_quality_alert(threshold);
            let mut content: String = own(remark);
            content.append("：当前录制画质为 ");
            let shown: String = quality_display(quality);
            content.append(shown.as_str());
            content.append("(");
            content.append(quality);
            content.append(")，低于告警阈值 ");
            let wanted: String = quality_display(effective);
            content.append(wanted.as_str());
            content.append("(");
            content.append(effective);
            content.append(
                ")。可能由候选线路熔断或 cookie（sessionid）失效触发，建议检查。",
            );
            Some(Alert { title: own(QUALITY_ALERT_TITLE), content })
        },
        None => None,
    }
}

/// A failure that does not speak of a refused login never moves a platform towards unhealthy.
pub proof fn law_only_refused_logins_count(h: HealthView, error: Seq<char>, now: i64)
    requires
        !(error_kind(error) is Authentication),
    ensures
        after_error(h, error, now).unhealthy == h.unhealthy,
        after_error(h, error, now).consecutive_errors == h.consecutive_errors,
        after_error(h, error, now).since_ms == h.since_ms,
{
}

/// A repeat within the debounce window changes neither the count nor the state.
pub proof fn law_repeats_are_not_counted(h: HealthView, error: Seq<char>, now: i64)
    requires
        debounced(h, now),
    ensures
        after_error(h, error, now).unhealthy == h.unhealthy,
        after_error(h, error, now).consecutive_errors == h.consecutive_errors,
{
}

/// A platform that was never checked is consistent, and every check keeps it so: only reaching
/// the threshold declares a platform unhealthy, and only a success declares it healthy again.
pub proof fn law_health_stays_consistent(
    h: HealthView,
    platform: Seq<char>,
    error: Seq<char>,
    now: i64,
)
    requires
        health_consistent(h),
    ensures
        health_consistent(unchecked_health(platform)),
        health_consistent(after_success(h, now)),
        health_consistent(after_error(h, error, now)),
        h.unhealthy ==> after_error(h, error, now).unhealthy,
{
}

/// Three refused logins that are counted one after the other make a healthy platform unhealthy,
/// the third and none before it; a success then makes it healthy.
pub proof fn law_third_refused_login_is_reported(
    h: HealthView,
    error: Seq<char>,
    first: i64,
    second: i64,
    third: i64,
    later: i64,
)
    requires
        !h.unhealthy,
        h.consecutive_errors == 0,
        error_kind(error) is Authentication,
        !debounced(h, first),
        second - first >= ERROR_DEBOUNCE_MS,
        third - second >= ERROR_DEBOUNCE_MS,
    ensures
        ({
            let one = after_error(h, error, first);
            let two = after_error(one, error, second);
            let three = after_error(two, error, third);
            &&& !becomes_unhealthy(h, error_kind(error), first)
            &&& !becomes_unhealthy(one, error_kind(error), second)
            &&& becomes_unhealthy(two, error_kind(error), third)
            &&& three.unhealthy && three.since_ms == Some(third)
            &&& !after_success(three, later).unhealthy
        }),
{
}

} // verus!
