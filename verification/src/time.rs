//! Clock readings and time spans as whole nanoseconds.
use vstd::prelude::*;

verus! {

/// Nanoseconds in one second.
pub const NANOS_PER_SEC: u128 = 1_000_000_000;

/// Nanoseconds in one millisecond.
pub const NANOS_PER_MILLI: u128 = 1_000_000;

/// The earliest clock reading: the first second of the year -262143, UTC.
pub const MIN_CLOCK_NANOS: i128 = -8_334_601_228_800_000_000_000;

/// The latest clock reading: the last nanosecond of the year 262142, UTC.
pub const MAX_CLOCK_NANOS: i128 = 8_210_266_876_799_999_999_999;

/// The longest span: `u64::MAX` seconds and 999,999,999 nanoseconds.
pub const MAX_SPAN_NANOS: u128 = 18_446_744_073_709_551_615_999_999_999;

/// A reading of a clock, in nanoseconds since the clock's origin (for the wall clock, the
/// Unix epoch). The view is that number.
#[derive(Clone, Copy, Debug, PartialEq, Eq, Structural)]
pub struct Timestamp {
    nanos: i128,
}

impl View for Timestamp {
    type V = int;

    closed spec fn view(&self) -> int {
        self.nanos as int
    }
}

/// Whether `nanos` is a reading that a clock can give.
pub open spec fn in_clock_range(nanos: int) -> bool {
    MIN_CLOCK_NANOS <= nanos <= MAX_CLOCK_NANOS
}

impl Timestamp {
    #[verifier::type_invariant]
    spec fn in_range(self) -> bool {
        in_clock_range(self.nanos as int)
    }

    /// Two readings with the same number of nanoseconds are the same reading.
    pub proof fn lemma_view_injective(a: Timestamp, b: Timestamp)
        requires
            a@ == b@,
        ensures
            a == b,
    {
    }

    /// The number of nanoseconds of a reading is one that the machine can hold.
    pub proof fn lemma_view_fits(t: Timestamp)
        ensures
            i128::MIN <= t@ <= i128::MAX,
    {
    }

    /// The reading at `nanos`, where a clock can give it.
    pub fn from_nanos(nanos: i128) -> (reading: Option<Timestamp>)
        ensures
            reading is Some <==> in_clock_range(nanos as int),
            reading matches Some(t) ==> t@ == nanos,
    {
        if MIN_CLOCK_NANOS <= nanos && nanos <= MAX_CLOCK_NANOS {
            Some(Timestamp { nanos })
        } else {
            None
        }
    }

    /// The reading `secs` seconds after the clock's origin, where a clock can give it.
    pub fn from_secs(secs: i64) -> (reading: Option<Timestamp>)
        ensures
            reading is Some <==> in_clock_range(secs * NANOS_PER_SEC),
            reading matches Some(t) ==> t@ == secs * NANOS_PER_SEC,
    {
        Timestamp::from_nanos(secs as i128 * 1_000_000_000i128)
    }

    /// The nanoseconds since the clock's origin.
    pub fn nanos(&self) -> (nanos: i128)
        ensures
            nanos == self@,
            in_clock_range(self@),
    {
        proof {
            use_type_invariant(self);
        }
        self.nanos
    }

    /// The signed number of nanoseconds from `earlier` to this reading.
    pub fn since(&self, earlier: &Timestamp) -> (nanos: i128)
        ensures
            nanos == self@ - earlier@,
    {
        proof {
            use_type_invariant(self);
            use_type_invariant(earlier);
        }
        self.nanos - earlier.nanos
    }

    /// The span from `earlier` to this reading; zero where this reading is not later.
    pub fn saturating_since(&self, earlier: &Timestamp) -> (span: Span)
        ensures
            span@ == (if self@ <= earlier@ {
                0
            } else {
                self@ - earlier@
            }),
    {
        proof {
            use_type_invariant(self);
            use_type_invariant(earlier);
        }
        if self.nanos <= earlier.nanos {
            Span { nanos: 0 }
        } else {
            Span { nanos: (self.nanos - earlier.nanos) as u128 }
        }
    }

    /// The reading `span` after this one.
    pub fn plus(&self, span: &Span) -> (later: Timestamp)
        requires
            in_clock_range(self@ + span@),
        ensures
            later@ == self@ + span@,
    {
        proof {
            use_type_invariant(self);
            use_type_invariant(span);
        }
        Timestamp { nanos: self.nanos + span.nanos as i128 }
    }

    /// Whether this reading comes before `other` or equals it.
    pub fn at_or_before(&self, other: &Timestamp) -> (yes: bool)
        ensures
            yes == (self@ <= other@),
    {
        self.nanos <= other.nanos
    }
}

/// A length of time that is not negative, in nanoseconds. The view is that number.
#[derive(Clone, Copy, Debug, PartialEq, Eq, Structural)]
pub struct Span {
    nanos: u128,
}

impl View for Span {
    type V = int;

    closed spec fn view(&self) -> int {
        self.nanos as int
    }
}

/// The smaller of a number of nanoseconds and the longest span.
pub open spec fn clamp_span(nanos: int) -> int {
    if nanos <= MAX_SPAN_NANOS {
        nanos
    } else {
        MAX_SPAN_NANOS as int
    }
}

impl Span {
    #[verifier::type_invariant]
    spec fn in_range(self) -> bool {
        self.nanos <= MAX_SPAN_NANOS
    }

    /// Two spans of the same number of nanoseconds are the same span.
    pub proof fn lemma_view_injective(a: Span, b: Span)
        requires
            a@ == b@,
        ensures
            a == b,
    {
    }

    /// The empty span.
    pub fn zero() -> (span: Span)
        ensures
            span@ == 0,
    {
        Span { nanos: 0 }
    }

    /// A span of `secs` seconds.
    pub fn from_secs(secs: u64) -> (span: Span)
        ensures
            span@ == secs * NANOS_PER_SEC,
    {
        Span { nanos: secs as u128 * 1_000_000_000u128 }
    }

    /// A span of `millis` milliseconds.
    pub fn from_millis(millis: u64) -> (span: Span)
        ensures
            span@ == millis * NANOS_PER_MILLI,
    {
        Span { nanos: millis as u128 * 1_000_000u128 }
    }

    /// A span of `nanos` nanoseconds, cut off at the longest span.
    pub fn from_nanos(nanos: u128) -> (span: Span)
        ensures
            span@ == clamp_span(nanos as int),
    {
        if nanos <= MAX_SPAN_NANOS {
            Span { nanos }
        } else {
            Span { nanos: MAX_SPAN_NANOS }
        }
    }

    /// The nanoseconds of the span.
    pub fn nanos(&self) -> (nanos: u128)
        ensures
            nanos == self@,
            0 <= self@ <= MAX_SPAN_NANOS,
    {
        proof {
            use_type_invariant(self);
        }
        self.nanos
    }

    /// The whole milliseconds of the span.
    pub fn as_millis(&self) -> (millis: u128)
        ensures
            millis == self@ / (NANOS_PER_MILLI as int),
    {
        self.nanos / NANOS_PER_MILLI
    }

    /// The whole milliseconds of the span, cut off at `u64::MAX`.
    pub fn as_millis_u64(&self) -> (millis: u64)
        ensures
            millis == (if self@ / (NANOS_PER_MILLI as int) <= u64::MAX {
                self@ / (NANOS_PER_MILLI as int)
            } else {
                u64::MAX as int
            }),
    {
        let whole: u128 = self.as_millis();
        if whole <= u64::MAX as u128 {
            whole as u64
        } else {
            u64::MAX
        }
    }

    /// Whether the span is empty.
    pub fn is_zero(&self) -> (empty: bool)
        ensures
            empty == (self@ == 0),
    {
        self.nanos == 0
    }

    /// The sum of two spans, cut off at the longest span.
    pub fn saturating_add(&self, other: &Span) -> (sum: Span)
        ensures
            sum@ == clamp_span(self@ + other@),
    {
        proof {
            use_type_invariant(self);
            use_type_invariant(other);
        }
        Span::from_nanos(self.nanos + other.nanos)
    }

    /// The shorter of two spans.
    pub fn min(&self, other: &Span) -> (shorter: Span)
        ensures
            shorter@ == (if self@ <= other@ {
                self@
            } else {
                other@
            }),
    {
        if self.nanos <= other.nanos {
            *self
        } else {
            *other
        }
    }

    /// Whether this span is at least as long as `other`.
    pub fn at_least(&self, other: &Span) -> (yes: bool)
        ensures
            yes == (self@ >= other@),
    {
        self.nanos >= other.nanos
    }
}

/// The whole seconds of a reading, rounded down, and the nanoseconds that are left.
pub(crate) fn floor_parts(nanos: i128) -> (parts: (i64, u32))
    requires
        in_clock_range(nanos as int),
    ensures
        parts.0 == nanos as int / NANOS_PER_SEC as int,
        parts.1 == nanos as int % NANOS_PER_SEC as int,
        parts.0 * NANOS_PER_SEC + parts.1 == nanos,
        parts.1 < 1_000_000_000,
{
    if nanos >= 0 {
        ((nanos / 1_000_000_000i128) as i64, (nanos % 1_000_000_000i128) as u32)
    } else {
        let up: u128 = (-nanos) as u128;
        let whole: u128 = up / 1_000_000_000u128;
        let part: u128 = up % 1_000_000_000u128;
        if part == 0 {
            proof {
                vstd::arithmetic::div_mod::lemma_fundamental_div_mod_converse(
                    nanos as int,
                    1_000_000_000,
                    -(whole as int),
                    0,
                );
            }
            (-(whole as i64), 0)
        } else {
            proof {
                vstd::arithmetic::div_mod::lemma_fundamental_div_mod_converse(
                    nanos as int,
                    1_000_000_000,
                    -(whole as int) - 1,
                    1_000_000_000 - part as int,
                );
            }
            (-(whole as i64) - 1, (1_000_000_000u128 - part) as u32)
        }
    }
}

/// What `chrono` prints by RFC 3339 for the reading `secs` seconds and `nanos` nanoseconds after the
/// epoch.
pub uninterp spec fn rfc3339_text(secs: i64, nanos: u32) -> Seq<char>;

/// `chrono::DateTime::to_rfc3339` on the reading that `DateTime::from_timestamp` makes of `secs`
/// and `nanos`, in UTC. The text is named, not described.
#[verifier::external_body]
fn format_rfc3339(secs: i64, nanos: u32) -> (text: String)
    requires
        nanos < 1_000_000_000,
        in_clock_range(secs * NANOS_PER_SEC + nanos),
    ensures
        text@ == rfc3339_text(secs, nanos),
{
    let reading = chrono::DateTime::from_timestamp(secs, nanos).expect("reading in range");
    reading.to_rfc3339()
}

/// A reading by RFC 3339.
pub open spec fn stamped(reading: Timestamp) -> Seq<char> {
    rfc3339_text(
        (reading@ / NANOS_PER_SEC as int) as i64,
        (reading@ % NANOS_PER_SEC as int) as u32,
    )
}

/// A reading by RFC 3339.
pub fn stamp(reading: Timestamp) -> (text: String)
    ensures
        text@ == stamped(reading),
{
    let (secs, part): (i64, u32) = floor_parts(reading.nanos());
    format_rfc3339(secs, part)
}

} // verus!
