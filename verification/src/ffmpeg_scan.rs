//! What a full scan of a recording says about its timestamps.
//!
//! Two scans are read line by line: the diagnostics that the remuxer prints, of which only a tail
//! window is kept, and the timestamps of the packets, of which only the streams' clocks are kept.
use vstd::prelude::*;
use vstd::string::*;
use vstd::utf8::{encode_utf8, encode_utf8_valid_utf8, is_char_boundary,
    is_char_boundary_iff_not_is_continuation_byte, is_char_boundary_start_end_of_seq, valid_utf8,
    valid_utf8_split};

use crate::parse::{after_last, behind_last, front_number, leading_number, parse_whole, split_once,
    split_once_spec, whole_number};
use crate::text::{
    chars_of, contains, contains_text, decode_lossy, lossy_text, own, slice_of, string_of,
    trim_bounds, trim_spec,
};

verus! {

/// How many bytes of the diagnostics are kept.
pub const STDERR_TAIL_LIMIT: usize = 65536;

/// The largest step between two packets of one stream that is no jump of the time base.
pub const MAX_PACKET_STEP_MS: i64 = 30_000;

/// Whether a text names one of the known timestamp faults.
pub open spec fn names_fault(text: Seq<char>) -> bool {
    ||| contains_text(text, "Non-monotonic DTS"@)
    ||| contains_text(text, "non monotonically increasing dts"@)
    ||| contains_text(text, "timestamp discontinuity"@)
    ||| contains_text(text, "Invalid timestamp"@)
    ||| contains_text(text, "Application provided invalid"@)
}

/// Whether the diagnostics name one of the known timestamp faults.
pub fn stderr_indicates_anomaly(stderr: &str) -> (anomaly: bool)
    ensures
        anomaly == names_fault(stderr@),
{
    contains(stderr, "Non-monotonic DTS") || contains(stderr, "non monotonically increasing dts")
        || contains(stderr, "timestamp discontinuity") || contains(stderr, "Invalid timestamp")
        || contains(stderr, "Application provided invalid")
}

/// The two texts of a fault line that hold the earlier and the later timestamp.
///
/// Two wordings are known: `..: 11990 >= 8356` and `..; previous: 11990, current: 8356; ..`.
pub open spec fn fault_fields(line: Seq<char>) -> Option<(Seq<char>, Seq<char>)> {
    match split_once_spec(line, " >= "@) {
        Some((front, back)) => Some((after_last(front, ':'), back)),
        None => match split_once_spec(line, "previous:"@) {
            Some((_, back)) => match split_once_spec(back, ","@) {
                Some((previous, rest)) => match split_once_spec(rest, "current:"@) {
                    Some((_, current)) => Some((previous, current)),
                    None => None,
                },
                None => None,
            },
            None => None,
        },
    }
}

/// By how much a fault line says that time ran backwards.
pub open spec fn backward_step(line: Seq<char>) -> Option<int> {
    match fault_fields(line) {
        Some((previous, current)) => match (front_number(previous), front_number(current)) {
            (Some(before), Some(after)) => if 0 < before - after <= i64::MAX {
                Some(before - after)
            } else {
                None
            },
            _ => None,
        },
        None => None,
    }
}

/// By how much a fault line says that time ran backwards, in the line's own unit.
///
/// `None` means that the amount is not known, never that it is zero. A difference that does not
/// fit in 64 bits is not known either.
pub fn parse_backward_ms(line: &str) -> (amount: Option<i64>)
    ensures
        match amount {
            Some(ms) => backward_step(line@) == Some(ms as int),
            None => backward_step(line@) is None,
        },
{
    let chars: Vec<char> = chars_of(line);
    let fields: (Vec<char>, Vec<char>) = match split_once(&chars, &chars_of(" >= ")) {
        Some((front, back)) => (behind_last(&front, ':'), back),
        None => match split_once(&chars, &chars_of("previous:")) {
            Some((_, back)) => match split_once(&back, &chars_of(",")) {
                Some((previous, rest)) => match split_once(&rest, &chars_of("current:")) {
                    Some((_, current)) => (previous, current),
                    None => {
                        return None;
                    },
                },
                None => {
                    return None;
                },
            },
            None => {
                return None;
            },
        },
    };
    let before: i64 = match leading_number(&fields.0) {
        Some(before) => before,
        None => {
            return None;
        },
    };
    let after: i64 = match leading_number(&fields.1) {
        Some(after) => after,
        None => {
            return None;
        },
    };
    let amount: i128 = before as i128 - after as i128;
    if 0 < amount && amount <= 9223372036854775807i128 {
        Some(amount as i64)
    } else {
        None
    }
}

/// The clock of one stream: its first and its latest timestamp.
#[derive(Clone, Copy, Debug, PartialEq, Eq, Structural)]
struct StreamClock {
    stream: i64,
    first_ms: i64,
    last_ms: i64,
}

/// The clocks of the streams that had a packet, one for each; the view is the map from the stream
/// to its first and its latest timestamp.
pub struct StreamClocks {
    clocks: Vec<StreamClock>,
}

/// What a packet scan has seen so far.
pub struct PacketJumpScan {
    /// One clock for each stream that had a packet.
    pub clocks: StreamClocks,
    /// The largest forward step over the limit; `None` where no step was over it.
    pub max_forward_jump_ms: Option<i64>,
    /// How many packets were read.
    pub packets: u64,
}

/// One packet: its stream and its timestamp in milliseconds.
pub ghost struct Packet {
    pub stream: int,
    pub ms: int,
}

/// A packet scan as a mathematical value.
#[verifier::ext_equal]
pub ghost struct PacketScanModel {
    /// The first and the latest timestamp of each stream.
    pub clocks: Map<int, (int, int)>,
    pub max_jump: Option<int>,
    pub packets: int,
}

/// The clock that is kept for `stream`.
spec fn clock_of(clocks: Seq<StreamClock>, stream: int) -> Option<(int, int)>
    decreases clocks.len(),
{
    if clocks.len() == 0 {
        None
    } else if clocks[0].stream == stream {
        Some((clocks[0].first_ms as int, clocks[0].last_ms as int))
    } else {
        clock_of(clocks.drop_first(), stream)
    }
}

spec fn distinct_streams(clocks: Seq<StreamClock>) -> bool {
    forall|i: int, j: int|
        0 <= i < j < clocks.len() ==> (#[trigger] clocks[i]).stream != (#[trigger] clocks[j]).stream
}

/// The larger of what was seen and what comes now.
pub open spec fn larger(seen: Option<int>, now: int) -> Option<int> {
    match seen {
        Some(before) => if before >= now {
            Some(before)
        } else {
            Some(now)
        },
        None => Some(now),
    }
}

/// A step, cut off at the largest number of 64 bits.
pub open spec fn cut_off(step: int) -> int {
    if step > i64::MAX {
        i64::MAX as int
    } else {
        step
    }
}

/// The clocks after one more packet.
pub open spec fn ticked(clocks: Map<int, (int, int)>, packet: Packet) -> Map<int, (int, int)> {
    clocks.insert(
        packet.stream,
        (
            if clocks.dom().contains(packet.stream) {
                clocks[packet.stream].0
            } else {
                packet.ms
            },
            packet.ms,
        ),
    )
}

/// The scan after one more packet. A step is measured within the packet's own stream only.
pub open spec fn fed(scan: PacketScanModel, packet: Packet) -> PacketScanModel {
    let known = scan.clocks.dom().contains(packet.stream);
    let step = packet.ms - scan.clocks[packet.stream].1;
    PacketScanModel {
        clocks: ticked(scan.clocks, packet),
        max_jump: if known && step > MAX_PACKET_STEP_MS {
            larger(scan.max_jump, cut_off(step))
        } else {
            scan.max_jump
        },
        packets: scan.packets + 1,
    }
}

/// A scan that has seen nothing.
pub open spec fn nothing_seen() -> PacketScanModel {
    PacketScanModel { clocks: Map::empty(), max_jump: None, packets: 0 }
}

/// The scan after all `packets`.
pub open spec fn scan_of(packets: Seq<Packet>) -> PacketScanModel
    decreases packets.len(),
{
    if packets.len() == 0 {
        nothing_seen()
    } else {
        fed(scan_of(packets.drop_last()), packets.last())
    }
}

/// The stream and the timestamp text of a line `stream,seconds`.
pub open spec fn packet_fields(line: Seq<char>) -> Option<(int, Seq<char>)> {
    match split_once_spec(trim_spec(line), ","@) {
        Some((stream, seconds)) => match whole_number(stream) {
            Some(index) => Some((index, trim_spec(seconds))),
            None => None,
        },
        None => None,
    }
}

/// By how much stream `a` begins after stream `b`.
pub open spec fn begins_after(clocks: Map<int, (int, int)>, a: int, b: int) -> int {
    clocks[a].0 - clocks[b].0
}

/// Whether `skew` is how far apart the streams begin: the largest first timestamp less the smallest
/// one, cut off at the largest number of 64 bits, and 0 where there is no stream.
pub open spec fn is_start_skew(clocks: Map<int, (int, int)>, skew: int) -> bool {
    if clocks.dom() == Set::<int>::empty() {
        skew == 0
    } else {
        &&& exists|a: int, b: int|
            clocks.dom().contains(a) && clocks.dom().contains(b) && skew == cut_off(
                #[trigger] begins_after(clocks, a, b),
            )
        &&& forall|a: int, b: int|
            clocks.dom().contains(a) && clocks.dom().contains(b) ==> cut_off(
                #[trigger] begins_after(clocks, a, b),
            ) <= skew
    }
}

/// Whether two streams begin further apart than the limit.
pub open spec fn begin_apart(clocks: Map<int, (int, int)>) -> bool {
    exists|a: int, b: int|
        clocks.dom().contains(a) && clocks.dom().contains(b) && #[trigger] begins_after(
            clocks,
            a,
            b,
        ) > MAX_PACKET_STEP_MS
}

/// How far apart the streams begin is over the limit exactly where two of them begin that far
/// apart.
pub proof fn lemma_skew_over_limit(clocks: Map<int, (int, int)>, skew: int)
    requires
        is_start_skew(clocks, skew),
    ensures
        skew > MAX_PACKET_STEP_MS <==> begin_apart(clocks),
{
    if begin_apart(clocks) {
        let (a, b) = choose|a: int, b: int|
            clocks.dom().contains(a) && clocks.dom().contains(b) && #[trigger] begins_after(
                clocks,
                a,
                b,
            ) > MAX_PACKET_STEP_MS;
        assert(clocks.dom().contains(a));
        assert(clocks.dom() != Set::<int>::empty());
        assert(cut_off(begins_after(clocks, a, b)) <= skew);
    }
}

/// The stream and the timestamp text of a line, for the reader of the timestamp.
pub fn read_packet_line(line: &str) -> (fields: Option<(i64, String)>)
    ensures
        match fields {
            Some((stream, seconds)) => packet_fields(line@) == Some((stream as int, seconds@)),
            None => packet_fields(line@) is None,
        },
{
    let chars: Vec<char> = chars_of(line);
    let (from, to): (usize, usize) = trim_bounds(&chars);
    let body: Vec<char> = slice_of(&chars, from, to);
    match split_once(&body, &chars_of(",")) {
        Some((stream, seconds)) => match parse_whole(&stream) {
            Some(index) => {
                let (start, end): (usize, usize) = trim_bounds(&seconds);
                let piece: Vec<char> = slice_of(&seconds, start, end);
                Some((index, string_of(&piece)))
            },
            None => None,
        },
        None => None,
    }
}

proof fn lemma_clock_at(clocks: Seq<StreamClock>, at: int)
    requires
        0 <= at < clocks.len(),
        forall|k: int| 0 <= k < at ==> clocks[k].stream != clocks[at].stream,
    ensures
        clock_of(clocks, clocks[at].stream as int) == Some(
            (clocks[at].first_ms as int, clocks[at].last_ms as int),
        ),
    decreases at,
{
    if at > 0 {
        let rest = clocks.drop_first();
        assert(forall|k: int| 0 <= k < rest.len() ==> rest[k] == clocks[k + 1]);
        assert(clocks[0].stream != clocks[at].stream);
        lemma_clock_at(rest, at - 1);
    }
}

proof fn lemma_clock_absent(clocks: Seq<StreamClock>, stream: int)
    requires
        forall|k: int| 0 <= k < clocks.len() ==> clocks[k].stream != stream,
    ensures
        clock_of(clocks, stream) is None,
    decreases clocks.len(),
{
    if clocks.len() > 0 {
        let rest = clocks.drop_first();
        assert(forall|k: int| 0 <= k < rest.len() ==> rest[k] == clocks[k + 1]);
        lemma_clock_absent(rest, stream);
    }
}

/// A stream that has a clock has it at one place.
proof fn lemma_clock_place(clocks: Seq<StreamClock>, stream: int) -> (at: int)
    requires
        clock_of(clocks, stream) is Some,
    ensures
        0 <= at < clocks.len(),
        clocks[at].stream == stream,
        clock_of(clocks, stream) == Some((clocks[at].first_ms as int, clocks[at].last_ms as int)),
    decreases clocks.len(),
{
    if clocks[0].stream == stream {
        0
    } else {
        let at = lemma_clock_place(clocks.drop_first(), stream);
        at + 1
    }
}

proof fn lemma_clock_updated(clocks: Seq<StreamClock>, at: int, clock: StreamClock, other: int)
    requires
        0 <= at < clocks.len(),
        clock.stream == clocks[at].stream,
        other != clock.stream,
    ensures
        clock_of(clocks.update(at, clock), other) == clock_of(clocks, other),
    decreases clocks.len(),
{
    let rest = clocks.drop_first();
    if at > 0 {
        assert(clocks.update(at, clock).drop_first() =~= rest.update(at - 1, clock));
        lemma_clock_updated(rest, at - 1, clock, other);
    } else {
        assert(clocks.update(at, clock).drop_first() =~= rest);
    }
}

proof fn lemma_clock_added(clocks: Seq<StreamClock>, clock: StreamClock, stream: int)
    requires
        clock_of(clocks, clock.stream as int) is None,
    ensures
        clock_of(clocks.push(clock), stream) == if stream == clock.stream {
            Some((clock.first_ms as int, clock.last_ms as int))
        } else {
            clock_of(clocks, stream)
        },
    decreases clocks.len(),
{
    if clocks.len() > 0 {
        assert(clocks.push(clock).drop_first() =~= clocks.drop_first().push(clock));
        lemma_clock_added(clocks.drop_first(), clock, stream);
    } else {
        assert(clocks.push(clock).drop_first() =~= clocks);
    }
}

impl View for StreamClocks {
    type V = Map<int, (int, int)>;

    closed spec fn view(&self) -> Map<int, (int, int)> {
        Map::new(
            |stream: int| clock_of(self.clocks@, stream) is Some,
            |stream: int| clock_of(self.clocks@, stream)->0,
        )
    }
}

impl StreamClocks {
    #[verifier::type_invariant]
    spec fn one_for_each(self) -> bool {
        distinct_streams(self.clocks@)
    }

    /// No stream had a packet yet.
    pub fn new() -> (clocks: StreamClocks)
        ensures
            clocks@ == Map::<int, (int, int)>::empty(),
    {
        let clocks = StreamClocks { clocks: Vec::new() };
        assert(clocks@ =~= Map::<int, (int, int)>::empty());
        clocks
    }

    /// Moves the clock of `stream` to `ms` and tells where it stood, where there was one.
    pub fn tick(&mut self, stream: i64, ms: i64) -> (before: Option<i64>)
        ensures
            match before {
                Some(last) => old(self)@.dom().contains(stream as int) && old(
                    self,
                )@[stream as int].1 == last,
                None => !old(self)@.dom().contains(stream as int),
            },
            final(self)@ == ticked(old(self)@, (Packet { stream: stream as int, ms: ms as int })),
    {
        proof {
            use_type_invariant(&*self);
        }
        let ghost packet = Packet { stream: stream as int, ms: ms as int };
        let ghost held = self@;
        let mut clocks: Vec<StreamClock> = Vec::new();
        std::mem::swap(&mut clocks, &mut self.clocks);
        let ghost seen = clocks@;
        let mut at: usize = 0;
        while at < clocks.len() && clocks[at].stream != stream
            invariant
                at <= clocks.len(),
                forall|k: int| 0 <= k < at ==> clocks@[k].stream != stream,
            decreases clocks.len() - at,
        {
            at = at + 1;
        }
        let before: Option<i64> = if at < clocks.len() {
            let clock: StreamClock = clocks[at];
            let moved = StreamClock { stream, first_ms: clock.first_ms, last_ms: ms };
            proof {
                lemma_clock_at(seen, at as int);
                assert(forall|k: int| 0 <= k < at ==> seen.update(at as int, moved)[k] == seen[k]);
                lemma_clock_at(seen.update(at as int, moved), at as int);
                assert forall|other: int| other != stream implies clock_of(
                    seen.update(at as int, moved),
                    other,
                ) == clock_of(seen, other) by {
                    lemma_clock_updated(seen, at as int, moved, other);
                }
            }
            clocks.set(at, moved);
            Some(clock.last_ms)
        } else {
            let fresh = StreamClock { stream, first_ms: ms, last_ms: ms };
            proof {
                lemma_clock_absent(seen, stream as int);
                assert forall|other: int|
                    clock_of(seen.push(fresh), other) == (if other == stream {
                        Some((ms as int, ms as int))
                    } else {
                        clock_of(seen, other)
                    }) by {
                    lemma_clock_added(seen, fresh, other);
                }
            }
            clocks.push(fresh);
            None
        };
        self.clocks = clocks;
        assert(self@ =~= ticked(held, packet));
        before
    }

    /// How far apart the streams begin; 0 where there is none.
    pub fn start_skew_ms(&self) -> (skew: i64)
        ensures
            is_start_skew(self@, skew as int),
    {
        proof {
            use_type_invariant(self);
        }
        let ghost seen = self.clocks@;
        if self.clocks.len() == 0 {
            assert(self@.dom() =~= Set::<int>::empty());
            return 0;
        }
        let mut high: usize = 0;
        let mut low: usize = 0;
        let mut i: usize = 1;
        while i < self.clocks.len()
            invariant
                1 <= i <= self.clocks.len(),
                high < i,
                low < i,
                forall|k: int|
                    0 <= k < i ==> self.clocks@[low as int].first_ms <= (
                    #[trigger] self.clocks@[k]).first_ms <= self.clocks@[high as int].first_ms,
            decreases self.clocks.len() - i,
        {
            if self.clocks[i].first_ms > self.clocks[high].first_ms {
                high = i;
            }
            if self.clocks[i].first_ms < self.clocks[low].first_ms {
                low = i;
            }
            i = i + 1;
        }
        let skew: i128 = self.clocks[high].first_ms as i128 - self.clocks[low].first_ms as i128;
        proof {
            let a = seen[high as int].stream as int;
            let b = seen[low as int].stream as int;
            lemma_clock_at(seen, high as int);
            lemma_clock_at(seen, low as int);
            assert(self@.dom().contains(a) && self@.dom().contains(b));
            assert(begins_after(self@, a, b) == skew);
            assert forall|c: int, d: int|
                self@.dom().contains(c) && self@.dom().contains(d) implies cut_off(
                #[trigger] begins_after(self@, c, d),
            ) <= cut_off(skew as int) by {
                let k = lemma_clock_place(seen, c);
                let l = lemma_clock_place(seen, d);
                assert(seen[k].first_ms <= seen[high as int].first_ms);
                assert(seen[low as int].first_ms <= seen[l].first_ms);
            }
            assert(self@.dom() != Set::<int>::empty());
        }
        if skew > 9223372036854775807i128 {
            9223372036854775807i64
        } else {
            skew as i64
        }
    }
}

impl View for PacketJumpScan {
    type V = PacketScanModel;

    open spec fn view(&self) -> PacketScanModel {
        PacketScanModel {
            clocks: self.clocks@,
            max_jump: match self.max_forward_jump_ms {
                Some(jump) => Some(jump as int),
                None => None,
            },
            packets: self.packets as int,
        }
    }
}

impl Default for PacketJumpScan {
    /// A scan that has seen nothing.
    fn default() -> (scan: Self)
        ensures
            scan@ == nothing_seen(),
    {
        PacketJumpScan { clocks: StreamClocks::new(), max_forward_jump_ms: None, packets: 0 }
    }
}

impl PacketJumpScan {
    /// Takes in one line `stream,seconds`, of which the seconds read as `dts_ms` milliseconds.
    ///
    /// A line of another shape, and one whose seconds are no finite number (`None`), is skipped.
    pub fn push_line(&mut self, line: &str, dts_ms: Option<i64>)
        requires
            old(self).packets < u64::MAX,
        ensures
            match (packet_fields(line@), dts_ms) {
                (Some((stream, _)), Some(ms)) => final(self)@ == fed(
                    old(self)@,
                    Packet { stream, ms: ms as int },
                ),
                _ => final(self)@ == old(self)@,
            },
    {
        let stream: i64 = match read_packet_line(line) {
            Some((stream, _)) => stream,
            None => {
                return ;
            },
        };
        let ms: i64 = match dts_ms {
            Some(ms) => ms,
            None => {
                return ;
            },
        };
        self.packets = self.packets + 1;
        match self.clocks.tick(stream, ms) {
            Some(last) => {
                let step: i128 = ms as i128 - last as i128;
                if step > MAX_PACKET_STEP_MS as i128 {
                    let jump: i64 = if step > 9223372036854775807i128 {
                        9223372036854775807i64
                    } else {
                        step as i64
                    };
                    self.max_forward_jump_ms =
                    match self.max_forward_jump_ms {
                        Some(seen) => if seen >= jump {
                            Some(seen)
                        } else {
                            Some(jump)
                        },
                        None => Some(jump),
                    };
                }
            },
            None => {},
        }
    }

    /// How far apart the streams begin; 0 where there is none.
    pub fn start_skew_ms(&self) -> (skew: i64)
        ensures
            is_start_skew(self@.clocks, skew as int),
    {
        self.clocks.start_skew_ms()
    }
}

/// The timestamps of the packets of `stream`, in their order.
pub open spec fn times_of(packets: Seq<Packet>, stream: int) -> Seq<int>
    decreases packets.len(),
{
    if packets.len() == 0 {
        Seq::empty()
    } else if packets.last().stream == stream {
        times_of(packets.drop_last(), stream).push(packets.last().ms)
    } else {
        times_of(packets.drop_last(), stream)
    }
}

/// The step from packet `k` of `stream` to the next one of that stream.
pub open spec fn step_in(packets: Seq<Packet>, stream: int, k: int) -> int {
    times_of(packets, stream)[k + 1] - times_of(packets, stream)[k]
}

/// Whether the step from packet `k` of `stream` to the next one of that stream is over the limit.
pub open spec fn jumps_in(packets: Seq<Packet>, stream: int, k: int) -> bool {
    0 <= k && k + 1 < times_of(packets, stream).len() && step_in(packets, stream, k)
        > MAX_PACKET_STEP_MS
}

/// Whether `jump` is the largest step over the limit within a stream, cut off at the largest number
/// of 64 bits; nothing where no step is over the limit.
pub open spec fn is_largest_jump(packets: Seq<Packet>, jump: Option<int>) -> bool {
    match jump {
        Some(most) => {
            &&& exists|stream: int, k: int| #[trigger]
                jumps_in(packets, stream, k) && most == cut_off(step_in(packets, stream, k))
            &&& forall|stream: int, k: int| #[trigger]
                jumps_in(packets, stream, k) ==> cut_off(step_in(packets, stream, k)) <= most
        },
        None => forall|stream: int, k: int| !(#[trigger] jumps_in(packets, stream, k)),
    }
}

/// The clock of a stream shows the first and the latest of its packets, and a stream without
/// packets has none.
pub proof fn law_a_clock_shows_the_first_packet(packets: Seq<Packet>, stream: int)
    ensures
        scan_of(packets).clocks.dom().contains(stream) <==> times_of(packets, stream).len() > 0,
        times_of(packets, stream).len() > 0 ==> scan_of(packets).clocks[stream] == (
            times_of(packets, stream)[0],
            times_of(packets, stream).last(),
        ),
        scan_of(packets).packets == packets.len(),
    decreases packets.len(),
{
    if packets.len() > 0 {
        law_a_clock_shows_the_first_packet(packets.drop_last(), stream);
    }
}

/// A scan reports the largest step over the limit within a stream, and nothing where there is
/// none: neither a step backwards nor a difference between two streams counts.
pub proof fn law_a_jump_is_reported_where_one_is(packets: Seq<Packet>)
    ensures
        is_largest_jump(packets, scan_of(packets).max_jump),
    decreases packets.len(),
{
    if packets.len() > 0 {
        let rest = packets.drop_last();
        let last = packets.last();
        law_a_jump_is_reported_where_one_is(rest);
        law_a_clock_shows_the_first_packet(rest, last.stream);
        let known = times_of(rest, last.stream);
        let n = known.len() - 1;
        assert forall|stream: int, k: int|
            jumps_in(rest, stream, k) implies #[trigger] jumps_in(packets, stream, k) && step_in(
            packets,
            stream,
            k,
        ) == step_in(rest, stream, k) by {}
        assert forall|stream: int, k: int| #[trigger] jumps_in(packets, stream, k) implies (
        jumps_in(rest, stream, k) && step_in(packets, stream, k) == step_in(rest, stream, k)) || (
        stream == last.stream && k == n && step_in(packets, stream, k) == last.ms
            - scan_of(rest).clocks[last.stream].1) by {}
        match scan_of(rest).max_jump {
            Some(most) => {
                let (stream, k) = choose|stream: int, k: int| #[trigger]
                    jumps_in(rest, stream, k) && most == cut_off(step_in(rest, stream, k));
                assert(jumps_in(packets, stream, k));
            },
            None => {},
        }
        if known.len() > 0 && last.ms - known.last() > MAX_PACKET_STEP_MS {
            assert(jumps_in(packets, last.stream, n));
        }
    }
}

proof fn lemma_only_one_is_largest(packets: Seq<Packet>, a: Option<int>, b: Option<int>)
    requires
        is_largest_jump(packets, a),
        is_largest_jump(packets, b),
    ensures
        a == b,
{
    if let Some(most) = a {
        let (stream, k) = choose|stream: int, k: int| #[trigger]
            jumps_in(packets, stream, k) && most == cut_off(step_in(packets, stream, k));
        assert(jumps_in(packets, stream, k));
    }
    if let Some(most) = b {
        let (stream, k) = choose|stream: int, k: int| #[trigger]
            jumps_in(packets, stream, k) && most == cut_off(step_in(packets, stream, k));
        assert(jumps_in(packets, stream, k));
    }
}

/// The place of the latest packet of `stream`.
spec fn latest_of(packets: Seq<Packet>, stream: int) -> int
    decreases packets.len(),
{
    if packets.len() == 0 || packets.last().stream == stream {
        packets.len() - 1
    } else {
        latest_of(packets.drop_last(), stream)
    }
}

proof fn lemma_latest_removed(packets: Seq<Packet>, stream: int, other: int)
    requires
        times_of(packets, stream).len() > 0,
    ensures
        ({
            let at = latest_of(packets, stream);
            &&& 0 <= at < packets.len()
            &&& times_of(packets.remove(at), other) == if other == stream {
                times_of(packets, stream).drop_last()
            } else {
                times_of(packets, other)
            }
        }),
    decreases packets.len(),
{
    let at = latest_of(packets, stream);
    let front = packets.drop_last();
    if packets.last().stream == stream {
        assert(packets.remove(at) =~= front);
        assert(times_of(front, stream).push(packets.last().ms).drop_last() =~= times_of(
            front,
            stream,
        ));
    } else {
        lemma_latest_removed(front, stream, other);
        assert(packets.remove(at).drop_last() =~= front.remove(at));
        assert(packets.remove(at).last() == packets.last());
    }
}

proof fn lemma_same_length(a: Seq<Packet>, b: Seq<Packet>)
    requires
        forall|stream: int| #[trigger] times_of(a, stream) == times_of(b, stream),
    ensures
        a.len() == b.len(),
    decreases a.len(),
{
    if a.len() == 0 {
        if b.len() > 0 {
            assert(times_of(a, b.last().stream) == times_of(b, b.last().stream));
            assert(times_of(b, b.last().stream).len() > 0);
        }
    } else {
        let stream = a.last().stream;
        let front = a.drop_last();
        assert(times_of(a, stream) == times_of(b, stream));
        lemma_latest_removed(b, stream, stream);
        let fewer = b.remove(latest_of(b, stream));
        assert forall|other: int| #[trigger] times_of(front, other) == times_of(fewer, other) by {
            lemma_latest_removed(b, stream, other);
            assert(times_of(a, other) == times_of(b, other));
            if other == stream {
                assert(times_of(front, stream).push(a.last().ms).drop_last() =~= times_of(
                    front,
                    stream,
                ));
            }
        }
        lemma_same_length(front, fewer);
    }
}

/// How the streams are interleaved plays no part: two runs of packets that hold the same
/// timestamps for each stream, in the same order, give the same scan.
pub proof fn law_interleaving_plays_no_part(a: Seq<Packet>, b: Seq<Packet>)
    requires
        forall|stream: int| #[trigger] times_of(a, stream) == times_of(b, stream),
    ensures
        scan_of(a) == scan_of(b),
{
    lemma_same_length(a, b);
    law_a_clock_shows_the_first_packet(a, 0);
    law_a_clock_shows_the_first_packet(b, 0);
    assert forall|stream: int| #[trigger]
        scan_of(a).clocks.dom().contains(stream) == scan_of(b).clocks.dom().contains(stream) by {
        assert(times_of(a, stream) == times_of(b, stream));
        law_a_clock_shows_the_first_packet(a, stream);
        law_a_clock_shows_the_first_packet(b, stream);
    }
    assert forall|stream: int| #[trigger]
        scan_of(a).clocks.dom().contains(stream) implies scan_of(a).clocks[stream]
        == scan_of(b).clocks[stream] by {
        assert(times_of(a, stream) == times_of(b, stream));
        law_a_clock_shows_the_first_packet(a, stream);
        law_a_clock_shows_the_first_packet(b, stream);
    }
    assert(scan_of(a).clocks.dom() =~= scan_of(b).clocks.dom());
    assert(scan_of(a).clocks =~= scan_of(b).clocks);
    law_a_jump_is_reported_where_one_is(a);
    law_a_jump_is_reported_where_one_is(b);
    assert forall|stream: int, k: int| #[trigger]
        jumps_in(a, stream, k) == jumps_in(b, stream, k) && step_in(a, stream, k) == step_in(
            b,
            stream,
            k,
        ) by {
        assert(times_of(a, stream) == times_of(b, stream));
    }
    let jump = scan_of(b).max_jump;
    assert(is_largest_jump(a, jump)) by {
        if let Some(most) = jump {
            let (stream, k) = choose|stream: int, k: int| #[trigger]
                jumps_in(b, stream, k) && most == cut_off(step_in(b, stream, k));
            assert(jumps_in(a, stream, k));
        }
    }
    lemma_only_one_is_largest(a, scan_of(a).max_jump, jump);
}

/// The first place at or behind `at` where a character begins, or the end.
pub open spec fn next_boundary(bytes: Seq<u8>, at: int) -> int
    decreases bytes.len() - at,
{
    if at >= bytes.len() {
        bytes.len() as int
    } else if is_char_boundary(bytes, at) {
        at
    } else {
        next_boundary(bytes, at + 1)
    }
}

/// The tail window of `bytes`: what is over the limit is cut off at the front, a character that
/// would be split with it.
pub open spec fn tail_window(bytes: Seq<u8>) -> Seq<u8> {
    if bytes.len() <= STDERR_TAIL_LIMIT {
        bytes
    } else {
        bytes.skip(next_boundary(bytes, bytes.len() - STDERR_TAIL_LIMIT))
    }
}

proof fn lemma_next_boundary(bytes: Seq<u8>, at: int)
    requires
        valid_utf8(bytes),
        0 <= at <= bytes.len(),
    ensures
        at <= next_boundary(bytes, at) <= bytes.len(),
        is_char_boundary(bytes, next_boundary(bytes, at)),
    decreases bytes.len() - at,
{
    if at == bytes.len() {
        is_char_boundary_start_end_of_seq(bytes);
    } else if !is_char_boundary(bytes, at) {
        lemma_next_boundary(bytes, at + 1);
    }
}

/// The window is an end of the text, within the limit, and made of whole characters.
pub proof fn law_the_window_is_a_readable_end(bytes: Seq<u8>)
    requires
        valid_utf8(bytes),
    ensures
        tail_window(bytes).len() <= STDERR_TAIL_LIMIT,
        tail_window(bytes).len() <= bytes.len(),
        tail_window(bytes) == bytes.skip(bytes.len() - tail_window(bytes).len()),
        valid_utf8(tail_window(bytes)),
{
    if bytes.len() > STDERR_TAIL_LIMIT {
        let cut = next_boundary(bytes, bytes.len() - STDERR_TAIL_LIMIT);
        lemma_next_boundary(bytes, bytes.len() - STDERR_TAIL_LIMIT);
        assert(bytes.skip(cut) =~= bytes.subrange(cut, bytes.len() as int));
        valid_utf8_split(bytes, cut);
    } else {
        assert(bytes.skip(0) =~= bytes);
    }
}

/// Cuts `buffer` down to its tail window.
pub fn trim_to_tail(buffer: &mut String)
    ensures
        encode_utf8(final(buffer)@) == tail_window(encode_utf8(old(buffer)@)),
{
    let text: &str = buffer.as_str();
    let ghost bytes = encode_utf8(text@);
    let length: usize = text.as_bytes().len();
    if length <= STDERR_TAIL_LIMIT {
        return ;
    }
    let mut cut: usize = length - STDERR_TAIL_LIMIT;
    proof {
        encode_utf8_valid_utf8(text@);
        is_char_boundary_start_end_of_seq(bytes);
    }
    while cut < length && !text.is_char_boundary(cut)
        invariant
            bytes == encode_utf8(text@),
            length == bytes.len(),
            cut <= length,
            next_boundary(bytes, cut as int) == next_boundary(bytes, length - STDERR_TAIL_LIMIT),
        decreases length - cut,
    {
        cut = cut + 1;
    }
    let (_, back): (&str, &str) = text.split_at(cut);
    let kept: String = own(back);
    assert(bytes.subrange(cut as int, bytes.len() as int) =~= bytes.skip(cut as int));
    *buffer = kept;
}

/// What the diagnostics of one run have said so far.
pub struct StderrScan {
    /// The tail window of the diagnostics.
    pub tail: String,
    /// Whether any line named a timestamp fault.
    pub timestamp_anomaly: bool,
    /// The largest known step backwards; `None` where no amount could be read.
    pub max_backward_ms: Option<i64>,
    /// How many lines named a timestamp fault.
    pub anomaly_lines: u64,
}

/// A bounded number, or none, as a mathematical value.
pub open spec fn opt_int(number: Option<i64>) -> Option<int> {
    match number {
        Some(value) => Some(value as int),
        None => None,
    }
}

/// What is known of the diagnostics after one more line, but for the window.
pub open spec fn after_line(before: StderrScan, line: Seq<char>, after: StderrScan) -> bool {
    let fault = names_fault(line);
    &&& after.timestamp_anomaly == (before.timestamp_anomaly || fault)
    &&& after.anomaly_lines == before.anomaly_lines + (if fault {
        1int
    } else {
        0
    })
    &&& opt_int(after.max_backward_ms) == match backward_step(line) {
        Some(step) if fault => larger(opt_int(before.max_backward_ms), step),
        _ => opt_int(before.max_backward_ms),
    }
}

/// The window after one more line: it may grow to twice the limit before it is cut.
pub open spec fn window_after(window: Seq<char>, line: Seq<char>) -> Seq<u8> {
    let bytes = encode_utf8(window + line);
    if bytes.len() > 2 * STDERR_TAIL_LIMIT {
        tail_window(bytes)
    } else {
        bytes
    }
}

impl StderrScan {
    /// Diagnostics of which nothing was read yet.
    pub fn new() -> (scan: StderrScan)
        ensures
            scan.tail@ == Seq::<char>::empty(),
            !scan.timestamp_anomaly,
            scan.max_backward_ms is None,
            scan.anomaly_lines == 0,
    {
        StderrScan {
            tail: String::new(),
            timestamp_anomaly: false,
            max_backward_ms: None,
            anomaly_lines: 0,
        }
    }

    /// Takes in one line and tells whether it names a fault whose amount could not be read.
    pub fn push_line(&mut self, line: &str) -> (unread: bool)
        requires
            old(self).anomaly_lines < u64::MAX,
        ensures
            after_line(*old(self), line@, *final(self)),
            encode_utf8(final(self).tail@) == window_after(old(self).tail@, line@),
            unread == (names_fault(line@) && backward_step(line@) is None),
    {
        let mut unread: bool = false;
        if stderr_indicates_anomaly(line) {
            self.timestamp_anomaly = true;
            self.anomaly_lines = self.anomaly_lines + 1;
            match parse_backward_ms(line) {
                Some(step) => {
                    self.max_backward_ms =
                    match self.max_backward_ms {
                        Some(seen) => if seen >= step {
                            Some(seen)
                        } else {
                            Some(step)
                        },
                        None => Some(step),
                    };
                },
                None => {
                    unread = true;
                },
            }
        }
        self.tail.append(line);
        if self.tail.as_str().as_bytes().len() > STDERR_TAIL_LIMIT * 2 {
            trim_to_tail(&mut self.tail);
        }
        unread
    }

    /// Ends the reading: the window is cut down to its limit.
    pub fn finish(&mut self)
        ensures
            encode_utf8(final(self).tail@) == tail_window(encode_utf8(old(self).tail@)),
            final(self).timestamp_anomaly == old(self).timestamp_anomaly,
            final(self).max_backward_ms == old(self).max_backward_ms,
            final(self).anomaly_lines == old(self).anomaly_lines,
    {
        trim_to_tail(&mut self.tail);
    }
}

/// All that `lines` have printed.
pub open spec fn printed(lines: Seq<Seq<char>>) -> Seq<char>
    decreases lines.len(),
{
    if lines.len() == 0 {
        Seq::empty()
    } else {
        printed(lines.drop_last()) + lines.last()
    }
}

/// How many of `lines` name a timestamp fault.
pub open spec fn fault_count(lines: Seq<Seq<char>>) -> int
    decreases lines.len(),
{
    if lines.len() == 0 {
        0
    } else {
        fault_count(lines.drop_last()) + (if names_fault(lines.last()) {
            1int
        } else {
            0
        })
    }
}

/// The largest step backwards that a fault line among `lines` tells.
pub open spec fn largest_step(lines: Seq<Seq<char>>) -> Option<int>
    decreases lines.len(),
{
    if lines.len() == 0 {
        None
    } else {
        match backward_step(lines.last()) {
            Some(step) if names_fault(lines.last()) => larger(
                largest_step(lines.drop_last()),
                step,
            ),
            _ => largest_step(lines.drop_last()),
        }
    }
}

/// Whether `scans` are the states of one reading: nothing read at first, and one of `lines` read
/// from each to the next.
pub open spec fn reads(scans: Seq<StderrScan>, lines: Seq<Seq<char>>) -> bool {
    &&& scans.len() == lines.len() + 1
    &&& scans[0].tail@ == Seq::<char>::empty()
    &&& !scans[0].timestamp_anomaly
    &&& scans[0].max_backward_ms is None
    &&& scans[0].anomaly_lines == 0
    &&& forall|i: int|
        0 <= i < lines.len() ==> after_line(scans[i], #[trigger] lines[i], scans[i + 1])
            && encode_utf8(scans[i + 1].tail@) == window_after(scans[i].tail@, lines[i])
}

proof fn lemma_encode_joined(front: Seq<char>, back: Seq<char>)
    ensures
        encode_utf8(front + back) == encode_utf8(front) + encode_utf8(back),
    decreases front.len(),
{
    if front.len() == 0 {
        assert(front + back =~= back);
        assert(encode_utf8(front) + encode_utf8(back) =~= encode_utf8(back));
    } else {
        assert((front + back).drop_first() =~= front.drop_first() + back);
        lemma_encode_joined(front.drop_first(), back);
        assert(encode_utf8(front + back) =~= encode_utf8(front) + encode_utf8(back));
    }
}

proof fn lemma_no_boundary_before(bytes: Seq<u8>, at: int, q: int)
    requires
        valid_utf8(bytes),
        0 <= at <= q <= bytes.len(),
        q < bytes.len() ==> is_char_boundary(bytes, q),
    ensures
        next_boundary(bytes, at) <= q,
    decreases q - at,
{
    if at < q && !is_char_boundary(bytes, at) {
        lemma_no_boundary_before(bytes, at + 1, q);
    }
}

proof fn lemma_boundary_shifted(bytes: Seq<u8>, from: int, at: int)
    requires
        valid_utf8(bytes),
        0 <= from <= bytes.len(),
        valid_utf8(bytes.skip(from)),
        0 <= at <= bytes.len() - from,
    ensures
        next_boundary(bytes, from + at) == from + next_boundary(bytes.skip(from), at),
    decreases bytes.len() - from - at,
{
    let end = bytes.skip(from);
    if at < end.len() {
        assert(end[at] == bytes[from + at]);
        is_char_boundary_iff_not_is_continuation_byte(end, at);
        is_char_boundary_iff_not_is_continuation_byte(bytes, from + at);
        if !is_char_boundary(end, at) {
            lemma_boundary_shifted(bytes, from, at + 1);
        }
    }
}

/// An end of a text that holds the text's window has that window too.
proof fn lemma_window_of_an_end(bytes: Seq<u8>, end: Seq<u8>)
    requires
        valid_utf8(bytes),
        valid_utf8(end),
        end.len() <= bytes.len(),
        end == bytes.skip(bytes.len() - end.len()),
        tail_window(bytes).len() <= end.len(),
    ensures
        tail_window(end) == tail_window(bytes),
{
    let from = bytes.len() - end.len();
    if bytes.len() <= STDERR_TAIL_LIMIT {
        assert(bytes.skip(0) =~= bytes);
    } else {
        let at = bytes.len() - STDERR_TAIL_LIMIT;
        let cut = next_boundary(bytes, at);
        lemma_next_boundary(bytes, at);
        if end.len() > STDERR_TAIL_LIMIT {
            lemma_boundary_shifted(bytes, from, at - from);
            assert(end.skip(cut - from) =~= bytes.skip(cut));
        } else {
            if from < bytes.len() {
                assert(end[0] == bytes[from]);
                is_char_boundary_start_end_of_seq(end);
                is_char_boundary_iff_not_is_continuation_byte(end, 0);
                is_char_boundary_iff_not_is_continuation_byte(bytes, from);
            }
            lemma_no_boundary_before(bytes, at, from);
        }
    }
}

/// The window of a text that goes on begins no earlier.
proof fn lemma_window_moves_on(bytes: Seq<u8>, more: Seq<u8>)
    requires
        valid_utf8(bytes),
        valid_utf8(bytes + more),
    ensures
        tail_window(bytes + more).len() <= tail_window(bytes).len() + more.len(),
{
    let whole = bytes + more;
    law_the_window_is_a_readable_end(whole);
    if bytes.len() > STDERR_TAIL_LIMIT {
        let at = bytes.len() - STDERR_TAIL_LIMIT;
        let cut = next_boundary(bytes, at);
        let later = next_boundary(whole, at + more.len());
        lemma_next_boundary(bytes, at);
        lemma_next_boundary(whole, at + more.len());
        if later < cut {
            assert(whole[later] == bytes[later]);
            is_char_boundary_iff_not_is_continuation_byte(whole, later);
            is_char_boundary_iff_not_is_continuation_byte(bytes, later);
            lemma_no_boundary_before(bytes, at, later);
        }
    }
}

/// What holds after the first `n` of `lines`.
proof fn lemma_reading(scans: Seq<StderrScan>, lines: Seq<Seq<char>>, n: int)
    requires
        reads(scans, lines),
        0 <= n <= lines.len(),
    ensures
        scans[n].timestamp_anomaly <==> exists|i: int|
            0 <= i < n && names_fault(#[trigger] lines[i]),
        scans[n].anomaly_lines == fault_count(lines.take(n)),
        opt_int(scans[n].max_backward_ms) == largest_step(lines.take(n)),
        ({
            let whole = encode_utf8(printed(lines.take(n)));
            let kept = encode_utf8(scans[n].tail@);
            &&& kept.len() <= whole.len()
            &&& kept == whole.skip(whole.len() - kept.len())
            &&& tail_window(whole).len() <= kept.len()
        }),
    decreases n,
{
    if n == 0 {
        assert(lines.take(0) =~= Seq::<Seq<char>>::empty());
        let none = encode_utf8(Seq::<char>::empty());
        assert(none.skip(0) =~= none);
    } else {
        let m = n - 1;
        lemma_reading(scans, lines, m);
        let line = lines[m];
        assert(lines.take(n).drop_last() =~= lines.take(m));
        assert(after_line(scans[m], line, scans[m + 1]));
        if exists|i: int| 0 <= i < n && names_fault(#[trigger] lines[i]) {
            let i = choose|i: int| 0 <= i < n && names_fault(#[trigger] lines[i]);
            assert(i < m || i == m);
        }
        let before = printed(lines.take(m));
        let whole = encode_utf8(before);
        let kept = encode_utf8(scans[m].tail@);
        let more = encode_utf8(line);
        lemma_encode_joined(before, line);
        lemma_encode_joined(scans[m].tail@, line);
        encode_utf8_valid_utf8(before);
        encode_utf8_valid_utf8(before + line);
        encode_utf8_valid_utf8(scans[m].tail@ + line);
        lemma_window_moves_on(whole, more);
        let all = whole + more;
        let grown = kept + more;
        assert(grown =~= all.skip(all.len() - grown.len()));
        lemma_window_of_an_end(all, grown);
        law_the_window_is_a_readable_end(all);
    }
}

/// However much is printed, a fault on any line is noticed and counted, the largest known step
/// backwards is that of all lines, and what is kept in the end is the tail window of everything.
pub proof fn law_no_line_is_missed(
    scans: Seq<StderrScan>,
    lines: Seq<Seq<char>>,
    finished: StderrScan,
)
    requires
        reads(scans, lines),
        finished.timestamp_anomaly == scans.last().timestamp_anomaly,
        finished.max_backward_ms == scans.last().max_backward_ms,
        finished.anomaly_lines == scans.last().anomaly_lines,
        encode_utf8(finished.tail@) == tail_window(encode_utf8(scans.last().tail@)),
    ensures
        finished.timestamp_anomaly <==> exists|i: int|
            0 <= i < lines.len() && names_fault(#[trigger] lines[i]),
        finished.anomaly_lines == fault_count(lines),
        opt_int(finished.max_backward_ms) == largest_step(lines),
        encode_utf8(finished.tail@) == tail_window(encode_utf8(printed(lines))),
{
    let n = lines.len() as int;
    lemma_reading(scans, lines, n);
    assert(lines.take(n) =~= lines);
    encode_utf8_valid_utf8(printed(lines));
    encode_utf8_valid_utf8(scans.last().tail@);
    lemma_window_of_an_end(encode_utf8(printed(lines)), encode_utf8(scans.last().tail@));
}

/// What is reported of a run that has ended.
#[derive(Clone, Copy, Debug, PartialEq, Eq, Structural)]
pub enum ScanReport {
    /// The process failed.
    ProcessFailed,
    /// It ended well and named faults, of which no amount could be read.
    AnomalyUnparsed,
    Nothing,
}

/// What is reported of a run that ended with `success`.
pub fn scan_report(success: bool, scan: &StderrScan) -> (report: ScanReport)
    ensures
        report == (if !success {
            ScanReport::ProcessFailed
        } else if scan.timestamp_anomaly && scan.max_backward_ms is None {
            ScanReport::AnomalyUnparsed
        } else {
            ScanReport::Nothing
        }),
{
    if !success {
        ScanReport::ProcessFailed
    } else if scan.timestamp_anomaly && scan.max_backward_ms.is_none() {
        ScanReport::AnomalyUnparsed
    } else {
        ScanReport::Nothing
    }
}

/// A line that was read, as text; what is no text in it is replaced.
pub fn line_text(line: &[u8]) -> (text: String)
    ensures
        text@ == lossy_text(line@),
{
    decode_lossy(line)
}

} // verus!
