//! RTP/RTCP statistics tracking.
//!
//! Extended sequence numbers per RFC 3550, with the wrap of the 16-bit sequence
//! number counted in the upper half.

use vstd::prelude::*;

verus! {

/// RTP/RTCP statistics snapshot.
#[derive(Debug, Clone)]
pub struct RtpStats {
    /// Total RTP packets sent.
    pub packets_sent: u64,
    /// Total RTP packets received.
    pub packets_received: u64,
    /// Total payload bytes sent.
    pub bytes_sent: u64,
    /// Total payload bytes received.
    pub bytes_received: u64,
    /// Estimated packets lost.
    pub packets_lost: u64,
    /// Interarrival jitter in microseconds.
    pub jitter_us: u64,
    /// Codec name.
    pub codec_name: String,
    /// Extended highest sequence number (holds rollover cycles).
    pub extended_highest_seq: u32,
    /// Number of sequence number rollovers.
    pub seq_cycles: u16,
}

impl Default for RtpStats {
    fn default() -> (stats: Self)
        ensures
            stats.packets_sent == 0,
            stats.packets_received == 0,
            stats.bytes_sent == 0,
            stats.bytes_received == 0,
            stats.packets_lost == 0,
            stats.jitter_us == 0,
            stats.codec_name@ == Seq::<char>::empty(),
            stats.extended_highest_seq == 0,
            stats.seq_cycles == 0,
    {
        RtpStats {
            packets_sent: 0,
            packets_received: 0,
            bytes_sent: 0,
            bytes_received: 0,
            packets_lost: 0,
            jitter_us: 0,
            codec_name: String::new(),
            extended_highest_seq: 0,
            seq_cycles: 0,
        }
    }
}

/// Counters for tracking RTP statistics.
#[derive(Debug, Clone)]
pub struct RtpCounters {
    /// Packets sent.
    pub packets_sent: u64,
    /// Packets received.
    pub packets_received: u64,
    /// Payload bytes sent.
    pub bytes_sent: u64,
    /// Payload bytes received.
    pub bytes_received: u64,
    /// Packets lost.
    pub packets_lost: u64,
    /// Jitter in microseconds.
    pub jitter_us: u64,
    /// Codec name.
    pub codec_name: String,
    /// Extended highest sequence number (upper 16 bits: cycles, lower 16: sequence).
    pub highest_seq: u32,
    /// Expected packets based on sequence numbers.
    pub expected_packets: u64,
    /// Whether the first packet has arrived.
    pub initialized: bool,
    /// Sequence number of the first packet.
    pub base_seq: u32,
}

/// What the sequence numbers received so far say.
pub struct SequenceState {
    /// Whether the first packet has arrived.
    pub initialized: bool,
    /// Sequence number of the first packet.
    pub base: u32,
    /// Extended highest sequence number.
    pub highest: u32,
    /// Expected packets.
    pub expected: u64,
}

/// `x` reduced to 32 bits.
pub open spec fn wrap32(x: int) -> u32 {
    (x % 0x1_0000_0000) as u32
}

/// The number of the packet with sequence number `seq` in the whole stream, judged
/// by the highest number so far: of those that end in `seq` the nearest one. It is
/// negative for a packet from before the count began.
pub open spec fn packet_number(highest: u32, seq: u16) -> int {
    let last = highest % 0x1_0000;
    if last - seq > 0x8000 {
        highest - last + 0x1_0000 + seq
    } else if seq - last > 0x8000 {
        highest - last - 0x1_0000 + seq
    } else {
        highest - last + seq
    }
}

/// The state once the packet with sequence number `seq` has been counted.
pub open spec fn after_packet(state: SequenceState, seq: u16) -> SequenceState {
    let number = packet_number(state.highest, seq);
    if !state.initialized {
        SequenceState { initialized: true, base: seq as u32, highest: seq as u32, expected: 1 }
    } else if number > state.highest {
        SequenceState {
            highest: wrap32(number),
            expected: (wrap32(number - state.base) + 1) as u64,
            ..state
        }
    } else {
        state
    }
}

/// Whether the packets expected are those from the first one to the highest.
pub open spec fn consistent(state: SequenceState) -> bool {
    state.initialized ==> state.expected == wrap32(state.highest - state.base) + 1
}

/// The counters once a packet with `bytes` bytes of payload has been sent.
pub open spec fn after_sent(counters: RtpCounters, bytes: int) -> RtpCounters {
    RtpCounters {
        packets_sent: wrap64(counters.packets_sent + 1),
        bytes_sent: wrap64(counters.bytes_sent + bytes),
        ..counters
    }
}

/// The counters once a packet with `bytes` bytes of payload and sequence number
/// `seq` has been received.
pub open spec fn after_received(counters: RtpCounters, bytes: int, seq: u16) -> RtpCounters {
    let state = after_packet(counters.sequence(), seq);
    RtpCounters {
        packets_received: wrap64(counters.packets_received + 1),
        bytes_received: wrap64(counters.bytes_received + bytes),
        initialized: state.initialized,
        base_seq: state.base,
        highest_seq: state.highest,
        expected_packets: state.expected,
        ..counters
    }
}

/// `x` reduced to 64 bits.
pub open spec fn wrap64(x: int) -> u64 {
    (x % 0x1_0000_0000_0000_0000) as u64
}

/// The power of two, from `unit` on, in whose multiples `x` has at most 53 binary
/// digits.
pub open spec fn unit53(x: nat, unit: nat) -> nat
    decreases x - unit,
{
    if unit == 0 || x < 0x20_0000_0000_0000 * unit {
        unit
    } else {
        unit53(x, unit * 2)
    }
}

/// `x` to the nearest number of 53 significant binary digits, ties to the even
/// one: the precision in which jitter is filtered.
pub open spec fn nearest53(x: nat) -> nat {
    let unit = unit53(x, 1);
    let q = x / unit;
    let r = x % unit;
    if 2 * r > unit || (2 * r == unit && q % 2 == 1) {
        (q + 1) * unit
    } else {
        q * unit
    }
}

/// The RFC 3550 filter: one sixteenth of the way from the old jitter to the new
/// transit difference, in the precision of [`nearest53`] and rounded down.
pub open spec fn filtered_jitter(jitter: u64, diff: u64) -> u64 {
    let p = nearest53(jitter as nat);
    let d = nearest53(diff as nat);
    let step: int = if d >= p {
        nearest53((d - p) as nat) as int
    } else {
        -nearest53((p - d) as nat)
    };
    let next = nearest53((16 * p + step) as nat) / 16;
    if next <= u64::MAX {
        next as u64
    } else {
        u64::MAX
    }
}

proof fn lemma_unit53(x: nat, unit: nat)
    requires
        unit > 0,
        x < 0x200_0000_0000_0000_0000_0000,
    ensures
        unit53(x, unit) >= unit,
        unit53(x, unit) == unit || 0x20_0000_0000_0000 * unit53(x, unit) <= 2 * x,
        x < 0x20_0000_0000_0000 * unit53(x, unit),
    decreases x - unit,
{
    if x >= 0x20_0000_0000_0000 * unit {
        lemma_unit53(x, unit * 2);
    }
}

proof fn lemma_nearest53(x: nat)
    requires
        x < 0x200_0000_0000_0000_0000_0000,
    ensures
        nearest53(x) <= 2 * x,
        x <= 0x20_0000_0000_0000 ==> nearest53(x) == x,
        2 * nearest53(x) >= x,
{
    lemma_unit53(x, 1);
    let unit = unit53(x, 1);
    let q = x / unit;
    let r = x % unit;
    assert(x == q * unit + r) by {
        vstd::arithmetic::div_mod::lemma_fundamental_div_mod(x as int, unit as int);
        vstd::arithmetic::mul::lemma_mul_is_commutative(q as int, unit as int);
    }
    assert((q + 1) * unit == q * unit + unit) by (nonlinear_arith);
    if x <= 0x20_0000_0000_0000 {
        reveal_with_fuel(unit53, 3);
        if x < 0x20_0000_0000_0000 {
            assert(unit == 1);
        } else {
            assert(unit == 2);
        }
    }
}

/// `x` to the nearest number of 53 significant binary digits.
fn round53(x: u128) -> (y: u128)
    requires
        x < 0x20_0000_0000_0000_0000_0000,
    ensures
        y == nearest53(x as nat),
        y <= 2 * x,
{
    let mut unit: u128 = 1;
    while x >= 0x20_0000_0000_0000 * unit
        invariant
            unit > 0,
            unit <= 2 * x + 1,
            x < 0x20_0000_0000_0000_0000_0000,
            0x10_0000_0000_0000 * unit <= x || unit == 1,
            unit53(x as nat, 1) == unit53(x as nat, unit as nat),
        decreases 2 * x + 2 - unit,
    {
        unit = unit * 2;
    }
    proof {
        lemma_nearest53(x as nat);
        vstd::arithmetic::div_mod::lemma_fundamental_div_mod(x as int, unit as int);
    }
    let q = x / unit;
    let r = x % unit;
    assert((q + 1) * unit == q * unit + unit) by (nonlinear_arith);
    assert(q * unit + r == x) by {
        vstd::arithmetic::mul::lemma_mul_is_commutative(q as int, unit as int);
    }
    if 2 * r > unit || (2 * r == unit && q % 2 == 1) {
        (q + 1) * unit
    } else {
        q * unit
    }
}

/// The extended number of the packet with sequence number `seq`, if it lies above
/// the highest one.
fn extend_sequence(prev_extended: u32, seq: u16) -> (extended: Option<u32>)
    ensures
        extended == if packet_number(prev_extended, seq) > prev_extended {
            Some(wrap32(packet_number(prev_extended, seq)))
        } else {
            None
        },
{
    let prev_seq: u16 = (prev_extended % 0x1_0000) as u16;
    let cycles: u32 = prev_extended / 0x1_0000;
    if seq < prev_seq && prev_seq - seq > 0x8000 {
        // Wrapped forward.
        Some(((cycles + 1) % 0x1_0000) * 0x1_0000 + seq as u32)
    } else if seq > prev_seq && seq - prev_seq <= 0x8000 {
        Some(cycles * 0x1_0000 + seq as u32)
    } else {
        // Late, from before the wrap too, or a duplicate.
        None
    }
}

impl RtpCounters {
    /// What the sequence numbers received so far say.
    pub open spec fn sequence(&self) -> SequenceState {
        SequenceState {
            initialized: self.initialized,
            base: self.base_seq,
            highest: self.highest_seq,
            expected: self.expected_packets,
        }
    }

    /// Packets that were expected and did not come.
    pub open spec fn lost(&self) -> u64 {
        if self.expected_packets >= self.packets_received {
            (self.expected_packets - self.packets_received) as u64
        } else {
            0
        }
    }

    /// Creates a new set of counters.
    pub fn new(codec_name: &str) -> (counters: Self)
        ensures
            counters.packets_sent == 0,
            counters.packets_received == 0,
            counters.bytes_sent == 0,
            counters.bytes_received == 0,
            counters.packets_lost == 0,
            counters.jitter_us == 0,
            counters.codec_name@ == codec_name@,
            counters.sequence() == (SequenceState {
                initialized: false,
                base: 0,
                highest: 0,
                expected: 0,
            }),
    {
        RtpCounters {
            packets_sent: 0,
            packets_received: 0,
            bytes_sent: 0,
            bytes_received: 0,
            packets_lost: 0,
            jitter_us: 0,
            codec_name: codec_name.to_string(),
            highest_seq: 0,
            expected_packets: 0,
            initialized: false,
            base_seq: 0,
        }
    }

    /// Takes a snapshot of the current statistics, and notes the packets lost.
    pub fn snapshot(&mut self) -> (stats: RtpStats)
        ensures
            *final(self) == (RtpCounters { packets_lost: old(self).lost(), ..*old(self) }),
            stats.packets_sent == old(self).packets_sent,
            stats.packets_received == old(self).packets_received,
            stats.bytes_sent == old(self).bytes_sent,
            stats.bytes_received == old(self).bytes_received,
            stats.packets_lost == old(self).lost(),
            stats.jitter_us == old(self).jitter_us,
            stats.codec_name@ == old(self).codec_name@,
            stats.extended_highest_seq == old(self).highest_seq,
            stats.seq_cycles == old(self).highest_seq / 0x1_0000,
    {
        self.packets_lost = self.expected_packets.saturating_sub(self.packets_received);
        RtpStats {
            packets_sent: self.packets_sent,
            packets_received: self.packets_received,
            bytes_sent: self.bytes_sent,
            bytes_received: self.bytes_received,
            packets_lost: self.packets_lost,
            jitter_us: self.jitter_us,
            codec_name: self.codec_name.clone(),
            extended_highest_seq: self.highest_seq,
            seq_cycles: (self.highest_seq / 0x1_0000) as u16,
        }
    }

    /// Records a sent packet with `bytes` bytes of payload.
    pub fn record_sent(&mut self, bytes: u64)
        ensures
            *final(self) == after_sent(*old(self), bytes as int),
    {
        self.packets_sent = self.packets_sent.wrapping_add(1);
        self.bytes_sent = self.bytes_sent.wrapping_add(bytes);
    }

    /// Records a received packet with `bytes` bytes of payload and follows its
    /// sequence number.
    pub fn record_received(&mut self, bytes: u64, seq: u16)
        ensures
            *final(self) == after_received(*old(self), bytes as int, seq),
    {
        self.packets_received = self.packets_received.wrapping_add(1);
        self.bytes_received = self.bytes_received.wrapping_add(bytes);
        if !self.initialized {
            self.initialized = true;
            self.base_seq = seq as u32;
            self.highest_seq = seq as u32;
            self.expected_packets = 1;
            return;
        }
        if let Some(extended) = extend_sequence(self.highest_seq, seq) {
            self.highest_seq = extended;
            self.expected_packets = extended.wrapping_sub(self.base_seq) as u64 + 1;
        }
    }

    /// Updates the jitter (RFC 3550 algorithm).
    pub fn update_jitter(&mut self, transit_diff_us: u64)
        ensures
            *final(self) == (RtpCounters {
                jitter_us: filtered_jitter(old(self).jitter_us, transit_diff_us),
                ..*old(self)
            }),
    {
        let p: u128 = round53(self.jitter_us as u128);
        let d: u128 = round53(transit_diff_us as u128);
        let sum: u128 = if d >= p {
            16 * p + round53(d - p)
        } else {
            16 * p - round53(p - d)
        };
        let next: u128 = round53(sum) / 16;
        self.jitter_us = if next <= u64::MAX as u128 {
            next as u64
        } else {
            u64::MAX
        };
    }

    /// Resets all counters.
    pub fn reset(&mut self)
        ensures
            *final(self) == (RtpCounters {
                packets_sent: 0,
                packets_received: 0,
                bytes_sent: 0,
                bytes_received: 0,
                packets_lost: 0,
                jitter_us: 0,
                codec_name: old(self).codec_name,
                highest_seq: 0,
                expected_packets: 0,
                initialized: false,
                base_seq: 0,
            }),
    {
        self.packets_sent = 0;
        self.packets_received = 0;
        self.bytes_sent = 0;
        self.bytes_received = 0;
        self.packets_lost = 0;
        self.jitter_us = 0;
        self.highest_seq = 0;
        self.expected_packets = 0;
        self.initialized = false;
        self.base_seq = 0;
    }

    /// The extended highest sequence number (cycles in the upper half).
    pub fn extended_highest_seq(&self) -> (seq: u32)
        ensures
            seq == self.highest_seq,
    {
        self.highest_seq
    }

    /// The number of sequence cycles (rollovers).
    pub fn seq_cycles(&self) -> (cycles: u16)
        ensures
            cycles == self.highest_seq / 0x1_0000,
    {
        (self.highest_seq / 0x1_0000) as u16
    }
}

impl Default for RtpCounters {
    fn default() -> (counters: Self)
        ensures
            counters.packets_sent == 0,
            counters.packets_received == 0,
            counters.bytes_sent == 0,
            counters.bytes_received == 0,
            counters.packets_lost == 0,
            counters.jitter_us == 0,
            counters.codec_name@ == "unknown"@,
            counters.sequence() == (SequenceState {
                initialized: false,
                base: 0,
                highest: 0,
                expected: 0,
            }),
    {
        RtpCounters::new("unknown")
    }
}

// ---- what holds of the tracking ----
/// A packet less than half the sequence space ahead is taken for what it is,
/// across the wrap of the sequence number: the extended number moves on by the
/// distance, and the packets in between count as expected.
pub proof fn law_forward_packet_moves_on(state: SequenceState, ahead: int, seq: u16)
    requires
        state.initialized,
        1 <= ahead < 0x8000,
        state.highest + ahead <= u32::MAX,
        seq == (state.highest + ahead) % 0x1_0000,
    ensures
        after_packet(state, seq).highest == state.highest + ahead,
        after_packet(state, seq).expected == wrap32(state.highest + ahead - state.base) + 1,
        after_packet(state, seq).base == state.base,
{
}

/// A packet that was overtaken, less than half the sequence space behind, changes
/// nothing, also where it comes from before the count began.
pub proof fn law_late_packet_changes_nothing(state: SequenceState, behind: int, seq: u16)
    requires
        state.initialized,
        0 <= behind < 0x8000,
        seq == (state.highest - behind) % 0x1_0000,
    ensures
        after_packet(state, seq) == state,
{
}

/// Every packet counts at its number, the one nearest to the highest number so
/// far that ends in its sequence number: the highest number never goes down, it
/// rises to that of a packet from further on, and the packets expected are those
/// from the first one to the highest. The packet and its bytes count in any case.
pub proof fn law_packet_counts_at_its_number(
    counters: RtpCounters,
    bytes: int,
    seq: u16,
    number: int,
)
    requires
        counters.initialized,
        consistent(counters.sequence()),
        counters.base_seq <= counters.highest_seq,
        number % 0x1_0000 == seq,
        -0x8000 <= number - counters.highest_seq <= 0x8000,
        number - counters.highest_seq == 0x8000 || number - counters.highest_seq == -0x8000
            ==> number / 0x1_0000 == counters.highest_seq / 0x1_0000,
        number <= u32::MAX,
    ensures
        ({
            let after = after_received(counters, bytes, seq);
            let highest = if number > counters.highest_seq {
                number
            } else {
                counters.highest_seq as int
            };
            &&& after.highest_seq == highest
            &&& after.base_seq == counters.base_seq
            &&& after.expected_packets == highest - counters.base_seq + 1
            &&& consistent(after.sequence())
            &&& after.packets_received == wrap64(counters.packets_received + 1)
            &&& after.bytes_received == wrap64(counters.bytes_received + bytes)
        }),
{
    assert(number == packet_number(counters.highest_seq, seq));
}

/// However the sequence numbers come, the packets expected are those from the
/// first one to the highest.
pub proof fn law_expected_packets_follow_the_highest(state: SequenceState, seq: u16)
    requires
        consistent(state),
    ensures
        consistent(after_packet(state, seq)),
{
}

/// The state after the packets `first`, `first + 1`, and so on, `n` in all.
pub open spec fn after_run(first: u16, n: nat) -> SequenceState
    decreases n,
{
    if n == 0 {
        SequenceState { initialized: false, base: 0, highest: 0, expected: 0 }
    } else {
        after_packet(after_run(first, (n - 1) as nat), ((first + n - 1) % 0x1_0000) as u16)
    }
}

/// A stream that arrives whole and in order is expected to have as many packets
/// as arrived, however often its sequence number wraps: none counts as lost.
pub proof fn law_whole_stream_loses_nothing(first: u16, n: nat)
    requires
        1 <= n,
        first + n <= 0x1_0000_0000,
    ensures
        after_run(first, n).expected == n,
        after_run(first, n).highest == first + n - 1,
        after_run(first, n).initialized,
        after_run(first, n).base == first,
    decreases n,
{
    if n == 1 {
        reveal_with_fuel(after_run, 2);
    } else {
        law_whole_stream_loses_nothing(first, (n - 1) as nat);
        let before = after_run(first, (n - 1) as nat);
        law_forward_packet_moves_on(before, 1, ((first + n - 1) % 0x1_0000) as u16);
    }
}

/// For jitter and differences of up to eight years the filter is exact: one
/// sixteenth of the way, rounded down.
pub proof fn law_jitter_filter_is_exact(jitter: u64, diff: u64)
    requires
        jitter <= 0x1_0000_0000_0000,
        diff <= 0x1_0000_0000_0000,
    ensures
        filtered_jitter(jitter, diff) == (15 * jitter + diff) / 16,
{
    lemma_nearest53(jitter as nat);
    lemma_nearest53(diff as nat);
    if diff >= jitter {
        lemma_nearest53((diff - jitter) as nat);
        lemma_nearest53((16 * jitter + (diff - jitter)) as nat);
    } else {
        lemma_nearest53((jitter - diff) as nat);
        lemma_nearest53((16 * jitter - (jitter - diff)) as nat);
    }
}

/// The filter never leaves the range between the old jitter and the difference,
/// but for the rounding down.
pub proof fn law_jitter_stays_between(jitter: u64, diff: u64)
    requires
        jitter <= 0x1_0000_0000_0000,
        diff <= 0x1_0000_0000_0000,
    ensures
        jitter <= diff ==> jitter <= filtered_jitter(jitter, diff) <= diff,
        diff <= jitter ==> diff <= filtered_jitter(jitter, diff) <= jitter,
{
    law_jitter_filter_is_exact(jitter, diff);
}

/// Every packet sent counts once, with its bytes, and nothing else changes.
pub proof fn law_sent_packets_are_counted(counters: RtpCounters, bytes: int)
    requires
        0 <= bytes,
        counters.packets_sent < u64::MAX,
        counters.bytes_sent + bytes <= u64::MAX,
    ensures
        ({
            let after = after_sent(counters, bytes);
            &&& after.packets_sent == counters.packets_sent + 1
            &&& after.bytes_sent == counters.bytes_sent + bytes
            &&& after.packets_received == counters.packets_received
            &&& after.bytes_received == counters.bytes_received
            &&& after.sequence() == counters.sequence()
            &&& after.jitter_us == counters.jitter_us
            &&& after.packets_lost == counters.packets_lost
            &&& after.codec_name == counters.codec_name
        }),
{
}

/// Every packet received counts once, with its bytes, whatever its number; what was
/// sent and the jitter stay. The first packet begins the count.
pub proof fn law_received_packets_are_counted(counters: RtpCounters, bytes: int, seq: u16)
    requires
        0 <= bytes,
        counters.packets_received < u64::MAX,
        counters.bytes_received + bytes <= u64::MAX,
    ensures
        ({
            let after = after_received(counters, bytes, seq);
            &&& after.packets_received == counters.packets_received + 1
            &&& after.bytes_received == counters.bytes_received + bytes
            &&& after.packets_sent == counters.packets_sent
            &&& after.bytes_sent == counters.bytes_sent
            &&& after.jitter_us == counters.jitter_us
            &&& after.packets_lost == counters.packets_lost
            &&& after.codec_name == counters.codec_name
            &&& after.initialized
            &&& !counters.initialized ==> after.base_seq == seq && after.highest_seq == seq
                && after.expected_packets == 1
            &&& counters.initialized ==> after.base_seq == counters.base_seq
        }),
{
}

/// Lost are the packets that were expected and have not come, and never fewer than
/// none.
pub proof fn law_lost_is_expected_less_received(counters: RtpCounters)
    ensures
        counters.expected_packets >= counters.packets_received ==> counters.lost()
            + counters.packets_received == counters.expected_packets,
        counters.expected_packets <= counters.packets_received ==> counters.lost() == 0,
{
}

} // verus!
