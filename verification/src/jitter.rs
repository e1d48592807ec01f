//! Jitter buffer for RTP media.
//!
//! A jitter buffer smooths out variable network delay by buffering packets
//! before playout, for a fixed delay or for one that follows the observed
//! jitter. The filter that estimates the jitter works in floating point and is
//! the caller's: the buffer tells by how much the transit time changed, and is
//! told twice the estimate.

use std::collections::BTreeMap;
use std::time::Instant;

use vstd::prelude::*;

use crate::clock;

verus! {

broadcast use {vstd::std_specs::btree::group_btree_axioms, vstd::laws_cmp::group_laws_cmp};

/// Jitter buffer operating mode.
#[derive(Debug, Clone, Copy, PartialEq, Eq, Structural)]
pub enum JitterMode {
    /// Fixed delay jitter buffer.
    Fixed {
        /// Delay in milliseconds before playout.
        delay_ms: u32,
    },
    /// Adaptive jitter buffer that adjusts to network conditions.
    Adaptive {
        /// Target delay in milliseconds (starting point).
        target_ms: u32,
        /// Minimum delay in milliseconds.
        min_ms: u32,
        /// Maximum delay in milliseconds.
        max_ms: u32,
    },
}

impl Default for JitterMode {
    fn default() -> (mode: Self)
        ensures
            mode == (JitterMode::Adaptive { target_ms: 60, min_ms: 20, max_ms: 200 }),
    {
        JitterMode::Adaptive { target_ms: 60, min_ms: 20, max_ms: 200 }
    }
}

/// Configuration for the jitter buffer.
#[derive(Debug, Clone, Copy)]
pub struct JitterConfig {
    /// Operating mode (fixed or adaptive).
    pub mode: JitterMode,
    /// RTP clock rate in Hz (e.g., 8000 for G.711).
    pub clock_rate: u32,
    /// Maximum number of packets to buffer.
    pub max_packets: usize,
}

impl Default for JitterConfig {
    fn default() -> (config: Self)
        ensures
            config == (JitterConfig {
                mode: JitterMode::Adaptive { target_ms: 60, min_ms: 20, max_ms: 200 },
                clock_rate: 8000,
                max_packets: 50,
            }),
    {
        JitterConfig { mode: JitterMode::default(), clock_rate: 8000, max_packets: 50 }
    }
}

/// A buffered RTP packet ready for playout.
#[derive(Debug)]
pub struct BufferedPacket {
    /// RTP sequence number.
    pub seq: u16,
    /// RTP timestamp.
    pub timestamp: u32,
    /// Packet payload (encoded audio).
    pub payload: Vec<u8>,
    /// When this packet was received.
    pub received_at: Instant,
    /// Whether this is a synthesized packet (for loss concealment).
    pub synthesized: bool,
}

impl Clone for BufferedPacket {
    fn clone(&self) -> (copy: Self)
        ensures
            copy.seq == self.seq,
            copy.timestamp == self.timestamp,
            copy.payload@ == self.payload@,
            copy.received_at == self.received_at,
            copy.synthesized == self.synthesized,
    {
        let payload = crate::bytes::copy_range(self.payload.as_slice(), 0, self.payload.len());
        assert(payload@ =~= self.payload@);
        BufferedPacket {
            seq: self.seq,
            timestamp: self.timestamp,
            payload,
            received_at: self.received_at,
            synthesized: self.synthesized,
        }
    }
}

/// Statistics from the jitter buffer.
#[derive(Debug, Clone, Copy, PartialEq, Eq, Structural)]
pub struct JitterStats {
    /// Total packets received.
    pub packets_received: u64,
    /// Packets dropped (buffer full or too late).
    pub packets_dropped: u64,
    /// Packets lost (gaps in sequence).
    pub packets_lost: u64,
    /// Packets played out.
    pub packets_played: u64,
    /// Current buffer depth in packets.
    pub buffer_depth: usize,
    /// Current delay in milliseconds.
    pub current_delay_ms: u32,
}

impl Default for JitterStats {
    fn default() -> (stats: Self)
        ensures
            stats == (JitterStats {
                packets_received: 0,
                packets_dropped: 0,
                packets_lost: 0,
                packets_played: 0,
                buffer_depth: 0,
                current_delay_ms: 0,
            }),
    {
        JitterStats {
            packets_received: 0,
            packets_dropped: 0,
            packets_lost: 0,
            packets_played: 0,
            buffer_depth: 0,
            current_delay_ms: 0,
        }
    }
}

/// Jitter buffer for RTP packet reordering and playout scheduling.
#[derive(Debug)]
pub struct JitterBuffer {
    config: JitterConfig,
    packets: BTreeMap<u64, BufferedPacket>,
    playout_seq: Option<u64>,
    seq_cycles: u32,
    last_seq: Option<u16>,
    current_delay_ms: u32,
    last_transit: Option<i128>,
    transit_change: Option<u128>,
    packets_received: u64,
    packets_dropped: u64,
    packets_lost: u64,
    packets_played: u64,
    base_seq: Option<u64>,
    base_timestamp: Option<u32>,
    base_time: Option<Instant>,
    playing: bool,
}

/// What a jitter buffer is at one moment.
pub struct JitterState {
    /// The configuration.
    pub config: JitterConfig,
    /// Packets by extended sequence number.
    pub packets: Map<u64, BufferedPacket>,
    /// The extended sequence number to play next.
    pub playout: Option<u64>,
    /// How often the sequence number has wrapped, counted from the middle of the
    /// range so that packets from before the first one have their places below it.
    pub cycles: u32,
    /// Sequence number of the last packet that was buffered.
    pub last_seq: Option<u16>,
    /// Current delay in milliseconds.
    pub delay_ms: u32,
    /// Transit time of the last packet, in timestamp units.
    pub last_transit: Option<int>,
    /// How much the last packet's transit time differs from the one before it.
    pub transit_change: Option<int>,
    /// Packets received.
    pub received: u64,
    /// Packets dropped.
    pub dropped: u64,
    /// Packets lost.
    pub lost: u64,
    /// Packets played.
    pub played: u64,
    /// Extended sequence number of the first packet.
    pub base_seq: Option<u64>,
    /// Timestamp of the first packet.
    pub base_timestamp: Option<u32>,
    /// When the first packet came.
    pub base_time: Option<Instant>,
    /// Whether playout has begun.
    pub playing: bool,
}

impl View for JitterBuffer {
    type V = JitterState;

    closed spec fn view(&self) -> JitterState {
        JitterState {
            config: self.config,
            packets: self.packets@,
            playout: self.playout_seq,
            cycles: self.seq_cycles,
            last_seq: self.last_seq,
            delay_ms: self.current_delay_ms,
            last_transit: match self.last_transit {
                Some(t) => Some(t as int),
                None => None,
            },
            transit_change: match self.transit_change {
                Some(t) => Some(t as int),
                None => None,
            },
            received: self.packets_received,
            dropped: self.packets_dropped,
            lost: self.packets_lost,
            played: self.packets_played,
            base_seq: self.base_seq,
            base_timestamp: self.base_timestamp,
            base_time: self.base_time,
            playing: self.playing,
        }
    }
}

/// The delay that a mode begins with.
pub open spec fn initial_delay(mode: JitterMode) -> u32 {
    match mode {
        JitterMode::Fixed { delay_ms } => delay_ms,
        JitterMode::Adaptive { target_ms, .. } => target_ms,
    }
}

/// Whether the bounds of an adaptive delay can be kept.
pub open spec fn mode_ok(mode: JitterMode) -> bool {
    mode matches JitterMode::Adaptive { min_ms, max_ms, .. } ==> min_ms <= max_ms
}

/// The cycle in which the first packet has its place.
pub const FIRST_CYCLE: u32 = 0x8000_0000;

/// A buffer before its first packet.
pub open spec fn empty_buffer(config: JitterConfig) -> JitterState {
    JitterState {
        config,
        packets: Map::empty(),
        playout: None,
        cycles: FIRST_CYCLE,
        last_seq: None,
        delay_ms: initial_delay(config.mode),
        last_transit: None,
        transit_change: None,
        received: 0,
        dropped: 0,
        lost: 0,
        played: 0,
        base_seq: None,
        base_timestamp: None,
        base_time: None,
        playing: false,
    }
}

/// One more than `n`, in 64 bits.
pub open spec fn next64(n: u64) -> u64 {
    ((n + 1) % 0x1_0000_0000_0000_0000) as u64
}

/// The number of wraps that the packet with sequence number `seq` belongs to: a
/// step of more than half the sequence space is a wrap.
pub open spec fn cycles_for(last: u16, cycles: u32, seq: u16) -> u32 {
    if last - seq > 0x8000 {
        ((cycles + 1) % 0x1_0000_0000) as u32
    } else if seq - last > 0x8000 {
        ((cycles - 1) % 0x1_0000_0000) as u32
    } else {
        cycles
    }
}

/// Cycles and sequence number as one number.
pub open spec fn extended(cycles: u32, seq: u16) -> u64 {
    (cycles * 0x1_0000 + seq) as u64
}

/// The place of the packet with sequence number `seq`: its extended sequence
/// number, judged by the last packet that was buffered.
pub open spec fn place(state: JitterState, seq: u16) -> u64 {
    match state.last_seq {
        Some(last) => extended(cycles_for(last, state.cycles, seq), seq),
        None => extended(state.cycles, seq),
    }
}

/// Whether `key` is the smallest key of `packets`.
pub open spec fn is_first(packets: Map<u64, BufferedPacket>, key: u64) -> bool {
    packets.contains_key(key) && forall|k: u64| packets.contains_key(k) ==> key <= k
}

/// The smallest key of `packets`.
pub open spec fn first_of(packets: Map<u64, BufferedPacket>) -> u64 {
    choose|key: u64| is_first(packets, key)
}

/// The distance between two numbers.
pub open spec fn distance(a: int, b: int) -> int {
    if a >= b {
        a - b
    } else {
        b - a
    }
}

/// The transit time, in timestamp units, of a packet that arrives `elapsed_us`
/// microseconds after the first one.
pub open spec fn transit(clock_rate: u32, base: u32, timestamp: u32, elapsed_us: int) -> int {
    elapsed_us * clock_rate / 1_000_000 - (timestamp - base) % 0x1_0000_0000
}

/// The state once the first packet, if this is the first, has set what times and
/// sequence numbers are measured from.
pub open spec fn based(
    state: JitterState,
    seq: u16,
    timestamp: u32,
    now: Instant,
) -> JitterState {
    if state.base_timestamp is None {
        JitterState {
            base_seq: Some(extended(state.cycles, seq)),
            base_timestamp: Some(timestamp),
            base_time: Some(now),
            last_seq: Some(seq),
            ..state
        }
    } else {
        state
    }
}

/// The state once a packet has been counted and measured, before it is known
/// whether it is kept. `elapsed_us` is the time since the first packet.
pub open spec fn measured(
    state: JitterState,
    seq: u16,
    timestamp: u32,
    now: Instant,
    elapsed_us: u64,
) -> JitterState {
    let s = based(state, seq, timestamp, now);
    let time = if state.base_timestamp is None {
        0
    } else {
        elapsed_us as int
    };
    let t = transit(s.config.clock_rate, s.base_timestamp->0, timestamp, time);
    JitterState {
        received: next64(s.received),
        last_transit: Some(t),
        transit_change: match s.last_transit {
            Some(last) => Some(distance(t, last)),
            None => None,
        },
        ..s
    }
}

/// The packets once a full buffer has made room by dropping its oldest packet.
pub open spec fn with_room(state: JitterState) -> JitterState {
    if state.packets.len() >= state.config.max_packets && state.packets.len() > 0 {
        JitterState {
            packets: state.packets.remove(first_of(state.packets)),
            dropped: next64(state.dropped),
            ..state
        }
    } else {
        state
    }
}

/// Whether a packet comes too late: its place has been played.
pub open spec fn too_late(state: JitterState, ext: u64) -> bool {
    state.playout matches Some(playout) && ext < playout
}

/// Whether the place of the packet with sequence number `seq` can still be played.
pub open spec fn in_time(state: JitterState, seq: u16) -> bool {
    !too_late(state, place(state, seq))
}

/// The state once a packet has been pushed. One that comes too late is counted,
/// and later packets are not judged by it.
pub open spec fn pushed(
    state: JitterState,
    seq: u16,
    timestamp: u32,
    payload: Vec<u8>,
    now: Instant,
    elapsed_us: u64,
) -> JitterState {
    let s = measured(state, seq, timestamp, now, elapsed_us);
    if !in_time(s, seq) {
        JitterState { dropped: next64(s.dropped), ..s }
    } else {
        let ext = place(s, seq);
        let r = with_room(s);
        let packet = BufferedPacket {
            seq,
            timestamp,
            payload,
            received_at: now,
            synthesized: false,
        };
        JitterState {
            packets: r.packets.insert(ext, packet),
            cycles: (ext / 0x1_0000) as u32,
            last_seq: Some(seq),
            ..r
        }
    }
}

/// The microseconds from the first packet to `now`, 0 before it.
pub open spec fn elapsed(state: JitterState, now: Instant) -> u64 {
    match state.base_time {
        Some(base_time) => clock::micros_from(base_time, now),
        None => 0,
    }
}

/// Whether playout may begin: there is a packet, and the delay is over.
pub open spec fn may_start(state: JitterState, elapsed_us: u64) -> bool {
    state.packets.len() > 0 && state.base_time is Some && elapsed_us >= state.delay_ms * 1000
}

/// The extended sequence number to play now, if it is time to play.
pub open spec fn due(state: JitterState, elapsed_us: u64) -> Option<u64> {
    match state.playout {
        Some(seq) => Some(seq),
        None => if may_start(state, elapsed_us) {
            Some(first_of(state.packets))
        } else {
            None
        },
    }
}

/// `x`, or the bound that it goes beyond.
pub open spec fn clamped(x: int, min: int, max: int) -> int {
    if x < min {
        min
    } else if x > max {
        max
    } else {
        x
    }
}

/// The larger of two numbers.
pub open spec fn larger(a: int, b: int) -> int {
    if a >= b {
        a
    } else {
        b
    }
}

/// The delay moved towards twice the jitter: up by a quarter of the way, down by
/// an eighth, by at least one, and kept within its bounds.
pub open spec fn adapted(delay: u32, mode: JitterMode, doubled_jitter_ms: u32) -> u32 {
    match mode {
        JitterMode::Fixed { .. } => delay,
        JitterMode::Adaptive { min_ms, max_ms, .. } => {
            let target = clamped(doubled_jitter_ms as int, min_ms as int, max_ms as int);
            let moved = if target > delay {
                delay + larger((target - delay) / 4, 1)
            } else if target < delay {
                delay - larger((delay - target) / 8, 1)
            } else {
                delay as int
            };
            clamped(moved, min_ms as int, max_ms as int) as u32
        },
    }
}

/// The timestamp that belongs to the place `ext`, for a frame of 20 ms to each
/// place: as many frames from the first packet's timestamp as places from its.
pub open spec fn estimated_timestamp(state: JitterState, ext: u64) -> u32 {
    match (state.base_timestamp, state.base_seq) {
        (Some(base), Some(first)) => ((base + (ext - first) * (state.config.clock_rate as int / 50))
            % 0x1_0000_0000) as u32,
        _ => 0,
    }
}

/// The packet that stands in for a missing one.
pub open spec fn is_concealment(p: BufferedPacket, state: JitterState, ext: u64) -> bool {
    &&& p.seq == ext % 0x1_0000
    &&& p.timestamp == estimated_timestamp(state, ext)
    &&& p.payload@ == Seq::<u8>::empty()
    &&& p.synthesized
}

/// The state once the packet `ext` has been played.
pub open spec fn popped(state: JitterState, ext: u64, doubled_jitter_ms: u32) -> JitterState {
    JitterState {
        packets: state.packets.remove(ext),
        lost: if state.packets.contains_key(ext) {
            state.lost
        } else {
            next64(state.lost)
        },
        played: next64(state.played),
        playout: Some(((ext + 1) % 0x1_0000_0000_0000_0000) as u64),
        playing: state.playing || state.playout is None,
        delay_ms: adapted(state.delay_ms, state.config.mode, doubled_jitter_ms),
        ..state
    }
}

/// Whether a packet that comes now is buffered.
pub open spec fn accepts(
    state: JitterState,
    seq: u16,
    timestamp: u32,
    now: Instant,
    elapsed_us: u64,
) -> bool {
    in_time(measured(state, seq, timestamp, now, elapsed_us), seq)
}

/// What always holds of a buffer: it is finite, a packet stands under its own
/// sequence number, none stands where playout has already been, and times are
/// known from the first packet on.
pub open spec fn valid(state: JitterState) -> bool {
    &&& state.packets.dom().finite()
    &&& state.packets.len() <= larger(state.config.max_packets as int, 1)
    &&& forall|k: u64| #[trigger]
        state.packets.contains_key(k) ==> state.packets[k].seq == k % 0x1_0000
            && !state.packets[k].synthesized
    &&& forall|k: u64| #[trigger]
        state.packets.contains_key(k) ==> !too_late(state, k)
    &&& state.base_time is Some <==> state.base_timestamp is Some
    &&& state.base_seq is Some <==> state.base_timestamp is Some
    &&& state.last_seq is Some <==> state.base_timestamp is Some
    &&& state.packets.len() > 0 ==> state.base_timestamp is Some
    &&& state.last_transit matches Some(t) ==> -0x1_0000_0000 < t
        < 0x1_0000_0000_0000_0000_0000_0000
}

proof fn lemma_first_is_unique(packets: Map<u64, BufferedPacket>, key: u64)
    requires
        is_first(packets, key),
    ensures
        first_of(packets) == key,
{
    let other = first_of(packets);
    assert(is_first(packets, other));
}

/// The smallest key.
fn first_key(packets: &BTreeMap<u64, BufferedPacket>) -> (key: Option<u64>)
    ensures
        match key {
            Some(k) => is_first(packets@, k) && first_of(packets@) == k,
            None => packets@.len() == 0,
        },
{
    let entries = packets.iter();
    let ghost all = vstd::std_specs::iter::IteratorSpec::remaining(&entries);
    let ghost keys = all.map_values(|kv: (&u64, &BufferedPacket)| *kv.0);
    for entry in it: entries
        invariant
            it.index() == 0,
            it.seq() == all,
            keys == all.map_values(|kv: (&u64, &BufferedPacket)| *kv.0),
            vstd::std_specs::btree::increasing_seq(keys),
            all == vstd::std_specs::iter::IteratorSpec::remaining(
                &vstd::std_specs::btree::spec_btree_map_iter(packets),
            ),
    {
        let key: u64 = *entry.0;
        proof {
            assert(keys[0] == key);
            assert forall|k: u64| packets@.contains_key(k) implies key <= k by {
                assert(all.contains((&k, &packets@[k])));
                let i = choose|i: int| 0 <= i < all.len() && all[i] == (&k, &packets@[k]);
                assert(keys[i] == k);
                if i > 0 {
                    assert(vstd::std_specs::cmp::OrdSpec::cmp_spec(&keys[0], &keys[i]) is Less);
                }
            }
            assert(packets@.contains_key(*all[0].0));
            lemma_first_is_unique(packets@, key);
        }
        return Some(key);
    }
    None
}

/// Counting frames in 32 bits gives what counting them in full gives.
proof fn lemma_frames_wrap(base: u32, first: u64, ext: u64, offset: u32, frame: u32)
    requires
        offset == (ext - first) % 0x1_0000_0000,
    ensures
        (base + (offset * frame) % 0x1_0000_0000) % 0x1_0000_0000 == (base + (ext - first) * frame)
            % 0x1_0000_0000,
{
    let m: int = 0x1_0000_0000;
    let steps = ext - first;
    vstd::arithmetic::div_mod::lemma_mul_mod_noop_left(steps, frame as int, m);
    vstd::arithmetic::div_mod::lemma_add_mod_noop_right(base as int, offset * frame, m);
    vstd::arithmetic::div_mod::lemma_add_mod_noop_right(base as int, steps * frame, m);
}

proof fn lemma_transit_range(clock_rate: u32, base: u32, timestamp: u32, elapsed_us: int)
    requires
        0 <= elapsed_us <= u64::MAX,
    ensures
        0 <= elapsed_us * clock_rate < 0x1_0000_0000_0000_0000_0000_0000,
        -0x1_0000_0000 < transit(clock_rate, base, timestamp, elapsed_us)
            < 0x1_0000_0000_0000_0000_0000_0000,
{
    assert(0 <= elapsed_us * clock_rate <= u64::MAX * u32::MAX) by (nonlinear_arith)
        requires
            0 <= elapsed_us <= u64::MAX,
            0 <= clock_rate <= u32::MAX,
    ;
}

/// A map does not grow when one key leaves and another comes.
proof fn lemma_replace_keeps_size(
    packets: Map<u64, BufferedPacket>,
    gone: u64,
    key: u64,
    packet: BufferedPacket,
)
    requires
        packets.dom().finite(),
        packets.contains_key(gone),
    ensures
        packets.remove(gone).insert(key, packet).len() <= packets.len(),
        packets.remove(gone).dom().finite(),
{
    assert(packets.remove(gone).len() == packets.len() - 1);
}

/// What pushing keeps.
pub proof fn law_push_keeps_valid(
    state: JitterState,
    seq: u16,
    timestamp: u32,
    payload: Vec<u8>,
    now: Instant,
    elapsed_us: u64,
)
    requires
        valid(state),
    ensures
        valid(pushed(state, seq, timestamp, payload, now, elapsed_us)),
{
    let s = measured(state, seq, timestamp, now, elapsed_us);
    let time = if state.base_timestamp is None {
        0
    } else {
        elapsed_us as int
    };
    lemma_transit_range(s.config.clock_rate, s.base_timestamp->0, timestamp, time);
    if in_time(s, seq) {
        let ext = place(s, seq);
        let packet = BufferedPacket {
            seq,
            timestamp,
            payload,
            received_at: now,
            synthesized: false,
        };
        if s.packets.len() > 0 {
            lemma_first_exists(s.packets);
            lemma_replace_keeps_size(s.packets, first_of(s.packets), ext, packet);
        }
        assert(ext % 0x1_0000 == seq);
    }
}

proof fn lemma_first_exists(packets: Map<u64, BufferedPacket>)
    requires
        packets.dom().finite(),
        packets.len() > 0,
    ensures
        is_first(packets, first_of(packets)),
    decreases packets.len(),
{
    let any = packets.dom().choose();
    assert(packets.contains_key(any));
    let rest = packets.remove(any);
    if rest.len() == 0 {
        assert forall|k: u64| packets.contains_key(k) implies any <= k by {
            if k != any {
                assert(rest.dom().contains(k));
                assert(rest.dom().len() == 0);
                assert(rest.dom() =~= Set::empty());
            }
        }
        assert(is_first(packets, any));
    } else {
        lemma_first_exists(rest);
        let first = first_of(rest);
        let least = if any < first {
            any
        } else {
            first
        };
        assert forall|k: u64| packets.contains_key(k) implies least <= k by {
            if k != any {
                assert(rest.contains_key(k));
            }
        }
        assert(is_first(packets, least));
    }
}

impl JitterBuffer {
    /// Creates a new jitter buffer with the given configuration.
    pub fn new(config: JitterConfig) -> (buffer: Self)
        ensures
            buffer@ == empty_buffer(config),
            valid(buffer@),
    {
        let initial_delay = match config.mode {
            JitterMode::Fixed { delay_ms } => delay_ms,
            JitterMode::Adaptive { target_ms, .. } => target_ms,
        };
        JitterBuffer {
            config,
            packets: BTreeMap::new(),
            playout_seq: None,
            seq_cycles: FIRST_CYCLE,
            last_seq: None,
            current_delay_ms: initial_delay,
            last_transit: None,
            transit_change: None,
            packets_received: 0,
            packets_dropped: 0,
            packets_lost: 0,
            packets_played: 0,
            base_seq: None,
            base_timestamp: None,
            base_time: None,
            playing: false,
        }
    }

    /// The extended sequence number of a packet.
    fn extend_seq(&self, seq: u16) -> (ext: u64)
        ensures
            ext == place(self@, seq),
    {
        let cycles: u32 = match self.last_seq {
            Some(last) => {
                if seq < last && last - seq > 0x8000 {
                    self.seq_cycles.wrapping_add(1)
                } else if seq > last && seq - last > 0x8000 {
                    self.seq_cycles.wrapping_sub(1)
                } else {
                    self.seq_cycles
                }
            },
            None => self.seq_cycles,
        };
        cycles as u64 * 0x1_0000 + seq as u64
    }

    /// Measures the transit time of a packet against the one before it.
    fn update_transit(&mut self, base: u32, timestamp: u32, elapsed_us: u64)
        requires
            old(self)@.last_transit matches Some(t) ==> -0x1_0000_0000 < t
                < 0x1_0000_0000_0000_0000_0000_0000,
        ensures
            ({
                let t = transit(old(self)@.config.clock_rate, base, timestamp, elapsed_us as int);
                final(self)@ == (JitterState {
                    last_transit: Some(t),
                    transit_change: match old(self)@.last_transit {
                        Some(last) => Some(distance(t, last)),
                        None => None,
                    },
                    ..old(self)@
                })
            }),
    {
        proof {
            lemma_transit_range(self.config.clock_rate, base, timestamp, elapsed_us as int);
        }
        let arrival: i128 = (elapsed_us as u128 * self.config.clock_rate as u128 / 1_000_000)
            as i128;
        let sent: i128 = timestamp.wrapping_sub(base) as i128;
        let t: i128 = arrival - sent;
        self.transit_change = match self.last_transit {
            Some(last) => Some(
                if t >= last {
                    (t - last) as u128
                } else {
                    (last - t) as u128
                },
            ),
            None => None,
        };
        self.last_transit = Some(t);
    }

    /// Pushes a packet that arrives at `now`, `elapsed_us` microseconds after the
    /// first one. Returns `true` if the packet was buffered, `false` if dropped.
    pub fn push_at(
        &mut self,
        seq: u16,
        timestamp: u32,
        payload: Vec<u8>,
        now: Instant,
        elapsed_us: u64,
    ) -> (buffered: bool)
        requires
            valid(old(self)@),
        ensures
            final(self)@ == pushed(old(self)@, seq, timestamp, payload, now, elapsed_us),
            valid(final(self)@),
            buffered == accepts(old(self)@, seq, timestamp, now, elapsed_us),
    {
        proof {
            law_push_keeps_valid(self@, seq, timestamp, payload, now, elapsed_us);
        }
        self.packets_received = self.packets_received.wrapping_add(1);
        let (base, since_base): (u32, u64) = match self.base_timestamp {
            Some(base) => (base, elapsed_us),
            None => {
                self.base_seq = Some(self.seq_cycles as u64 * 0x1_0000 + seq as u64);
                self.base_timestamp = Some(timestamp);
                self.base_time = Some(now);
                self.last_seq = Some(seq);
                (timestamp, 0)
            },
        };
        self.update_transit(base, timestamp, since_base);
        let ghost s = self@;
        assert(s == measured(old(self)@, seq, timestamp, now, elapsed_us));
        let extended_seq: u64 = self.extend_seq(seq);
        match self.playout_seq {
            Some(playout) => {
                if extended_seq < playout {
                    self.packets_dropped = self.packets_dropped.wrapping_add(1);
                    return false;
                }
            },
            None => {},
        }
        if self.packets.len() >= self.config.max_packets {
            match first_key(&self.packets) {
                Some(oldest) => {
                    self.packets.remove(&oldest);
                    self.packets_dropped = self.packets_dropped.wrapping_add(1);
                },
                None => {},
            }
        }
        self.packets.insert(
            extended_seq,
            BufferedPacket { seq, timestamp, payload, received_at: now, synthesized: false },
        );
        self.seq_cycles = (extended_seq / 0x1_0000) as u32;
        self.last_seq = Some(seq);
        true
    }

    /// The microseconds between the first packet and `now`, 0 before it.
    pub fn elapsed_us(&self, now: &Instant) -> (elapsed_us: u64)
        ensures
            elapsed_us == elapsed(self@, *now),
    {
        match &self.base_time {
            Some(base_time) => clock::micros_between(base_time, now),
            None => 0,
        }
    }

    /// Pushes a received RTP packet into the buffer.
    ///
    /// Returns `true` if the packet was buffered, `false` if dropped.
    pub fn push(&mut self, seq: u16, timestamp: u32, payload: Vec<u8>) -> (buffered: bool)
        requires
            valid(old(self)@),
        ensures
            valid(final(self)@),
            exists|now: Instant|
                {
                    let elapsed_us = #[trigger] elapsed(old(self)@, now);
                    &&& final(self)@ == pushed(
                        old(self)@,
                        seq,
                        timestamp,
                        payload,
                        now,
                        elapsed_us,
                    )
                    &&& buffered == accepts(old(self)@, seq, timestamp, now, elapsed_us)
                },
    {
        let now = Instant::now();
        let elapsed_us = self.elapsed_us(&now);
        self.push_at(seq, timestamp, payload, now, elapsed_us)
    }

    /// Whether playout may begin.
    fn should_start_playout(&self, elapsed_us: u64) -> (start: bool)
        ensures
            start == may_start(self@, elapsed_us),
    {
        if self.packets.len() == 0 {
            return false;
        }
        match self.base_time {
            Some(_) => elapsed_us >= self.current_delay_ms as u64 * 1000,
            None => false,
        }
    }

    /// The timestamp of a packet that stands in for a missing one.
    fn estimate_timestamp(&self, extended_seq: u64) -> (timestamp: u32)
        ensures
            timestamp == estimated_timestamp(self@, extended_seq),
    {
        let samples_per_frame: u32 = self.config.clock_rate / 50;
        match (self.base_timestamp, self.base_seq) {
            (Some(base), Some(first)) => {
                let offset: u32 = (extended_seq.wrapping_sub(first) % 0x1_0000_0000) as u32;
                proof {
                    lemma_frames_wrap(base, first, extended_seq, offset, samples_per_frame);
                }
                base.wrapping_add(offset.wrapping_mul(samples_per_frame))
            },
            _ => 0,
        }
    }

    /// Moves the delay towards twice the observed jitter.
    fn adapt_delay(&mut self, doubled_jitter_ms: u32)
        requires
            mode_ok(old(self)@.config.mode),
        ensures
            final(self)@ == (JitterState {
                delay_ms: adapted(old(self)@.delay_ms, old(self)@.config.mode, doubled_jitter_ms),
                ..old(self)@
            }),
    {
        let (min_ms, max_ms): (u32, u32) = match self.config.mode {
            JitterMode::Fixed { .. } => {
                return;
            },
            JitterMode::Adaptive { min_ms, max_ms, .. } => (min_ms, max_ms),
        };
        let target = clamp_delay(doubled_jitter_ms, min_ms, max_ms);
        let delay = self.current_delay_ms;
        let moved: u32 = if target > delay {
            let step: u32 = (target - delay) / 4;
            if step > 1 {
                delay + step
            } else {
                delay + 1
            }
        } else if target < delay {
            let step: u32 = (delay - target) / 8;
            if step > 1 {
                delay - step
            } else {
                delay - 1
            }
        } else {
            delay
        };
        self.current_delay_ms = clamp_delay(moved, min_ms, max_ms);
    }

    /// Whether it is time to play a packet.
    pub fn is_due(&self, elapsed_us: u64) -> (is_due: bool)
        ensures
            is_due == (due(self@, elapsed_us) is Some),
    {
        self.playout_seq.is_some() || self.should_start_playout(elapsed_us)
    }

    /// Pops the next packet for playout, if it is time. `elapsed_us` is the time
    /// since the first packet arrived, `doubled_jitter_ms` twice the observed
    /// jitter.
    ///
    /// A packet that did not arrive is stood in for by an empty one.
    pub fn pop_at(&mut self, now: Instant, elapsed_us: u64, doubled_jitter_ms: u32) -> (packet:
        Option<BufferedPacket>)
        requires
            valid(old(self)@),
            due(old(self)@, elapsed_us) is Some ==> mode_ok(old(self)@.config.mode),
        ensures
            valid(final(self)@),
            match packet {
                Some(p) => {
                    &&& due(old(self)@, elapsed_us) matches Some(ext) && {
                        &&& final(self)@ == popped(old(self)@, ext, doubled_jitter_ms)
                        &&& if old(self)@.packets.contains_key(ext) {
                            p == old(self)@.packets[ext]
                        } else {
                            is_concealment(p, old(self)@, ext) && p.received_at == now
                        }
                    }
                },
                None => due(old(self)@, elapsed_us) is None && final(self)@ == old(self)@,
            },
    {
        let target_seq: u64 = match self.playout_seq {
            Some(seq) => seq,
            None => {
                if !self.should_start_playout(elapsed_us) {
                    return None;
                }
                match first_key(&self.packets) {
                    Some(first) => {
                        self.playing = true;
                        first
                    },
                    None => {
                        return None;
                    },
                }
            },
        };
        proof {
            law_pop_keeps_valid(old(self)@, elapsed_us, target_seq, doubled_jitter_ms);
        }
        let ghost before = self.packets@;
        let packet = match self.packets.remove(&target_seq) {
            Some(packet) => packet,
            None => {
                assert(before.remove(target_seq) =~= before);
                self.packets_lost = self.packets_lost.wrapping_add(1);
                BufferedPacket {
                    seq: (target_seq % 0x1_0000) as u16,
                    timestamp: self.estimate_timestamp(target_seq),
                    payload: Vec::new(),
                    received_at: now,
                    synthesized: true,
                }
            },
        };
        self.packets_played = self.packets_played.wrapping_add(1);
        self.playout_seq = Some(target_seq.wrapping_add(1));
        self.adapt_delay(doubled_jitter_ms);
        Some(packet)
    }

    /// Pops the next packet for playout, if it is time. `doubled_jitter_ms` is
    /// twice the observed jitter.
    ///
    /// Returns `None` while still buffering.
    pub fn pop(&mut self, doubled_jitter_ms: u32) -> (packet: Option<BufferedPacket>)
        requires
            valid(old(self)@),
            mode_ok(old(self)@.config.mode),
        ensures
            valid(final(self)@),
            exists|now: Instant|
                {
                    let elapsed_us = #[trigger] elapsed(old(self)@, now);
                    match packet {
                        Some(p) => {
                            &&& due(old(self)@, elapsed_us) matches Some(ext) && {
                                &&& final(self)@ == popped(old(self)@, ext, doubled_jitter_ms)
                                &&& if old(self)@.packets.contains_key(ext) {
                                    p == old(self)@.packets[ext]
                                } else {
                                    is_concealment(p, old(self)@, ext) && p.received_at == now
                                }
                            }
                        },
                        None => due(old(self)@, elapsed_us) is None && final(self)@ == old(
                            self,
                        )@,
                    }
                },
    {
        let now = Instant::now();
        let elapsed_us = self.elapsed_us(&now);
        self.pop_at(now, elapsed_us, doubled_jitter_ms)
    }

    /// Current statistics.
    pub fn stats(&self) -> (stats: JitterStats)
        ensures
            stats.packets_received == self@.received,
            stats.packets_dropped == self@.dropped,
            stats.packets_lost == self@.lost,
            stats.packets_played == self@.played,
            stats.buffer_depth == self@.packets.len(),
            stats.current_delay_ms == self@.delay_ms,
    {
        JitterStats {
            packets_received: self.packets_received,
            packets_dropped: self.packets_dropped,
            packets_lost: self.packets_lost,
            packets_played: self.packets_played,
            buffer_depth: self.packets.len(),
            current_delay_ms: self.current_delay_ms,
        }
    }

    /// Current delay in milliseconds.
    pub fn delay_ms(&self) -> (delay: u32)
        ensures
            delay == self@.delay_ms,
    {
        self.current_delay_ms
    }

    /// By how many timestamp units the transit time of the last packet differs
    /// from that of the packet before it: what the jitter estimate is fed with.
    pub fn transit_change(&self) -> (change: Option<u128>)
        ensures
            match change {
                Some(c) => self@.transit_change == Some(c as int),
                None => self@.transit_change is None,
            },
    {
        self.transit_change
    }

    /// Resets the jitter buffer.
    pub fn reset(&mut self)
        ensures
            final(self)@ == empty_buffer(old(self)@.config),
            valid(final(self)@),
    {
        self.packets.clear();
        self.playout_seq = None;
        self.seq_cycles = FIRST_CYCLE;
        self.last_seq = None;
        self.last_transit = None;
        self.transit_change = None;
        self.base_seq = None;
        self.base_timestamp = None;
        self.base_time = None;
        self.playing = false;
        self.packets_received = 0;
        self.packets_dropped = 0;
        self.packets_lost = 0;
        self.packets_played = 0;
        self.current_delay_ms = match self.config.mode {
            JitterMode::Fixed { delay_ms } => delay_ms,
            JitterMode::Adaptive { target_ms, .. } => target_ms,
        };
    }

    /// Takes all buffered packets out, in the order of their sequence numbers.
    pub fn flush(&mut self) -> (packets: Vec<BufferedPacket>)
        requires
            valid(old(self)@),
        ensures
            final(self)@ == (JitterState { packets: Map::empty(), ..old(self)@ }),
            valid(final(self)@),
            in_order(old(self)@.packets, packets@),
    {
        let mut out: Vec<BufferedPacket> = Vec::new();
        let ghost all = self.packets@;
        let ghost mut keys: Seq<u64> = Seq::empty();
        while self.packets.len() > 0
            invariant
                self.packets@.dom().finite(),
                self@ == (JitterState { packets: self.packets@, ..old(self)@ }),
                all == old(self)@.packets,
                all.dom().finite(),
                listed(all, keys, out@),
                forall|k: u64| #[trigger]
                    all.contains_key(k) ==> self.packets@.contains_key(k) || keys.contains(k),
                forall|k: u64| #[trigger]
                    self.packets@.contains_key(k) ==> all.contains_key(k) && self.packets@[k]
                        == all[k],
                forall|k: u64, i: int|
                    #![trigger self.packets@.contains_key(k), keys[i]]
                    self.packets@.contains_key(k) && 0 <= i < keys.len() ==> keys[i] < k,
            decreases self.packets@.len(),
        {
            let ghost rest = self.packets@;
            let ghost before = keys;
            match first_key(&self.packets) {
                Some(key) => {
                    match self.packets.remove(&key) {
                        Some(packet) => {
                            out.push(packet);
                        },
                        None => {},
                    }
                    proof {
                        keys = keys.push(key);
                        assert forall|k: u64| #[trigger] all.contains_key(k) implies
                            self.packets@.contains_key(k) || keys.contains(k) by {
                            if before.contains(k) {
                                let i = choose|i: int| 0 <= i < before.len() && before[i] == k;
                                assert(keys[i] == k);
                            } else if k == key {
                                assert(keys[before.len() as int] == k);
                            }
                        }
                    }
                },
                None => {},
            }
        }
        proof {
            assert(self.packets@.dom() =~= Set::empty());
            assert(self.packets@ =~= Map::empty());
            assert forall|k: u64| keys.to_set().contains(k) == all.dom().contains(k) by {
                if all.contains_key(k) {
                    assert(!self.packets@.contains_key(k));
                }
            }
            assert(keys.to_set() =~= all.dom());
        }
        out
    }

    /// Whether the buffer is empty.
    pub fn is_empty(&self) -> (empty: bool)
        ensures
            empty == (self@.packets.len() == 0),
    {
        self.packets.len() == 0
    }

    /// The number of buffered packets.
    pub fn len(&self) -> (n: usize)
        ensures
            n == self@.packets.len(),
    {
        self.packets.len()
    }
}

/// Whether `keys`, in increasing order, are keys of `packets`, and `list` the
/// packets under them.
pub open spec fn listed(
    packets: Map<u64, BufferedPacket>,
    keys: Seq<u64>,
    list: Seq<BufferedPacket>,
) -> bool {
    &&& keys.len() == list.len()
    &&& forall|i: int, j: int| 0 <= i < j < keys.len() ==> keys[i] < keys[j]
    &&& forall|i: int|
        0 <= i < keys.len() ==> packets.contains_key(#[trigger] keys[i]) && list[i]
            == packets[keys[i]]
}

/// Whether `list` holds all of `packets`, in the order of their keys.
pub open spec fn in_order(packets: Map<u64, BufferedPacket>, list: Seq<BufferedPacket>) -> bool {
    exists|keys: Seq<u64>| #[trigger] listed(packets, keys, list) && keys.to_set() == packets.dom()
}

fn clamp_delay(x: u32, min: u32, max: u32) -> (y: u32)
    requires
        min <= max,
    ensures
        y == clamped(x as int, min as int, max as int),
{
    if x < min {
        min
    } else if x > max {
        max
    } else {
        x
    }
}

/// What popping keeps.
pub proof fn law_pop_keeps_valid(
    state: JitterState,
    elapsed_us: u64,
    ext: u64,
    doubled_jitter_ms: u32,
)
    requires
        valid(state),
        due(state, elapsed_us) == Some(ext),
    ensures
        valid(popped(state, ext, doubled_jitter_ms)),
{
    if state.playout is None {
        lemma_first_exists(state.packets);
    }
    assert(state.packets.remove(ext).len() <= state.packets.len());
}

/// A packet that is not too late is held under its extended sequence number,
/// with what it brought.
pub proof fn law_buffered_packet_is_held(
    state: JitterState,
    seq: u16,
    timestamp: u32,
    payload: Vec<u8>,
    now: Instant,
    elapsed_us: u64,
)
    ensures
        ({
            let ext = place(based(state, seq, timestamp, now), seq);
            let after = pushed(state, seq, timestamp, payload, now, elapsed_us);
            accepts(state, seq, timestamp, now, elapsed_us) ==> {
                &&& after.packets.contains_key(ext)
                &&& after.packets[ext].payload == payload
                &&& after.packets[ext].timestamp == timestamp
                &&& after.packets[ext].seq == seq
            }
        }),
{
}

/// The number of the last packet that was buffered, by which others are judged.
pub open spec fn reference(state: JitterState) -> int {
    state.cycles * 0x1_0000 + state.last_seq->0
}

/// Whether `number` is the one nearest to the last packet buffered that ends in
/// `seq`. At half the sequence space the one of the same cycle counts as nearest.
pub open spec fn is_number(state: JitterState, seq: u16, number: int) -> bool {
    let ahead = number - reference(state);
    &&& number % 0x1_0000 == seq
    &&& -0x8000 <= ahead <= 0x8000
    &&& ahead == 0x8000 || ahead == -0x8000 ==> number / 0x1_0000 == state.cycles
}

/// A packet has the place of its number, before the first packet too. It is
/// buffered there exactly if that place has not been passed by playout, and only
/// a packet that was buffered becomes what later ones are judged by.
pub proof fn law_packet_is_placed_by_its_number(
    state: JitterState,
    seq: u16,
    timestamp: u32,
    payload: Vec<u8>,
    now: Instant,
    elapsed_us: u64,
    number: int,
)
    requires
        valid(state),
        state.last_seq is Some,
        is_number(state, seq, number),
        0 <= number < 0x1_0000_0000_0000,
    ensures
        ({
            let after = pushed(state, seq, timestamp, payload, now, elapsed_us);
            let passed = state.playout matches Some(playout) && number < playout;
            &&& place(state, seq) == number
            &&& accepts(state, seq, timestamp, now, elapsed_us) == !passed
            &&& !passed ==> after.packets.contains_key(number as u64) && reference(after) == number
            &&& passed ==> after.packets == state.packets && reference(after) == reference(state)
        }),
{
}

/// A packet as it arrives.
pub struct Arrival {
    /// RTP sequence number.
    pub seq: u16,
    /// RTP timestamp.
    pub timestamp: u32,
    /// Packet payload.
    pub payload: Vec<u8>,
    /// When it arrives.
    pub now: Instant,
    /// Microseconds since the first packet.
    pub elapsed_us: u64,
}

/// The state once all of `arrivals` have been pushed.
pub open spec fn after_arrivals(state: JitterState, arrivals: Seq<Arrival>) -> JitterState
    decreases arrivals.len(),
{
    if arrivals.len() == 0 {
        state
    } else {
        let a = arrivals.last();
        pushed(
            after_arrivals(state, arrivals.drop_last()),
            a.seq,
            a.timestamp,
            a.payload,
            a.now,
            a.elapsed_us,
        )
    }
}

/// Whether every one of `arrivals` is dropped.
pub open spec fn all_dropped(state: JitterState, arrivals: Seq<Arrival>) -> bool
    decreases arrivals.len(),
{
    arrivals.len() > 0 ==> {
        let a = arrivals.last();
        &&& all_dropped(state, arrivals.drop_last())
        &&& !accepts(
            after_arrivals(state, arrivals.drop_last()),
            a.seq,
            a.timestamp,
            a.now,
            a.elapsed_us,
        )
    }
}

proof fn lemma_dropped_packets_leave_places(state: JitterState, late: Seq<Arrival>)
    requires
        valid(state),
        state.last_seq is Some,
        all_dropped(state, late),
    ensures
        ({
            let after = after_arrivals(state, late);
            &&& valid(after)
            &&& after.packets == state.packets
            &&& after.playout == state.playout
            &&& after.cycles == state.cycles
            &&& after.last_seq == state.last_seq
        }),
    decreases late.len(),
{
    if late.len() > 0 {
        lemma_dropped_packets_leave_places(state, late.drop_last());
        let a = late.last();
        law_push_keeps_valid(
            after_arrivals(state, late.drop_last()),
            a.seq,
            a.timestamp,
            a.payload,
            a.now,
            a.elapsed_us,
        );
    }
}

/// A packet whose place playout has not passed is buffered, at its place, whatever
/// late packets came before it.
pub proof fn law_packet_in_time_is_buffered_after_late_ones(
    state: JitterState,
    late: Seq<Arrival>,
    arrival: Arrival,
    number: int,
)
    requires
        valid(state),
        state.last_seq is Some,
        all_dropped(state, late),
        is_number(state, arrival.seq, number),
        0 <= number < 0x1_0000_0000_0000,
        state.playout matches Some(playout) ==> playout <= number,
    ensures
        ({
            let before = after_arrivals(state, late);
            let after = after_arrivals(state, late.push(arrival));
            &&& accepts(before, arrival.seq, arrival.timestamp, arrival.now, arrival.elapsed_us)
            &&& after.packets.contains_key(number as u64)
            &&& after.packets[number as u64].payload == arrival.payload
        }),
{
    lemma_dropped_packets_leave_places(state, late);
    law_packet_is_placed_by_its_number(
        after_arrivals(state, late),
        arrival.seq,
        arrival.timestamp,
        arrival.payload,
        arrival.now,
        arrival.elapsed_us,
        number,
    );
    assert(late.push(arrival).drop_last() =~= late);
}

/// A packet from less than half the sequence space before the first one, or after
/// it, has its place as far below or above, across the wrap of the sequence number
/// too: until playout begins, packets are put in order around the first.
#[verifier::spinoff_prover]
#[verifier::rlimit(40)]
pub proof fn law_packets_are_ordered_around_the_first(
    config: JitterConfig,
    first: Arrival,
    later: Arrival,
    ahead: int,
)
    requires
        -0x8000 < ahead < 0x8000,
        later.seq == (first.seq + ahead) % 0x1_0000,
    ensures
        ({
            let state = after_arrivals(empty_buffer(config), seq![first]);
            let after = after_arrivals(empty_buffer(config), seq![first, later]);
            &&& state.packets.contains_key(state.base_seq->0)
            &&& after.packets.contains_key((state.base_seq->0 + ahead) as u64)
            &&& after.packets[(state.base_seq->0 + ahead) as u64].payload == later.payload
        }),
{
    reveal_with_fuel(after_arrivals, 3);
    assert(seq![first, later].drop_last() =~= seq![first]);
    assert(seq![first].drop_last() =~= Seq::<Arrival>::empty());
}

/// A packet that stands in for a missing one carries the timestamp that the
/// missing one had, where the sender's timestamps rise by 20 ms a packet.
pub proof fn law_concealment_continues_the_timestamps(
    state: JitterState,
    p: BufferedPacket,
    ext: u64,
    frames: int,
)
    requires
        valid(state),
        state.base_seq == Some((ext - frames) as u64),
        0 <= ext - frames <= u64::MAX,
        is_concealment(p, state, ext),
    ensures
        p.timestamp == (state.base_timestamp->0 + frames * (state.config.clock_rate as int / 50))
            % 0x1_0000_0000,
{
}

/// A packet that is held stays until it is played: another packet that comes does
/// not touch it, unless it has the same place or the buffer is full and this is
/// its oldest packet, and another one that is played does not touch it at all.
pub proof fn law_held_packet_stays(
    state: JitterState,
    k: u64,
    seq: u16,
    timestamp: u32,
    payload: Vec<u8>,
    now: Instant,
    elapsed_us: u64,
    ext: u64,
    doubled_jitter_ms: u32,
)
    requires
        valid(state),
        state.packets.contains_key(k),
    ensures
        ({
            let after = pushed(state, seq, timestamp, payload, now, elapsed_us);
            let full = state.packets.len() >= state.config.max_packets;
            place(state, seq) != k && !(full && is_first(state.packets, k)) ==> {
                &&& after.packets.contains_key(k)
                &&& after.packets[k] == state.packets[k]
            }
        }),
        ext != k ==> {
            let after = popped(state, ext, doubled_jitter_ms);
            &&& after.packets.contains_key(k)
            &&& after.packets[k] == state.packets[k]
        },
{
    lemma_held_is_counted(state.packets, k);
    lemma_first_exists(state.packets);
}

proof fn lemma_held_is_counted(packets: Map<u64, BufferedPacket>, k: u64)
    requires
        packets.dom().finite(),
        packets.contains_key(k),
    ensures
        packets.len() > 0,
{
    assert(packets.dom().contains(k));
    assert(packets.remove(k).len() == packets.len() - 1);
}

/// Playout begins with the lowest sequence number that has arrived, in whatever
/// order the packets came.
pub proof fn law_playout_begins_with_the_lowest(state: JitterState, elapsed_us: u64, k: u64)
    requires
        valid(state),
        state.playout is None,
        due(state, elapsed_us) is Some,
        state.packets.contains_key(k),
    ensures
        due(state, elapsed_us)->0 <= k,
{
    lemma_first_exists(state.packets);
}

/// Playout goes on one sequence number at a time: after `ext` comes the next
/// one, at once, and what is played for `ext` carries its sequence number.
pub proof fn law_playout_is_in_order(
    state: JitterState,
    elapsed_us: u64,
    ext: u64,
    doubled_jitter_ms: u32,
    later_us: u64,
)
    requires
        valid(state),
        due(state, elapsed_us) == Some(ext),
    ensures
        due(popped(state, ext, doubled_jitter_ms), later_us) == Some(
            ((ext + 1) % 0x1_0000_0000_0000_0000) as u64,
        ),
        state.packets.contains_key(ext) ==> state.packets[ext].seq == ext % 0x1_0000,
{
}

/// What has been played is not played again: a packet for a place up to `ext`
/// comes too late once `ext` has been played.
pub proof fn law_played_places_are_closed(
    state: JitterState,
    ext: u64,
    doubled_jitter_ms: u32,
    late: u64,
)
    requires
        late <= ext < u64::MAX,
    ensures
        too_late(popped(state, ext, doubled_jitter_ms), late),
{
}

/// An adaptive delay stays within its bounds and, from within them, never moves
/// away from twice the jitter; a fixed delay stays as it is.
pub proof fn law_delay_follows_jitter(delay: u32, mode: JitterMode, doubled_jitter_ms: u32)
    requires
        mode_ok(mode),
    ensures
        mode matches JitterMode::Adaptive { min_ms, max_ms, .. } ==> {
            let target = clamped(doubled_jitter_ms as int, min_ms as int, max_ms as int);
            let moved = adapted(delay, mode, doubled_jitter_ms);
            &&& min_ms <= moved <= max_ms
            &&& distance(moved as int, target) <= distance(delay as int, target)
            &&& moved == delay ==> delay == target
        },
        mode is Fixed ==> adapted(delay, mode, doubled_jitter_ms) == delay,
{
}

/// A buffer begins with the delay that its mode names.
pub proof fn law_delay_begins_as_configured(config: JitterConfig, delay_ms: u32)
    ensures
        config.mode == (JitterMode::Fixed { delay_ms }) ==> empty_buffer(config).delay_ms
            == delay_ms,
        config.mode matches JitterMode::Adaptive { target_ms, .. } ==> empty_buffer(config).delay_ms
            == target_ms,
{
}

/// With every packet that is played an adaptive delay moves towards twice the
/// jitter, as far as its bounds allow: up where that is more, down where it is less,
/// never past it, and not at all where it is there. It goes up by a quarter of the
/// way and down by an eighth, by one at least.
pub proof fn law_delay_moves_towards_twice_the_jitter(
    state: JitterState,
    target_ms: u32,
    min_ms: u32,
    max_ms: u32,
    ext: u64,
    doubled: u32,
)
    requires
        state.config.mode == (JitterMode::Adaptive { target_ms, min_ms, max_ms }),
        min_ms <= max_ms,
    ensures
        ({
            let delay = state.delay_ms;
            let moved = popped(state, ext, doubled).delay_ms;
            &&& min_ms <= moved <= max_ms
            &&& doubled <= min_ms && delay > min_ms ==> moved < delay
            &&& doubled >= max_ms && delay < max_ms ==> moved > delay
            &&& min_ms <= delay < max_ms && delay < doubled ==> delay < moved <= doubled
            &&& min_ms < delay <= max_ms && doubled < delay ==> moved < delay && (doubled <= moved
                || doubled < min_ms)
            &&& min_ms <= delay <= max_ms && doubled == delay ==> moved == delay
            &&& delay == min_ms && doubled <= min_ms ==> moved == min_ms
            &&& delay == max_ms && doubled >= max_ms ==> moved == max_ms
            &&& min_ms <= delay && delay + 4 <= doubled <= max_ms ==> 4 * (moved - delay) <= doubled
                - delay < 4 * (moved - delay) + 4
            &&& min_ms <= delay && delay < doubled < delay + 4 && doubled <= max_ms ==> moved == delay
                + 1
            &&& min_ms <= doubled && doubled + 8 <= delay <= max_ms ==> 8 * (delay - moved) <= delay
                - doubled < 8 * (delay - moved) + 8
            &&& min_ms <= doubled && doubled < delay < doubled + 8 && delay <= max_ms ==> moved
                == delay - 1
        }),
{
}

/// A fixed delay never moves.
pub proof fn law_fixed_delay_stays(state: JitterState, delay_ms: u32, ext: u64, doubled: u32)
    requires
        state.config.mode == (JitterMode::Fixed { delay_ms }),
    ensures
        popped(state, ext, doubled).delay_ms == state.delay_ms,
{
}

/// `n` packets played, one place after the other, with the jitter unchanged.
pub open spec fn after_pops(state: JitterState, ext: u64, n: nat, doubled: u32) -> JitterState
    decreases n,
{
    if n == 0 {
        state
    } else {
        popped(
            after_pops(state, ext, (n - 1) as nat, doubled),
            ((ext + n - 1) % 0x1_0000_0000_0000_0000) as u64,
            doubled,
        )
    }
}

/// On a steady network the delay comes down to its minimum, and on a bad one up to
/// its maximum, within as many packets as it has milliseconds to go.
pub proof fn law_delay_arrives(
    state: JitterState,
    target_ms: u32,
    min_ms: u32,
    max_ms: u32,
    ext: u64,
    n: nat,
    doubled: u32,
)
    requires
        state.config.mode == (JitterMode::Adaptive { target_ms, min_ms, max_ms }),
        min_ms <= state.delay_ms <= max_ms,
    ensures
        ({
            let after = after_pops(state, ext, n, doubled);
            &&& after.config == state.config
            &&& min_ms <= after.delay_ms <= max_ms
            &&& doubled <= min_ms ==> after.delay_ms == min_ms || after.delay_ms + n
                <= state.delay_ms
            &&& doubled >= max_ms ==> after.delay_ms == max_ms || after.delay_ms >= state.delay_ms
                + n
        }),
    decreases n,
{
    if n > 0 {
        law_delay_arrives(state, target_ms, min_ms, max_ms, ext, (n - 1) as nat, doubled);
        law_delay_moves_towards_twice_the_jitter(
            after_pops(state, ext, (n - 1) as nat, doubled),
            target_ms,
            min_ms,
            max_ms,
            ((ext + n - 1) % 0x1_0000_0000_0000_0000) as u64,
            doubled,
        );
    }
}

/// Every packet that comes is counted as received. One whose place has been played
/// is counted as dropped and leaves what is held untouched. One that is kept finds
/// room: a full buffer gives up its lowest place, which counts as dropped, and
/// nothing else leaves or changes.
pub proof fn law_packets_are_counted_and_kept(
    state: JitterState,
    seq: u16,
    timestamp: u32,
    payload: Vec<u8>,
    now: Instant,
    elapsed_us: u64,
    number: int,
    lowest: u64,
)
    requires
        valid(state),
        state.last_seq is Some,
        is_number(state, seq, number),
        0 <= number < 0x1_0000_0000_0000,
        state.received < u64::MAX,
        state.dropped < u64::MAX,
        state.packets.len() > 0 ==> state.packets.contains_key(lowest) && forall|k: u64|
            state.packets.contains_key(k) ==> lowest <= k,
    ensures
        ({
            let after = pushed(state, seq, timestamp, payload, now, elapsed_us);
            let late = state.playout matches Some(next) && number < next;
            let full = state.packets.len() > 0 && state.packets.len() >= state.config.max_packets;
            &&& after.received == state.received + 1
            &&& after.lost == state.lost && after.played == state.played
            &&& after.playout == state.playout && after.delay_ms == state.delay_ms
            &&& after.playing == state.playing && after.config == state.config
            &&& after.base_timestamp == state.base_timestamp && after.base_time == state.base_time
            &&& late ==> after.dropped == state.dropped + 1 && after.packets == state.packets
            &&& !late && !full ==> after.dropped == state.dropped && forall|k: u64|
                k != number ==> (#[trigger] after.packets.contains_key(k)
                    == state.packets.contains_key(k)) && (state.packets.contains_key(k)
                    ==> after.packets[k] == state.packets[k])
            &&& !late && full ==> after.dropped == state.dropped + 1 && forall|k: u64|
                k != number ==> (#[trigger] after.packets.contains_key(k) == (k != lowest
                    && state.packets.contains_key(k))) && (k != lowest
                    && state.packets.contains_key(k) ==> after.packets[k] == state.packets[k])
            &&& !late ==> {
                &&& after.packets.contains_key(number as u64)
                &&& after.packets[number as u64].seq == seq
                &&& after.packets[number as u64].timestamp == timestamp
                &&& after.packets[number as u64].payload == payload
                &&& after.packets[number as u64].received_at == now
                &&& !after.packets[number as u64].synthesized
            }
        }),
{
    law_packet_is_placed_by_its_number(
        state,
        seq,
        timestamp,
        payload,
        now,
        elapsed_us,
        number,
    );
    if state.packets.len() > 0 {
        assert(is_first(state.packets, lowest));
        lemma_first_is_unique(state.packets, lowest);
    }
}

/// The first packet of all is kept, and everything is measured from it.
pub proof fn law_first_packet_is_kept(
    config: JitterConfig,
    seq: u16,
    timestamp: u32,
    payload: Vec<u8>,
    now: Instant,
    elapsed_us: u64,
)
    ensures
        ({
            let after = pushed(
                empty_buffer(config),
                seq,
                timestamp,
                payload,
                now,
                elapsed_us,
            );
            &&& accepts(empty_buffer(config), seq, timestamp, now, elapsed_us)
            &&& after.base_timestamp == Some(timestamp)
            &&& after.base_time == Some(now)
            &&& after.last_seq == Some(seq)
            &&& after.received == 1 && after.dropped == 0
            &&& after.packets.len() == 1
            &&& after.packets.contains_key(after.base_seq->0)
            &&& after.packets[after.base_seq->0].payload == payload
            &&& after.packets[after.base_seq->0].timestamp == timestamp
            &&& after.packets[after.base_seq->0].seq == seq
            &&& after.transit_change is None
            &&& after.last_transit == Some(0int)
            &&& after.playout is None
        }),
{
    let empty = empty_buffer(config);
    let after = pushed(empty, seq, timestamp, payload, now, elapsed_us);
    assert(empty.packets.dom() =~= Set::<u64>::empty());
    assert(empty.packets.len() == 0);
    assert(after.packets.dom() =~= Set::<u64>::empty().insert(after.base_seq->0));
}

/// Playout begins once a packet is there and the delay has passed since the first
/// one came, and then with the lowest place that is held; from then on a place is
/// due every time, whatever is held and whatever the delay.
pub proof fn law_playout_waits_for_the_delay(state: JitterState, elapsed_us: u64)
    requires
        valid(state),
    ensures
        state.playout is None ==> (due(state, elapsed_us) is Some <==> state.packets.len() > 0
            && elapsed_us >= state.delay_ms * 1000),
        state.playout is None && due(state, elapsed_us) is Some ==> {
            let first = due(state, elapsed_us)->0;
            state.packets.contains_key(first) && forall|k: u64|
                state.packets.contains_key(k) ==> first <= k
        },
        state.playout matches Some(next) ==> due(state, elapsed_us) == Some(next),
{
    if state.packets.len() > 0 {
        lemma_first_exists(state.packets);
    }
}

/// Playing a place takes its packet out and nothing else, counts it as played, as
/// lost too where none was there, and goes on to the place behind it.
pub proof fn law_playing_takes_one_place(
    state: JitterState,
    ext: u64,
    doubled_jitter_ms: u32,
    k: u64,
)
    requires
        state.played < u64::MAX,
        state.lost < u64::MAX,
        ext < u64::MAX,
    ensures
        ({
            let after = popped(state, ext, doubled_jitter_ms);
            &&& after.played == state.played + 1
            &&& after.lost == state.lost + if state.packets.contains_key(ext) {
                0int
            } else {
                1
            }
            &&& after.playout == Some((ext + 1) as u64)
            &&& after.playing == (state.playing || state.playout is None)
            &&& !after.packets.contains_key(ext)
            &&& k != ext ==> (after.packets.contains_key(k) == state.packets.contains_key(k)) && (
            state.packets.contains_key(k) ==> after.packets[k] == state.packets[k])
            &&& after.received == state.received && after.dropped == state.dropped
            &&& after.config == state.config && after.last_seq == state.last_seq
            &&& after.cycles == state.cycles && after.base_time == state.base_time
            &&& after.base_timestamp == state.base_timestamp
        }),
{
}

/// The transit time changes by the difference between how much later the second
/// packet came and how much later it was sent, both in timestamp units and both
/// counted from the first packet of all.
pub proof fn law_transit_change_is_measured(
    state: JitterState,
    base: u32,
    seq1: u16,
    timestamp1: u32,
    payload1: Vec<u8>,
    now1: Instant,
    elapsed1: u64,
    seq2: u16,
    timestamp2: u32,
    payload2: Vec<u8>,
    now2: Instant,
    elapsed2: u64,
)
    requires
        valid(state),
        state.base_timestamp == Some(base),
    ensures
        ({
            let one = pushed(state, seq1, timestamp1, payload1, now1, elapsed1);
            let two = pushed(one, seq2, timestamp2, payload2, now2, elapsed2);
            let rate = state.config.clock_rate;
            let came = elapsed2 * rate / 1_000_000 - elapsed1 * rate / 1_000_000;
            let sent = (timestamp2 - base) % 0x1_0000_0000 - (timestamp1 - base) % 0x1_0000_0000;
            &&& two.transit_change matches Some(change)
            &&& change == came - sent || change == sent - came
            &&& change >= 0
        }),
{
}

/// A packet that stands in for a missing one is empty, marked as such, and carries
/// the sequence number of its place.
pub proof fn law_concealment_is_empty(p: BufferedPacket, state: JitterState, ext: u64)
    requires
        is_concealment(p, state, ext),
    ensures
        p.payload@.len() == 0,
        p.synthesized,
        p.seq == ext % 0x1_0000,
{
}

/// All packets come out of a flush, each once, in the order of their places.
pub proof fn law_flushed_packets_are_in_order(
    packets: Map<u64, BufferedPacket>,
    list: Seq<BufferedPacket>,
)
    requires
        packets.dom().finite(),
        in_order(packets, list),
    ensures
        list.len() == packets.len(),
        exists|keys: Seq<u64>|
            {
                &&& #[trigger] keys.len() == list.len()
                &&& forall|i: int, j: int| 0 <= i < j < keys.len() ==> keys[i] < keys[j]
                &&& forall|i: int|
                    0 <= i < keys.len() ==> packets.contains_key(#[trigger] keys[i]) && list[i]
                        == packets[keys[i]]
                &&& forall|k: u64| packets.contains_key(k) ==> keys.contains(k)
            },
{
    let keys = choose|keys: Seq<u64>|
        #[trigger] listed(packets, keys, list) && keys.to_set() == packets.dom();
    assert(keys.no_duplicates());
    keys.unique_seq_to_set();
    assert(forall|k: u64| packets.contains_key(k) ==> keys.to_set().contains(k));
    assert(keys.len() == list.len());
}

/// The time that has passed is that from the first packet to now, and none before the
/// first packet.
pub proof fn law_time_runs_from_the_first_packet(state: JitterState, now: Instant)
    ensures
        state.base_time matches Some(first) ==> elapsed(state, now) == clock::micros_from(
            first,
            now,
        ),
        state.base_time is None ==> elapsed(state, now) == 0,
{
}

} // verus!
