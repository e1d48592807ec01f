//! What a session receives: audio, in order and on time.

use std::time::{Instant, SystemTime};

use vstd::prelude::*;

use super::link;
use super::sender;
use super::{MediaSession, SessionState};
use crate::bytes;
use crate::clock;
use crate::codec::AudioDecoder;
use crate::jitter::{self, JitterBuffer, JitterConfig, JitterMode, JitterState};
use crate::net::SocketAddr;
use crate::recorder::Channel;
use crate::rtp::{header, parse_rtp, parse_sequence, parse_timestamp, stats, RtpCounters};

verus! {

/// Brings packets in order and decodes them.
pub struct AudioReceiver<D> {
    jitter: JitterBuffer,
    last_transit: Option<i128>,
    decoder: D,
}

/// What a receiver is at one moment, but for its decoder.
pub struct ReceiverState {
    /// The jitter buffer.
    pub jitter: JitterState,
    /// Transit time of the last packet in microseconds, give or take a constant.
    pub last_transit: Option<int>,
}

/// The jitter buffer of a session: 40 ms of delay, which adapts between 20 and
/// 150 ms.
pub open spec fn session_config() -> JitterConfig {
    JitterConfig {
        mode: JitterMode::Adaptive { target_ms: 40, min_ms: 20, max_ms: 150 },
        clock_rate: 8000,
        max_packets: 50,
    }
}

/// A receiver before its first packet.
pub open spec fn fresh() -> ReceiverState {
    ReceiverState { jitter: jitter::empty_buffer(session_config()), last_transit: None }
}

/// Whether a receiver is in order.
pub open spec fn valid(state: ReceiverState) -> bool {
    &&& jitter::valid(state.jitter)
    &&& jitter::mode_ok(state.jitter.config.mode)
    &&& state.last_transit matches Some(t) ==> -0x1_0000_0000 * 125 < t < 0x8000_0000_0000_0000
}

/// The transit time of a packet in microseconds, give or take a constant.
pub open spec fn transit_of(arrival_us: int, packet: Seq<u8>) -> int {
    arrival_us - bytes::be32_at(packet, 4) * 125
}

/// The counters once an opened packet has come.
pub open spec fn counted(
    counters: RtpCounters,
    last_transit: Option<int>,
    packet: Seq<u8>,
    arrival_us: int,
) -> RtpCounters {
    let c = if packet.len() >= 4 {
        stats::after_received(
            counters,
            header::payload_len(packet),
            bytes::be16_at(packet, 2),
        )
    } else {
        counters
    };
    match last_transit {
        Some(prev) if packet.len() >= 8 => RtpCounters {
            jitter_us: stats::filtered_jitter(
                c.jitter_us,
                jitter::distance(transit_of(arrival_us, packet), prev) as u64,
            ),
            ..c
        },
        _ => c,
    }
}

/// The address that a session has learned once a datagram has come from `from`:
/// the first one stays.
pub open spec fn learned(state: SessionState, from: SocketAddr) -> SessionState {
    SessionState {
        learned_remote: match state.learned_remote {
            Some(addr) => Some(addr),
            None => Some(from),
        },
        ..state
    }
}

/// The session once a datagram has come.
pub open spec fn session_after(
    session: SessionState,
    receiver: ReceiverState,
    data: Seq<u8>,
    from: SocketAddr,
    arrival_us: int,
) -> SessionState {
    let s = learned(session, from);
    if !link::rtp_accepted(s.link, data) {
        s
    } else {
        SessionState {
            link: link::after_rtp_received(s.link, data),
            counters: counted(
                s.counters,
                receiver.last_transit,
                link::rtp_opened(s.link, data),
                arrival_us,
            ),
            ..s
        }
    }
}

/// Whether a receiver was right to go from one state to another when an opened
/// packet came, and to tell what became of it.
pub open spec fn took(
    before: ReceiverState,
    after: ReceiverState,
    buffered: Option<bool>,
    packet: Seq<u8>,
    arrival_us: int,
    now: Instant,
    elapsed_us: u64,
) -> bool {
    &&& after.last_transit == if packet.len() >= 8 {
        Some(transit_of(arrival_us, packet))
    } else {
        before.last_transit
    }
    &&& if header::holds_header(packet) {
        let fields = header::header_fields(packet);
        &&& buffered == Some(
            jitter::accepts(
                before.jitter,
                fields.sequence,
                fields.timestamp,
                now,
                elapsed_us,
            ),
        )
        &&& exists|payload: Vec<u8>|
            {
                &&& payload@ == packet.skip(header::payload_start(packet))
                &&& after.jitter == #[trigger] jitter::pushed(
                    before.jitter,
                    fields.sequence,
                    fields.timestamp,
                    payload,
                    now,
                    elapsed_us,
                )
            }
    } else {
        buffered is None && after.jitter == before.jitter
    }
}

/// Whether session and receiver were right to go from one state to another when a
/// datagram came.
pub open spec fn arrived(
    session: SessionState,
    session_then: SessionState,
    receiver: ReceiverState,
    receiver_then: ReceiverState,
    buffered: Option<bool>,
    data: Seq<u8>,
    from: SocketAddr,
    arrival_us: int,
    now: Instant,
    elapsed_us: u64,
) -> bool {
    &&& session_then == session_after(session, receiver, data, from, arrival_us)
    &&& if link::rtp_accepted(session.link, data) {
        took(
            receiver,
            receiver_then,
            buffered,
            link::rtp_opened(session.link, data),
            arrival_us,
            now,
            elapsed_us,
        )
    } else {
        buffered is None && receiver_then == receiver
    }
}

/// The samples for a packet's payload. An empty one stands for a packet that did
/// not come, and plays as silence.
pub open spec fn samples_of(payload: Seq<u8>, decoded: Seq<i16>) -> Seq<i16> {
    if payload.len() == 0 {
        sender::silence()
    } else {
        decoded
    }
}

/// The payload that stands under `ext` in a jitter buffer, empty where none does.
pub open spec fn payload_at(state: JitterState, ext: u64) -> Seq<u8> {
    if state.packets.contains_key(ext) {
        state.packets[ext].payload@
    } else {
        Seq::empty()
    }
}

impl<D: AudioDecoder> AudioReceiver<D> {
    /// What it is, but for its decoder.
    pub closed spec fn state(&self) -> ReceiverState {
        ReceiverState {
            jitter: self.jitter@,
            last_transit: match self.last_transit {
                Some(t) => Some(t as int),
                None => None,
            },
        }
    }

    /// What the decoder makes of `data` now.
    pub closed spec fn decoded(&self, data: Seq<u8>) -> Seq<i16> {
        self.decoder.decoded(data)
    }

    /// Whether the decoder makes the same of every packet, whatever came before.
    pub closed spec fn memoryless(&self) -> bool {
        self.decoder.memoryless()
    }

    /// A receiver before its first packet.
    pub fn new(decoder: D) -> (receiver: Self)
        ensures
            receiver.state() == fresh(),
            valid(receiver.state()),
            forall|data: Seq<u8>| #[trigger] receiver.decoded(data) == decoder.decoded(data),
            receiver.memoryless() == decoder.memoryless(),
    {
        let config = JitterConfig {
            mode: JitterMode::Adaptive { target_ms: 40, min_ms: 20, max_ms: 150 },
            clock_rate: 8000,
            max_packets: 50,
        };
        AudioReceiver { jitter: JitterBuffer::new(config), last_transit: None, decoder }
    }

    /// Takes a datagram that arrives from `from` at `now`, `arrival_us`
    /// microseconds after the Unix epoch and `elapsed_us` after the first packet.
    /// Tells whether an RTP packet was buffered, or nothing where none came.
    pub fn receive_at(
        &mut self,
        session: &mut MediaSession,
        data: &[u8],
        from: SocketAddr,
        arrival_us: i64,
        now: Instant,
        elapsed_us: u64,
    ) -> (buffered: Option<bool>)
        requires
            valid(old(self).state()),
            arrival_us >= 0,
        ensures
            valid(final(self).state()),
            arrived(
                old(session)@,
                final(session)@,
                old(self).state(),
                final(self).state(),
                buffered,
                data@,
                from,
                arrival_us as int,
                now,
                elapsed_us,
            ),
            forall|d: Seq<u8>| #[trigger] final(self).decoded(d) == old(self).decoded(d),
            final(self).memoryless() == old(self).memoryless(),
    {
        if session.learned_remote.is_none() {
            session.learned_remote = Some(from);
        }
        let packet = match session.link.unprotect_rtp(data) {
            Some(packet) => packet,
            None => {
                return None;
            },
        };
        let parsed = parse_rtp(packet.as_slice());
        let payload_len: usize = match &parsed {
            Some((_, payload)) => payload.len(),
            None => 0,
        };
        match parse_sequence(packet.as_slice()) {
            Some(seq) => {
                session.counters.record_received(payload_len as u64, seq);
            },
            None => {},
        }
        match parse_timestamp(packet.as_slice()) {
            Some(timestamp) => {
                let transit: i128 = arrival_us as i128 - timestamp as i128 * 125;
                match self.last_transit {
                    Some(prev) => {
                        let diff: i128 = if transit >= prev {
                            transit - prev
                        } else {
                            prev - transit
                        };
                        session.counters.update_jitter(diff as u64);
                    },
                    None => {},
                }
                self.last_transit = Some(transit);
            },
            None => {},
        }
        match parsed {
            Some((fields, payload)) => {
                let payload = bytes::copy_range(payload, 0, payload.len());
                assert(payload@ =~= packet@.skip(header::payload_start(packet@)));
                Some(
                    self.jitter.push_at(
                        fields.sequence,
                        fields.timestamp,
                        payload,
                        now,
                        elapsed_us,
                    ),
                )
            },
            None => None,
        }
    }

    /// Takes a datagram that has just arrived from `from`. Tells whether an RTP
    /// packet was buffered, or nothing where none came.
    pub fn receive(&mut self, session: &mut MediaSession, data: &[u8], from: SocketAddr) -> (buffered:
        Option<bool>)
        requires
            valid(old(self).state()),
        ensures
            valid(final(self).state()),
            exists|at: SystemTime, now: Instant|
                arrived(
                    old(session)@,
                    final(session)@,
                    old(self).state(),
                    final(self).state(),
                    buffered,
                    data@,
                    from,
                    #[trigger] micros_at(at),
                    now,
                    #[trigger] jitter::elapsed(old(self).state().jitter, now),
                ),
            forall|d: Seq<u8>| #[trigger] final(self).decoded(d) == old(self).decoded(d),
            final(self).memoryless() == old(self).memoryless(),
    {
        let arrival_us = unix_micros();
        let now = Instant::now();
        let elapsed_us = self.jitter.elapsed_us(&now);
        self.receive_at(session, data, from, arrival_us, now, elapsed_us)
    }

    /// The samples to play at `now`, if it is time, which are recorded too.
    /// `elapsed_us` is the time since the first packet, `doubled_jitter_ms` twice
    /// the observed jitter. It is asked every 20 ms.
    pub fn play_at(
        &mut self,
        session: &mut MediaSession,
        now: Instant,
        elapsed_us: u64,
        doubled_jitter_ms: u32,
    ) -> (pcm: Option<Vec<i16>>)
        requires
            valid(old(self).state()),
        ensures
            valid(final(self).state()),
            final(self).state().last_transit == old(self).state().last_transit,
            final(self).memoryless() == old(self).memoryless(),
            old(self).memoryless() ==> forall|d: Seq<u8>| #[trigger]
                final(self).decoded(d) == old(self).decoded(d),
            match pcm {
                Some(samples) => {
                    &&& jitter::due(old(self).state().jitter, elapsed_us) matches Some(ext)
                    &&& final(self).state().jitter == jitter::popped(
                        old(self).state().jitter,
                        ext,
                        doubled_jitter_ms,
                    )
                    &&& ({
                        let payload = payload_at(old(self).state().jitter, ext);
                        samples@ == samples_of(payload, old(self).decoded(payload))
                    })
                    &&& final(session)@ == super::recorded(old(session)@, Channel::Rx, samples@)
                },
                None => {
                    &&& jitter::due(old(self).state().jitter, elapsed_us) is None
                    &&& final(self).state() == old(self).state()
                    &&& final(session)@ == old(session)@
                },
            },
    {
        let packet = match self.jitter.pop_at(now, elapsed_us, doubled_jitter_ms) {
            Some(packet) => packet,
            None => {
                return None;
            },
        };
        let mut pcm: Vec<i16> = Vec::new();
        if packet.payload.len() == 0 {
            pcm = sender::silence_frame();
        } else {
            self.decoder.decode(packet.payload.as_slice(), &mut pcm);
        }
        session.record(Channel::Rx, pcm.as_slice());
        Some(pcm)
    }

    /// The samples to play now, if it is time, which are recorded too.
    pub fn play(&mut self, session: &mut MediaSession, doubled_jitter_ms: u32) -> (pcm: Option<
        Vec<i16>,
    >)
        requires
            valid(old(self).state()),
        ensures
            valid(final(self).state()),
            final(self).state().last_transit == old(self).state().last_transit,
            final(self).memoryless() == old(self).memoryless(),
            old(self).memoryless() ==> forall|d: Seq<u8>| #[trigger]
                final(self).decoded(d) == old(self).decoded(d),
            exists|now: Instant|
                {
                    let elapsed_us = #[trigger] jitter::elapsed(old(self).state().jitter, now);
                    match pcm {
                        Some(samples) => {
                            &&& jitter::due(old(self).state().jitter, elapsed_us) matches Some(ext)
                            &&& final(self).state().jitter == jitter::popped(
                                old(self).state().jitter,
                                ext,
                                doubled_jitter_ms,
                            )
                            &&& ({
                                let payload = payload_at(old(self).state().jitter, ext);
                                samples@ == samples_of(payload, old(self).decoded(payload))
                            })
                            &&& final(session)@ == super::recorded(
                                old(session)@,
                                Channel::Rx,
                                samples@,
                            )
                        },
                        None => {
                            &&& jitter::due(old(self).state().jitter, elapsed_us) is None
                            &&& final(self).state() == old(self).state()
                            &&& final(session)@ == old(session)@
                        },
                    }
                },
    {
        let now = Instant::now();
        let elapsed_us = self.jitter.elapsed_us(&now);
        self.play_at(session, now, elapsed_us, doubled_jitter_ms)
    }

    /// How much the last packet's transit time differs from the one before it, in
    /// timestamp units.
    pub fn transit_change(&self) -> (change: Option<u128>)
        ensures
            match change {
                Some(c) => self.state().jitter.transit_change == Some(c as int),
                None => self.state().jitter.transit_change is None,
            },
    {
        self.jitter.transit_change()
    }
}

/// Microseconds since the Unix epoch at a reading of the system clock, the lower
/// 63 bits of them. A reading before the epoch counts as the epoch.
pub open spec fn micros_at(at: SystemTime) -> int {
    match clock::unix_time(at) {
        Some((secs, nanos)) => (secs * 1_000_000 + nanos / 1000) % 0x8000_0000_0000_0000,
        None => 0,
    }
}

/// Microseconds since the Unix epoch, the lower 63 bits of them. A clock before
/// the epoch counts as the epoch.
fn unix_micros() -> (us: i64)
    ensures
        us >= 0,
        exists|at: SystemTime| us == #[trigger] micros_at(at),
{
    let now = SystemTime::now();
    let us: i64 = match clock::since_unix_epoch(&now) {
        Some((secs, nanos)) => {
            let us: u128 = secs as u128 * 1_000_000 + nanos as u128 / 1000;
            (us % 0x8000_0000_0000_0000) as i64
        },
        None => 0,
    };
    assert(us == micros_at(now));
    us
}

/// Where a session sends is settled by the first datagram: none that comes later
/// changes it.
pub proof fn law_remote_is_learned_once(
    session: SessionState,
    receiver: ReceiverState,
    data: Seq<u8>,
    from: SocketAddr,
    arrival_us: int,
)
    ensures
        session.learned_remote is None ==> super::destination_of(
            session_after(session, receiver, data, from, arrival_us),
        ) == from,
        session.learned_remote is Some ==> super::destination_of(
            session_after(session, receiver, data, from, arrival_us),
        ) == super::destination_of(session),
{
}

/// A datagram that does not authenticate changes nothing but the learned address:
/// not the statistics, not the contexts.
pub proof fn law_refused_datagrams_do_not_count(
    session: SessionState,
    receiver: ReceiverState,
    data: Seq<u8>,
    from: SocketAddr,
    arrival_us: int,
)
    requires
        !link::rtp_accepted(session.link, data),
    ensures
        session_after(session, receiver, data, from, arrival_us) == learned(session, from),
{
}

/// The jitter is that of uneven arrival: it is fed with how much further apart, or how
/// much closer together, two packets came than they were sent, in microseconds at 125
/// for each unit of the 8 kHz clock. Packets that come as evenly as they were sent
/// only let it die away.
pub proof fn law_jitter_measures_uneven_arrival(
    counters: RtpCounters,
    first: Seq<u8>,
    first_us: int,
    second: Seq<u8>,
    second_us: int,
    t1: int,
    t2: int,
    apart: int,
)
    requires
        first.len() >= 8,
        second.len() >= 8,
        t1 == first[4] * 0x100_0000 + first[5] * 0x1_0000 + first[6] * 0x100 + first[7],
        t2 == second[4] * 0x100_0000 + second[5] * 0x1_0000 + second[6] * 0x100 + second[7],
        0 <= first_us <= i64::MAX,
        0 <= second_us <= i64::MAX,
        apart >= 0,
        apart == (second_us - first_us) - (t2 - t1) * 125 || apart == (t2 - t1) * 125 - (second_us
            - first_us),
    ensures
        counted(counters, Some(transit_of(first_us, first)), second, second_us).jitter_us
            == stats::filtered_jitter(counters.jitter_us, apart as u64),
        counted(counters, None, second, second_us).jitter_us == counters.jitter_us,
{
}

/// A packet of four bytes counts as received, with its payload; the statistics of what
/// was sent stay.
pub proof fn law_arrivals_are_counted(
    counters: RtpCounters,
    last_transit: Option<int>,
    packet: Seq<u8>,
    arrival_us: int,
)
    requires
        counters.packets_received < u64::MAX,
        counters.bytes_received + packet.len() <= u64::MAX,
    ensures
        ({
            let after = counted(counters, last_transit, packet, arrival_us);
            &&& packet.len() >= 4 ==> after.packets_received == counters.packets_received + 1
            &&& packet.len() >= 4 ==> after.bytes_received == counters.bytes_received
                + header::payload_len(packet)
            &&& packet.len() < 4 ==> after.packets_received == counters.packets_received
                && after.bytes_received == counters.bytes_received
            &&& after.packets_sent == counters.packets_sent
            &&& after.bytes_sent == counters.bytes_sent
            &&& packet.len() >= 4 ==> after.sequence() == stats::after_packet(
                counters.sequence(),
                (packet[2] * 256 + packet[3]) as u16,
            )
        }),
{
    header::law_headers_are_recognized(packet);
}

/// What is played for a place: silence, 20 ms of it, where nothing came or it came
/// empty, and what the decoder makes of the payload otherwise.
pub proof fn law_missing_packets_play_as_silence(
    state: JitterState,
    ext: u64,
    decoded: Seq<i16>,
    i: int,
)
    ensures
        !state.packets.contains_key(ext) || state.packets[ext].payload@.len() == 0 ==> {
            let samples = samples_of(payload_at(state, ext), decoded);
            samples.len() == 160 && (0 <= i < 160 ==> samples[i] == 0)
        },
        state.packets.contains_key(ext) && state.packets[ext].payload@.len() > 0 ==> samples_of(
            payload_at(state, ext),
            decoded,
        ) == decoded && payload_at(state, ext) == state.packets[ext].payload@,
{
}

/// A datagram that is accepted changes the contexts and the statistics, and teaches the
/// address; everything else about the session stays.
pub proof fn law_datagrams_leave_the_rest_alone(
    session: SessionState,
    receiver: ReceiverState,
    data: Seq<u8>,
    from: SocketAddr,
    arrival_us: int,
)
    ensures
        ({
            let after = session_after(session, receiver, data, from, arrival_us);
            &&& after.muted == session.muted && after.running == session.running
            &&& after.codec == session.codec && after.ssrc == session.ssrc
            &&& after.remote_addr == session.remote_addr
            &&& after.recording == session.recording
            &&& after.conference_mode == session.conference_mode
            &&& after.learned_remote == match session.learned_remote {
                Some(known) => Some(known),
                None => Some(from),
            }
            &&& link::rtp_accepted(session.link, data) ==> after.link == link::after_rtp_received(
                session.link,
                data,
            )
            &&& link::rtp_accepted(session.link, data) ==> after.counters == counted(
                session.counters,
                receiver.last_transit,
                link::rtp_opened(session.link, data),
                arrival_us,
            )
        }),
{
}

/// A packet that is in time is held at its place, with the payload behind its header
/// and the numbers in it, and one that is not RTP leaves the buffer alone.
pub proof fn law_payload_is_held_at_its_place(
    before: ReceiverState,
    after: ReceiverState,
    buffered: Option<bool>,
    packet: Seq<u8>,
    arrival_us: int,
    now: Instant,
    elapsed_us: u64,
    number: int,
)
    requires
        jitter::valid(before.jitter),
        before.jitter.last_seq is Some,
        took(before, after, buffered, packet, arrival_us, now, elapsed_us),
        jitter::is_number(before.jitter, (packet[2] * 256 + packet[3]) as u16, number),
        0 <= number < 0x1_0000_0000_0000,
    ensures
        !header::holds_header(packet) ==> buffered is None && after.jitter == before.jitter,
        header::holds_header(packet) ==> ({
            let late = before.jitter.playout matches Some(next) && number < next;
            let held = after.jitter.packets[number as u64];
            &&& buffered == Some(!late)
            &&& late ==> after.jitter.packets == before.jitter.packets
            &&& !late ==> {
                &&& after.jitter.packets.contains_key(number as u64)
                &&& held.payload@ == packet.skip(header::payload_start(packet))
                &&& held.seq == packet[2] * 256 + packet[3]
                &&& held.timestamp == packet[4] * 0x100_0000 + packet[5] * 0x1_0000 + packet[6]
                    * 0x100 + packet[7]
            }
        }),
{
    if header::holds_header(packet) {
        let fields = header::header_fields(packet);
        header::law_fields_of_bytes(packet, 0);
        let payload = choose|payload: Vec<u8>|
            {
                &&& payload@ == packet.skip(header::payload_start(packet))
                &&& after.jitter == #[trigger] jitter::pushed(
                    before.jitter,
                    fields.sequence,
                    fields.timestamp,
                    payload,
                    now,
                    elapsed_us,
                )
            };
        jitter::law_packet_is_placed_by_its_number(
            before.jitter,
            fields.sequence,
            fields.timestamp,
            payload,
            now,
            elapsed_us,
            number,
        );
    }
}

/// The jitter buffer of a session: 40 ms of delay to begin with, between 20 and 150, at
/// 8 kHz, for fifty packets.
pub proof fn law_session_buffer()
    ensures
        session_config().mode == (JitterMode::Adaptive { target_ms: 40, min_ms: 20, max_ms: 150 }),
        session_config().clock_rate == 8000,
        session_config().max_packets == 50,
        fresh().jitter.delay_ms == 40,
        fresh().jitter.packets.dom() == Set::<u64>::empty(),
        fresh().jitter.playout is None,
        fresh().last_transit is None,
{
}

/// The arrival time in microseconds: a million for each second and the thousandth part
/// of the nanoseconds, as long as that fits in 63 bits.
pub proof fn law_arrival_times_are_microseconds(at: SystemTime)
    ensures
        clock::unix_time(at) matches Some((secs, nanos)) ==> {
            let us = secs * 1_000_000 + nanos as int / 1000;
            us <= i64::MAX ==> micros_at(at) == us
        },
        clock::unix_time(at) is None ==> micros_at(at) == 0,
        0 <= micros_at(at) <= i64::MAX,
{
}

} // verus!
