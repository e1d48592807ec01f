//! What a session sends: audio frames, and the silence that keeps the path
//! through a NAT open.

use vstd::prelude::*;

use super::link::{self, LinkState, SrtpLink};
use crate::bytes;
use crate::codec::AudioEncoder;
use crate::rtp::{header, stats, RtpCounters, RtpHeader};
use crate::srtp;

verus! {

/// Samples in a frame: 20 ms at the codec rate.
pub const SAMPLES_PER_FRAME: usize = 160;

/// The sample rate between resampling and codec.
pub const CODEC_RATE: u32 = 8000;

/// Numbers and encodes the frames of a stream.
pub struct AudioSender<E> {
    seq: u16,
    timestamp: u32,
    ssrc: u32,
    encoder: E,
}

/// What goes into the header of the next frame.
pub struct SenderState {
    /// Sequence number.
    pub seq: u16,
    /// Timestamp.
    pub timestamp: u32,
    /// Source.
    pub ssrc: u32,
    /// Payload type.
    pub payload_type: u8,
}

/// The RTP packet for a frame that was encoded to `body`.
pub open spec fn frame_packet(state: SenderState, body: Seq<u8>) -> Seq<u8> {
    header::header_bytes(
        header::plain_header(state.payload_type, state.seq, state.timestamp, state.ssrc),
    ) + body
}

/// The numbers for the frame behind this one.
pub open spec fn next_frame(state: SenderState) -> SenderState {
    SenderState {
        seq: ((state.seq + 1) % 0x1_0000) as u16,
        timestamp: ((state.timestamp + 160) % 0x1_0000_0000) as u32,
        ..state
    }
}

/// A packet with a plain header is whole, and its numbers stand where they
/// belong.
proof fn lemma_frame_packet(state: SenderState, body: Seq<u8>)
    ensures
        header::payload_len(frame_packet(state, body)) == body.len(),
        srtp::holds_rtp_header(frame_packet(state, body), 0),
        frame_packet(state, body).len() == 12 + body.len(),
        bytes::be16_at(frame_packet(state, body), 2) == state.seq,
{
    let h = header::plain_header(state.payload_type, state.seq, state.timestamp, state.ssrc);
    let packet = frame_packet(state, body);
    header::law_header_length_is_of_bytes(h);
    assert(packet[0] == header::first_byte(h));
    assert(packet.subrange(2, 4) =~= bytes::be16(state.seq));
    bytes::law_be16_round_trip(state.seq, packet, 2);
}

impl<E: AudioEncoder> AudioSender<E> {
    /// What goes into the header of the next frame.
    pub closed spec fn state(&self) -> SenderState {
        SenderState {
            seq: self.seq,
            timestamp: self.timestamp,
            ssrc: self.ssrc,
            payload_type: self.encoder.payload(),
        }
    }

    /// What the encoder makes of `pcm` now.
    pub closed spec fn encoded(&self, pcm: Seq<i16>) -> Seq<u8> {
        self.encoder.encoded(pcm)
    }

    /// Whether the encoder makes the same of every frame, whatever came before.
    pub closed spec fn memoryless(&self) -> bool {
        self.encoder.memoryless()
    }

    /// A sender before its first frame.
    pub fn new(ssrc: u32, encoder: E) -> (sender: Self)
        ensures
            sender.state() == (SenderState {
                seq: 0,
                timestamp: 0,
                ssrc,
                payload_type: encoder.payload(),
            }),
            forall|pcm: Seq<i16>| #[trigger] sender.encoded(pcm) == encoder.encoded(pcm),
            sender.memoryless() == encoder.memoryless(),
    {
        AudioSender { seq: 0, timestamp: 0, ssrc, encoder }
    }

    /// Makes the datagram for a frame of samples and counts it with its payload.
    pub fn send_frame(&mut self, pcm: &[i16], link: &mut SrtpLink, counters: &mut RtpCounters) -> (out:
        Vec<u8>)
        ensures
            ({
                let packet = frame_packet(old(self).state(), old(self).encoded(pcm@));
                &&& out@ == link::rtp_on_wire(old(link)@, packet)
                &&& final(link)@ == link::after_rtp_sent(old(link)@, packet)
                &&& final(self).state() == next_frame(old(self).state())
                &&& *final(counters) == stats::after_sent(
                    *old(counters),
                    header::payload_len(packet),
                )
            }),
            final(self).memoryless() == old(self).memoryless(),
            old(self).memoryless() ==> forall|later: Seq<i16>| #[trigger]
                final(self).encoded(later) == old(self).encoded(later),
    {
        let ghost packet = frame_packet(self.state(), self.encoded(pcm@));
        proof {
            lemma_frame_packet(self.state(), self.encoded(pcm@));
        }
        let header = RtpHeader::new(
            self.encoder.payload_type(),
            self.seq,
            self.timestamp,
            self.ssrc,
        );
        self.seq = self.seq.wrapping_add(1);
        self.timestamp = self.timestamp.wrapping_add(160);
        let mut plain = header.to_bytes();
        let header_len: usize = plain.len();
        let _ = self.encoder.encode(pcm, &mut plain);
        assert(plain@ == packet);
        let payload_len: usize = plain.len() - header_len;
        let out = match link.protect_rtp(plain) {
            Ok(out) => out,
            Err(_) => Vec::new(),
        };
        counters.record_sent(payload_len as u64);
        out
    }
}

/// A frame counts with what the encoder made of it: neither its header counts nor
/// what protection adds.
pub proof fn law_frame_counts_its_payload(state: SenderState, body: Seq<u8>)
    ensures
        header::payload_len(frame_packet(state, body)) == body.len(),
{
    lemma_frame_packet(state, body);
}

/// Cuts samples into chunks: `samples` join the buffer, and every whole chunk of
/// `chunk` samples comes out.
pub fn take_chunks<T: Copy>(buffer: &mut Vec<T>, samples: &[T], chunk: usize) -> (chunks: Vec<Vec<T>>)
    requires
        chunk > 0,
    ensures
        ({
            let all = old(buffer)@ + samples@;
            let n = all.len() as int / chunk as int;
            &&& chunks@.len() == n
            &&& forall|k: int|
                0 <= k < n ==> (#[trigger] chunks@[k])@ == all.subrange(
                    k * chunk,
                    k * chunk + chunk,
                )
            &&& final(buffer)@ == all.skip(n * chunk)
        }),
{
    crate::audio_proc::frame::append_all(buffer, samples);
    let ghost all = buffer@;
    let mut chunks: Vec<Vec<T>> = Vec::new();
    let mut from: usize = 0;
    assert(0 * chunk == 0) by (nonlinear_arith);
    while buffer.len() - from >= chunk
        invariant
            buffer@ == all,
            chunk > 0,
            from <= all.len(),
            from == chunks@.len() * chunk,
            forall|k: int|
                0 <= k < chunks@.len() ==> (#[trigger] chunks@[k])@ == all.subrange(
                    k * chunk,
                    k * chunk + chunk,
                ),
        decreases all.len() - from,
    {
        let mut part: Vec<T> = Vec::new();
        for i in from..from + chunk
            invariant
                from + chunk <= buffer@.len(),
                part@ == buffer@.subrange(from as int, i as int),
        {
            part.push(buffer[i]);
        }
        let ghost n = chunks@.len() as int;
        assert((n + 1) * chunk == n * chunk + chunk) by (nonlinear_arith);
        chunks.push(part);
        from = from + chunk;
    }
    let ghost n = chunks@.len() as int;
    assert(all.len() as int / chunk as int == n) by (nonlinear_arith)
        requires
            n * chunk <= all.len() < n * chunk + chunk,
            chunk > 0,
    ;
    let mut rest: Vec<T> = Vec::new();
    for i in from..buffer.len()
        invariant
            from <= buffer@.len(),
            rest@ == buffer@.subrange(from as int, i as int),
    {
        rest.push(buffer[i]);
    }
    assert(rest@ =~= all.skip(n * chunk));
    *buffer = rest;
    chunks
}

/// The frames that open a path through a NAT: five at the start of a session,
/// and one every 20 ms while the session is muted.
#[derive(Debug, Clone, Copy, PartialEq, Eq, Structural)]
pub enum Keepalive {
    /// This many of the opening frames have been sent.
    Opening(u8),
    /// The opening frames are out.
    Steady,
}

/// What the keepalive does now; it is asked every 20 ms.
#[derive(Debug, Clone, Copy, PartialEq, Eq, Structural)]
pub enum KeepaliveAction {
    /// The session has ended: stop asking.
    Stop,
    /// Send a frame of silence.
    SendSilence,
    /// Send nothing.
    Wait,
}

/// What the keepalive does 20 ms later, and what it is then.
pub open spec fn ticked(k: Keepalive, running: bool, muted: bool) -> (Keepalive, KeepaliveAction) {
    if !running {
        (k, KeepaliveAction::Stop)
    } else {
        match k {
            Keepalive::Opening(n) => if n < 5 {
                (Keepalive::Opening((n + 1) as u8), KeepaliveAction::SendSilence)
            } else {
                (Keepalive::Steady, KeepaliveAction::Wait)
            },
            Keepalive::Steady => (
                k,
                if muted {
                    KeepaliveAction::SendSilence
                } else {
                    KeepaliveAction::Wait
                },
            ),
        }
    }
}

impl Keepalive {
    /// Before the first frame.
    pub fn new() -> (k: Self)
        ensures
            k == Keepalive::Opening(0),
    {
        Keepalive::Opening(0)
    }

    /// Moves on by 20 ms.
    pub fn tick(&mut self, running: bool, muted: bool) -> (action: KeepaliveAction)
        ensures
            (*final(self), action) == ticked(*old(self), running, muted),
    {
        if !running {
            return KeepaliveAction::Stop;
        }
        match *self {
            Keepalive::Opening(n) => {
                if n < 5 {
                    *self = Keepalive::Opening(n + 1);
                    KeepaliveAction::SendSilence
                } else {
                    *self = Keepalive::Steady;
                    KeepaliveAction::Wait
                }
            },
            Keepalive::Steady => {
                if muted {
                    KeepaliveAction::SendSilence
                } else {
                    KeepaliveAction::Wait
                }
            },
        }
    }
}

/// The keepalive of a running session after ticks with these mute states.
pub open spec fn after_ticks(k: Keepalive, muted: Seq<bool>) -> Keepalive
    decreases muted.len(),
{
    if muted.len() == 0 {
        k
    } else {
        ticked(after_ticks(k, muted.drop_last()), true, muted.last()).0
    }
}

/// A session opens the path with five frames of silence, muted or not. Behind
/// these it sends silence just while it is muted.
pub proof fn law_five_frames_open_the_path(muted: Seq<bool>, now: bool)
    ensures
        ({
            let action = ticked(after_ticks(Keepalive::Opening(0), muted), true, now).1;
            &&& muted.len() < 5 ==> action == KeepaliveAction::SendSilence
            &&& muted.len() > 5 ==> (action == KeepaliveAction::SendSilence <==> now)
        }),
{
    lemma_after_ticks(muted);
}

proof fn lemma_after_ticks(muted: Seq<bool>)
    ensures
        after_ticks(Keepalive::Opening(0), muted) == if muted.len() <= 5 {
            Keepalive::Opening(muted.len() as u8)
        } else {
            Keepalive::Steady
        },
    decreases muted.len(),
{
    if muted.len() > 0 {
        lemma_after_ticks(muted.drop_last());
    }
}

/// A frame of silence.
pub open spec fn silence() -> Seq<i16> {
    Seq::new(160, |i: int| 0i16)
}

/// A frame of silence.
pub fn silence_frame() -> (pcm: Vec<i16>)
    ensures
        pcm@ == silence(),
{
    let pcm: Vec<i16> = vec![0i16; SAMPLES_PER_FRAME];
    assert(pcm@ =~= silence());
    pcm
}

/// Whether the other side can open the next frame: both are plain, or both have
/// the same keys and the same packets behind them.
pub open spec fn in_tune(state: SenderState, link: LinkState, peer: LinkState) -> bool {
    match (link.tx(), peer.rx()) {
        (Some(tx), Some(rx)) => srtp::laws::in_step(tx, rx) && srtp::laws::is_next(tx, state.seq),
        (None, None) => true,
        _ => false,
    }
}

/// What an encoder makes of a frame reaches the other side: it accepts the
/// datagram, finds in it the frame's numbers and the encoder's output, to the
/// byte, and can open the frame behind it too.
pub proof fn law_frame_reaches_the_other_side(
    state: SenderState,
    body: Seq<u8>,
    link: LinkState,
    peer: LinkState,
)
    requires
        state.payload_type < 128,
        in_tune(state, link, peer),
    ensures
        ({
            let data = link::rtp_on_wire(link, frame_packet(state, body));
            let packet = link::rtp_opened(peer, data);
            &&& link::rtp_accepted(peer, data)
            &&& header::holds_header(packet)
            &&& header::header_fields(packet) == header::plain_header(
                state.payload_type,
                state.seq,
                state.timestamp,
                state.ssrc,
            )
            &&& packet.skip(header::payload_start(packet)) == body
            &&& in_tune(
                next_frame(state),
                link::after_rtp_sent(link, frame_packet(state, body)),
                link::after_rtp_received(peer, data),
            )
        }),
{
    let h = header::plain_header(state.payload_type, state.seq, state.timestamp, state.ssrc);
    let packet = frame_packet(state, body);
    lemma_frame_packet(state, body);
    header::law_parse_undoes_serialize(h, body);
    if link.tx() is Some {
        let (tx, rx) = (link.tx()->0, peer.rx()->0);
        srtp::laws::law_receiver_stays_in_step(tx, rx, state.seq);
        srtp::laws::law_rtp_round_trip(tx.rtp, srtp::sending_roc(tx, state.seq), packet);
    }
}

/// The datagrams for a stream of encoded frames.
pub open spec fn stream(state: SenderState, link: LinkState, bodies: Seq<Seq<u8>>) -> Seq<Seq<u8>>
    decreases bodies.len(),
{
    if bodies.len() == 0 {
        Seq::empty()
    } else {
        let packet = frame_packet(state, bodies[0]);
        seq![link::rtp_on_wire(link, packet)] + stream(
            next_frame(state),
            link::after_rtp_sent(link, packet),
            bodies.skip(1),
        )
    }
}

/// What the other side finds in a stream of datagrams; nothing where it refuses
/// one.
pub open spec fn found(peer: LinkState, stream: Seq<Seq<u8>>) -> Option<Seq<Seq<u8>>>
    decreases stream.len(),
{
    if stream.len() == 0 {
        Some(Seq::empty())
    } else {
        let packet = link::rtp_opened(peer, stream[0]);
        if link::rtp_accepted(peer, stream[0]) && header::holds_header(packet) {
            match found(link::after_rtp_received(peer, stream[0]), stream.skip(1)) {
                Some(rest) => Some(seq![packet.skip(header::payload_start(packet))] + rest),
                None => None,
            }
        } else {
            None
        }
    }
}

/// What is found in a datagram and in those behind it.
#[verifier::spinoff_prover]
proof fn lemma_found_step(
    peer: LinkState,
    data: Seq<u8>,
    rest: Seq<Seq<u8>>,
    body: Seq<u8>,
    bodies: Seq<Seq<u8>>,
)
    requires
        link::rtp_accepted(peer, data),
        header::holds_header(link::rtp_opened(peer, data)),
        link::rtp_opened(peer, data).skip(header::payload_start(link::rtp_opened(peer, data)))
            == body,
        found(link::after_rtp_received(peer, data), rest) == Some(bodies),
    ensures
        found(peer, seq![data] + rest) == Some(seq![body] + bodies),
{
    let all = seq![data] + rest;
    assert(all[0] == data);
    assert(all.skip(1) =~= rest);
}

/// Every frame of a stream reaches the other side, however long it is and however
/// often its numbers wrap.
#[verifier::spinoff_prover]
#[verifier::rlimit(40)]
pub proof fn law_stream_reaches_the_other_side(
    state: SenderState,
    bodies: Seq<Seq<u8>>,
    link: LinkState,
    peer: LinkState,
)
    requires
        state.payload_type < 128,
        in_tune(state, link, peer),
    ensures
        found(peer, stream(state, link, bodies)) == Some(bodies),
    decreases bodies.len(),
{
    if bodies.len() == 0 {
        assert(bodies =~= Seq::empty());
    } else {
        let packet = frame_packet(state, bodies[0]);
        let data = link::rtp_on_wire(link, packet);
        let link_then = link::after_rtp_sent(link, packet);
        let peer_then = link::after_rtp_received(peer, data);
        let rest = stream(next_frame(state), link_then, bodies.skip(1));
        law_frame_reaches_the_other_side(state, bodies[0], link, peer);
        law_stream_reaches_the_other_side(next_frame(state), bodies.skip(1), link_then, peer_then);
        lemma_found_step(peer, data, rest, bodies[0], bodies.skip(1));
        assert(seq![bodies[0]] + bodies.skip(1) =~= bodies);
    }
}

/// One side of a call: what it sends next, and its contexts.
pub struct Party {
    /// What goes into the header of its next frame.
    pub sender: SenderState,
    /// Its contexts.
    pub link: LinkState,
}

/// Whether each of two sides can open the next frame of the other.
pub open spec fn both_in_tune(a: Party, b: Party) -> bool {
    in_tune(a.sender, a.link, b.link) && in_tune(b.sender, b.link, a.link)
}

/// A side once it has sent a frame that was encoded to `body`.
pub open spec fn having_sent(from: Party, body: Seq<u8>) -> Party {
    Party {
        sender: next_frame(from.sender),
        link: link::after_rtp_sent(from.link, frame_packet(from.sender, body)),
    }
}

/// The datagram that a side makes of a frame.
pub open spec fn datagram(from: Party, body: Seq<u8>) -> Seq<u8> {
    link::rtp_on_wire(from.link, frame_packet(from.sender, body))
}

/// A side once it has accepted a datagram.
pub open spec fn having_received(to: Party, data: Seq<u8>) -> Party {
    Party { link: link::after_rtp_received(to.link, data), ..to }
}

/// Two sides that can open each other's frames still can when one has sent a frame
/// and the other has got it, with one context for both directions too: what is sent
/// and what is received have numbers of their own.
#[verifier::spinoff_prover]
pub proof fn law_both_directions_stay_in_tune(from: Party, to: Party, body: Seq<u8>)
    requires
        from.sender.payload_type < 128,
        both_in_tune(from, to),
    ensures
        ({
            let data = datagram(from, body);
            let packet = link::rtp_opened(to.link, data);
            &&& link::rtp_accepted(to.link, data)
            &&& header::holds_header(packet)
            &&& packet.skip(header::payload_start(packet)) == body
            &&& both_in_tune(having_sent(from, body), having_received(to, data))
        }),
{
    let packet = frame_packet(from.sender, body);
    let data = datagram(from, body);
    lemma_frame_packet(from.sender, body);
    law_frame_reaches_the_other_side(from.sender, body, from.link, to.link);
    if from.link.tx() is Some {
        let (tx, rx) = (from.link.tx()->0, to.link.rx()->0);
        let (back_tx, back_rx) = (to.link.tx()->0, from.link.rx()->0);
        let sent = bytes::be16_at(packet, 2);
        let received = bytes::be16_at(data, 2);
        srtp::laws::law_directions_are_independent(tx, back_tx, sent, received);
        srtp::laws::law_directions_are_independent(rx, back_rx, to.sender.seq, received);
    }
}

/// What each side finds in the frames of the other, in the order in which they are
/// sent: the first of a turn says whether `a` sends it. Nothing where one is
/// refused.
pub open spec fn conversed(a: Party, b: Party, turns: Seq<(bool, Seq<u8>)>) -> Option<Seq<Seq<u8>>>
    decreases turns.len(),
{
    if turns.len() == 0 {
        Some(Seq::empty())
    } else {
        let (from_a, body) = turns[0];
        let (from, to) = if from_a {
            (a, b)
        } else {
            (b, a)
        };
        let data = datagram(from, body);
        let packet = link::rtp_opened(to.link, data);
        let (sent, received) = (having_sent(from, body), having_received(to, data));
        let rest = if from_a {
            conversed(sent, received, turns.skip(1))
        } else {
            conversed(received, sent, turns.skip(1))
        };
        if link::rtp_accepted(to.link, data) && header::holds_header(packet) {
            match rest {
                Some(found) => Some(seq![packet.skip(header::payload_start(packet))] + found),
                None => None,
            }
        } else {
            None
        }
    }
}

/// Two sides that begin in tune open all of each other's frames, in whatever turns
/// they send, however long the call is and however often its numbers wrap.
#[verifier::spinoff_prover]
pub proof fn law_both_sides_hear_each_other(a: Party, b: Party, turns: Seq<(bool, Seq<u8>)>)
    requires
        a.sender.payload_type < 128,
        b.sender.payload_type < 128,
        both_in_tune(a, b),
    ensures
        conversed(a, b, turns) == Some(turns.map_values(|turn: (bool, Seq<u8>)| turn.1)),
    decreases turns.len(),
{
    let bodies = turns.map_values(|turn: (bool, Seq<u8>)| turn.1);
    if turns.len() == 0 {
        assert(bodies =~= Seq::empty());
    } else {
        let (from_a, body) = turns[0];
        if from_a {
            law_both_directions_stay_in_tune(a, b, body);
            law_both_sides_hear_each_other(
                having_sent(a, body),
                having_received(b, datagram(a, body)),
                turns.skip(1),
            );
        } else {
            law_both_directions_stay_in_tune(b, a, body);
            law_both_sides_hear_each_other(
                having_received(a, datagram(b, body)),
                having_sent(b, body),
                turns.skip(1),
            );
        }
        assert(seq![body] + turns.skip(1).map_values(|turn: (bool, Seq<u8>)| turn.1) =~= bodies);
    }
}

/// One key serves both directions: two sides whose single contexts begin with the
/// same keying material hear each other.
pub proof fn law_one_key_serves_both_directions(
    key: Seq<u8>,
    salt: Seq<u8>,
    a: SenderState,
    b: SenderState,
    turns: Seq<(bool, Seq<u8>)>,
)
    requires
        a.payload_type < 128,
        b.payload_type < 128,
    ensures
        ({
            let link = LinkState::Shared(srtp::fresh(key, salt));
            conversed(Party { sender: a, link }, Party { sender: b, link }, turns) == Some(
                turns.map_values(|turn: (bool, Seq<u8>)| turn.1),
            )
        }),
{
    let link = LinkState::Shared(srtp::fresh(key, salt));
    law_both_sides_hear_each_other(
        Party { sender: a, link },
        Party { sender: b, link },
        turns,
    );
}

/// Sequence numbers and timestamps run without gaps over `n` frames.
pub open spec fn after_frames(state: SenderState, n: nat) -> SenderState
    decreases n,
{
    if n == 0 {
        state
    } else {
        next_frame(after_frames(state, (n - 1) as nat))
    }
}

/// After `n` frames the sequence number has moved on by `n` and the timestamp by
/// `n` frames of samples, wrapping as their fields do.
#[verifier::spinoff_prover]
pub proof fn law_numbers_run_without_gaps(state: SenderState, n: nat)
    ensures
        after_frames(state, n).seq == (state.seq + n) % 0x1_0000,
        after_frames(state, n).timestamp == (state.timestamp + 160 * n) % 0x1_0000_0000,
        after_frames(state, n).ssrc == state.ssrc,
        after_frames(state, n).payload_type == state.payload_type,
    decreases n,
{
    if n > 0 {
        law_numbers_run_without_gaps(state, (n - 1) as nat);
        let m = (n - 1) as int;
        vstd::arithmetic::div_mod::lemma_add_mod_noop(state.seq + m, 1, 0x1_0000);
        vstd::arithmetic::div_mod::lemma_add_mod_noop(
            state.timestamp + 160 * m,
            160,
            0x1_0000_0000,
        );
    }
}

/// A packet of a frame, byte by byte: version 2 without extras, the payload type, the
/// numbers of the frame, and what the encoder made of it.
pub proof fn law_frame_packet_byte_by_byte(state: SenderState, body: Seq<u8>)
    ensures
        ({
            let p = frame_packet(state, body);
            &&& p.len() == 12 + body.len()
            &&& p[0] == 0x80
            &&& p[1] == state.payload_type % 128
            &&& p[2] * 256 + p[3] == state.seq
            &&& p[4] * 0x100_0000 + p[5] * 0x1_0000 + p[6] * 0x100 + p[7] == state.timestamp
            &&& p[8] * 0x100_0000 + p[9] * 0x1_0000 + p[10] * 0x100 + p[11] == state.ssrc
            &&& forall|i: int| 12 <= i < p.len() ==> #[trigger] p[i] == body[i - 12]
        }),
{
    let h = header::plain_header(state.payload_type, state.seq, state.timestamp, state.ssrc);
    header::law_header_byte_by_byte(h, 0);
    let b = header::header_bytes(h);
    assert(frame_packet(state, body) == b + body);
}

/// From one frame to the next the sequence number goes on by one and the timestamp by
/// the 160 samples of a frame; source and payload type stay.
pub proof fn law_next_frame_follows(state: SenderState)
    ensures
        state.seq < 65535 ==> next_frame(state).seq == state.seq + 1,
        state.seq == 65535 ==> next_frame(state).seq == 0,
        state.timestamp <= u32::MAX - 160 ==> next_frame(state).timestamp == state.timestamp + 160,
        state.timestamp > u32::MAX - 160 ==> next_frame(state).timestamp + u32::MAX + 1
            == state.timestamp + 160,
        next_frame(state).ssrc == state.ssrc,
        next_frame(state).payload_type == state.payload_type,
{
}

/// A frame of silence is 20 ms of zeros.
pub proof fn law_silence_is_zeros(i: int)
    ensures
        silence().len() == 160,
        0 <= i < 160 ==> silence()[i] == 0,
{
}

/// The keepalive stops when the session does, and only then; while it goes on it sends
/// silence for its first five ticks and whenever the session is muted behind them.
pub proof fn law_keepalive_stops_with_the_session(k: Keepalive, muted: bool, n: u8)
    ensures
        ticked(k, false, muted) == (k, KeepaliveAction::Stop),
        ticked(k, true, muted).1 != KeepaliveAction::Stop,
        n < 5 ==> ticked(Keepalive::Opening(n), true, muted) == (
            Keepalive::Opening((n + 1) as u8),
            KeepaliveAction::SendSilence,
        ),
        ticked(Keepalive::Opening(5), true, muted) == (Keepalive::Steady, KeepaliveAction::Wait),
        ticked(Keepalive::Steady, true, true) == (Keepalive::Steady, KeepaliveAction::SendSilence),
        ticked(Keepalive::Steady, true, false) == (Keepalive::Steady, KeepaliveAction::Wait),
{
}

} // verus!
