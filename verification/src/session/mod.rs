//! Media sessions: what is sent, received, counted and recorded in a call.
//!
//! A session works on datagrams. Sockets, devices, timers and the sharing
//! between threads are its caller's.

pub mod dtmf;
pub mod link;
pub mod playout;
pub mod receiver;
pub mod reporter;
pub mod sender;

use std::path::PathBuf;

use vstd::prelude::*;

use crate::codec::{
    create_decoder, create_encoder, g711, AudioDecoder, AudioEncoder, CodecType,
};
use crate::crypto;
use crate::error::Error;
use crate::net::{IpAddr, SocketAddr};
use crate::recorder::{self, CallRecorder, Channel, Recording, RecorderHandle};
use crate::rtp::{header, parse_rtp, stats, RtpCounters, RtpStats};
use crate::srtp::SrtpContext;
use dtmf::DtmfStep;
use link::{LinkState, SrtpLink};
use receiver::AudioReceiver;
use reporter::RtcpReporter;
use sender::AudioSender;

verus! {

/// The sample rate of recordings.
pub const RECORDING_RATE: u32 = 8000;

/// A media session with bidirectional audio.
pub struct MediaSession {
    muted: bool,
    running: bool,
    counters: RtpCounters,
    codec: CodecType,
    learned_remote: Option<SocketAddr>,
    ssrc: u32,
    remote_addr: SocketAddr,
    recorder: Option<CallRecorder>,
    conference_mode: bool,
    link: SrtpLink,
}

/// What a session is at one moment.
pub struct SessionState {
    /// Whether the microphone is off.
    pub muted: bool,
    /// Whether it goes on.
    pub running: bool,
    /// Statistics.
    pub counters: RtpCounters,
    /// The codec.
    pub codec: CodecType,
    /// Where datagrams have come from first.
    pub learned_remote: Option<SocketAddr>,
    /// The source that it sends as.
    pub ssrc: u32,
    /// Where it was told to send.
    pub remote_addr: SocketAddr,
    /// The recording.
    pub recording: Option<Recording>,
    /// Whether it takes part in a conference.
    pub conference_mode: bool,
    /// The SRTP contexts.
    pub link: LinkState,
}

impl View for MediaSession {
    type V = SessionState;

    closed spec fn view(&self) -> SessionState {
        SessionState {
            muted: self.muted,
            running: self.running,
            counters: self.counters,
            codec: self.codec,
            learned_remote: self.learned_remote,
            ssrc: self.ssrc,
            remote_addr: self.remote_addr,
            recording: match self.recorder {
                Some(recorder) => Some(recorder@),
                None => None,
            },
            conference_mode: self.conference_mode,
            link: self.link@,
        }
    }
}

/// Where a session sends: to the address that it has learned, or else to the one
/// that it was told.
pub open spec fn destination_of(state: SessionState) -> SocketAddr {
    match state.learned_remote {
        Some(learned) => learned,
        None => state.remote_addr,
    }
}

/// A session once samples have been offered to a channel of its recording.
pub open spec fn recorded(state: SessionState, channel: Channel, samples: Seq<i16>) -> SessionState {
    SessionState {
        recording: match state.recording {
            Some(r) => Some(recorder::with_samples(r, channel, samples)),
            None => None,
        },
        ..state
    }
}

/// A session once a frame has been sent.
pub open spec fn sent(state: SessionState, packet: Seq<u8>) -> SessionState {
    SessionState {
        counters: stats::after_sent(state.counters, header::payload_len(packet)),
        link: link::after_rtp_sent(state.link, packet),
        ..state
    }
}

/// What is recorded when recording begins.
pub open spec fn new_recording(path: PathBuf) -> Recording {
    Recording { active: true, tx: Seq::empty(), rx: Seq::empty(), path, rate: RECORDING_RATE }
}

/// Whether a session is before its first packet, with these parts.
pub open spec fn is_new(
    state: SessionState,
    ssrc: u32,
    remote_addr: SocketAddr,
    codec: CodecType,
    link: LinkState,
) -> bool {
    let c = state.counters;
    &&& state.running && !state.muted && !state.conference_mode
    &&& state.learned_remote is None && state.recording is None
    &&& state.ssrc == ssrc && state.remote_addr == remote_addr && state.codec == codec
    &&& state.link == link
    &&& c.packets_sent == 0 && c.bytes_sent == 0
    &&& c.packets_received == 0 && c.bytes_received == 0
    &&& c.packets_lost == 0 && c.jitter_us == 0
    &&& !c.initialized && c.expected_packets == 0 && c.highest_seq == 0
    &&& c.codec_name@ == codec.sdp_name()
}

impl MediaSession {
    /// A session before its first packet. With the sending context alone it
    /// protects both directions, without it none.
    pub fn new(
        ssrc: u32,
        remote_addr: SocketAddr,
        codec: CodecType,
        tx: Option<SrtpContext>,
        rx: Option<SrtpContext>,
    ) -> (session: Self)
        ensures
            is_new(session@, ssrc, remote_addr, codec, link::of_contexts(tx, rx)),
    {
        MediaSession {
            muted: false,
            running: true,
            counters: RtpCounters::new(codec.name()),
            codec,
            learned_remote: None,
            ssrc,
            remote_addr,
            recorder: None,
            conference_mode: false,
            link: SrtpLink::new(tx, rx),
        }
    }

    /// Sets the mute state.
    pub fn set_mute(&mut self, mute: bool)
        ensures
            final(self)@ == (SessionState { muted: mute, ..old(self)@ }),
    {
        self.muted = mute;
    }

    /// Whether the microphone is off.
    pub fn is_muted(&self) -> (muted: bool)
        ensures
            muted == self@.muted,
    {
        self.muted
    }

    /// Whether samples from the microphone are wanted.
    pub fn takes_microphone(&self) -> (yes: bool)
        ensures
            yes == (self@.running && !self@.muted),
    {
        self.running && !self.muted
    }

    /// Enables or disables conference mode, in which the session's audio takes
    /// part in multi-party mixing.
    pub fn set_conference_mode(&mut self, enabled: bool)
        ensures
            final(self)@ == (SessionState { conference_mode: enabled, ..old(self)@ }),
    {
        self.conference_mode = enabled;
    }

    /// Whether conference mode is enabled.
    pub fn is_conference_mode(&self) -> (enabled: bool)
        ensures
            enabled == self@.conference_mode,
    {
        self.conference_mode
    }

    /// Current statistics.
    pub fn stats(&mut self) -> (taken: RtpStats)
        ensures
            final(self)@ == (SessionState {
                counters: RtpCounters {
                    packets_lost: old(self)@.counters.lost(),
                    ..old(self)@.counters
                },
                ..old(self)@
            }),
            taken.packets_sent == old(self)@.counters.packets_sent,
            taken.packets_received == old(self)@.counters.packets_received,
            taken.bytes_sent == old(self)@.counters.bytes_sent,
            taken.bytes_received == old(self)@.counters.bytes_received,
            taken.packets_lost == old(self)@.counters.lost(),
            taken.jitter_us == old(self)@.counters.jitter_us,
            taken.codec_name@ == old(self)@.counters.codec_name@,
            taken.extended_highest_seq == old(self)@.counters.highest_seq,
            taken.seq_cycles == old(self)@.counters.highest_seq / 0x1_0000,
    {
        self.counters.snapshot()
    }

    /// The codec in use.
    pub fn codec(&self) -> (codec: CodecType)
        ensures
            codec == self@.codec,
    {
        self.codec
    }

    /// The SSRC.
    pub fn ssrc(&self) -> (ssrc: u32)
        ensures
            ssrc == self@.ssrc,
    {
        self.ssrc
    }

    /// The remote address that the session was started with.
    pub fn remote_addr(&self) -> (addr: SocketAddr)
        ensures
            addr == self@.remote_addr,
    {
        self.remote_addr
    }

    /// The learned remote address (for symmetric RTP).
    pub fn learned_remote(&self) -> (addr: Option<SocketAddr>)
        ensures
            addr == self@.learned_remote,
    {
        self.learned_remote
    }

    /// Where packets are sent.
    pub fn destination(&self) -> (addr: SocketAddr)
        ensures
            addr == destination_of(self@),
    {
        match self.learned_remote {
            Some(learned) => learned,
            None => self.remote_addr,
        }
    }

    /// Begins recording the call, TX (microphone) on the left and RX (speaker)
    /// on the right. A recorder that was at work before is handed back, for its
    /// recording to be saved.
    pub fn start_recording(&mut self, output_path: PathBuf) -> (replaced: Option<CallRecorder>)
        ensures
            final(self)@ == (SessionState {
                recording: Some(new_recording(output_path)),
                ..old(self)@
            }),
            match replaced {
                Some(r) => old(self)@.recording == Some(r@),
                None => old(self)@.recording is None,
            },
    {
        let mut recorder = CallRecorder::new(output_path, RECORDING_RATE);
        recorder.start();
        let replaced = self.recorder.take();
        self.recorder = Some(recorder);
        replaced
    }

    /// Ends recording; hands back the recorder, for its recording to be saved, or
    /// nothing where there is none.
    pub fn stop_recording(&mut self) -> (stopped: Option<CallRecorder>)
        ensures
            final(self)@ == (SessionState { recording: None, ..old(self)@ }),
            match stopped {
                Some(r) => old(self)@.recording == Some(r@),
                None => old(self)@.recording is None,
            },
    {
        self.recorder.take()
    }

    /// Whether recording is on.
    pub fn is_recording(&self) -> (yes: bool)
        ensures
            yes == (self@.recording matches Some(r) && r.active),
    {
        match &self.recorder {
            Some(recorder) => recorder.is_recording(),
            None => false,
        }
    }

    /// The handle of the TX channel, while there is a recorder.
    pub fn get_tx_recorder_handle(&self) -> (handle: Option<RecorderHandle>)
        ensures
            handle == match self@.recording {
                Some(_) => Some(RecorderHandle { channel: Channel::Tx }),
                None => None,
            },
    {
        match &self.recorder {
            Some(recorder) => Some(recorder.tx_handle()),
            None => None,
        }
    }

    /// The handle of the RX channel, while there is a recorder.
    pub fn get_rx_recorder_handle(&self) -> (handle: Option<RecorderHandle>)
        ensures
            handle == match self@.recording {
                Some(_) => Some(RecorderHandle { channel: Channel::Rx }),
                None => None,
            },
    {
        match &self.recorder {
            Some(recorder) => Some(recorder.rx_handle()),
            None => None,
        }
    }

    /// Offers samples to a channel of the recording.
    pub fn record(&mut self, channel: Channel, samples: &[i16])
        ensures
            final(self)@ == recorded(old(self)@, channel, samples@),
    {
        let handle = RecorderHandle { channel };
        match &mut self.recorder {
            Some(recorder) => {
                handle.add_samples(recorder, samples);
            },
            None => {},
        }
    }

    /// Stops the session.
    pub fn stop(&mut self)
        ensures
            final(self)@ == (SessionState { running: false, ..old(self)@ }),
    {
        self.running = false;
    }

    /// Whether the session goes on.
    pub fn is_running(&self) -> (running: bool)
        ensures
            running == self@.running,
    {
        self.running
    }

    /// Records a frame from the microphone and makes its datagram.
    pub fn send_audio<E: AudioEncoder>(&mut self, sender: &mut AudioSender<E>, pcm: &[i16]) -> (out:
        Vec<u8>)
        ensures
            ({
                let packet = sender::frame_packet(old(sender).state(), old(sender).encoded(pcm@));
                &&& out@ == link::rtp_on_wire(old(self)@.link, packet)
                &&& final(self)@ == sent(recorded(old(self)@, Channel::Tx, pcm@), packet)
                &&& final(sender).state() == sender::next_frame(old(sender).state())
            }),
            final(sender).memoryless() == old(sender).memoryless(),
            old(sender).memoryless() ==> forall|later: Seq<i16>| #[trigger]
                final(sender).encoded(later) == old(sender).encoded(later),
    {
        self.record(Channel::Tx, pcm);
        sender.send_frame(pcm, &mut self.link, &mut self.counters)
    }

    /// Makes the datagram for a frame of silence, which is not recorded.
    pub fn send_silence<E: AudioEncoder>(&mut self, sender: &mut AudioSender<E>) -> (out: Vec<u8>)
        ensures
            ({
                let packet = sender::frame_packet(
                    old(sender).state(),
                    old(sender).encoded(sender::silence()),
                );
                &&& out@ == link::rtp_on_wire(old(self)@.link, packet)
                &&& final(self)@ == sent(old(self)@, packet)
                &&& final(sender).state() == sender::next_frame(old(sender).state())
            }),
            final(sender).memoryless() == old(sender).memoryless(),
            old(sender).memoryless() ==> forall|later: Seq<i16>| #[trigger]
                final(sender).encoded(later) == old(sender).encoded(later),
    {
        let pcm = sender::silence_frame();
        sender.send_frame(pcm.as_slice(), &mut self.link, &mut self.counters)
    }

    /// The packets for a DTMF digit (RFC 2833) with these numbers for its first;
    /// nothing where it is no such digit.
    pub fn dtmf_steps(&self, digit: &str, base_seq: u16, timestamp: u32) -> (steps: Option<
        Vec<DtmfStep>,
    >)
        ensures
            match steps {
                Some(steps) => {
                    &&& dtmf::event_of(digit@) matches Some(event)
                    &&& dtmf::is_event(steps@, event, base_seq, timestamp, self@.ssrc)
                },
                None => dtmf::event_of(digit@) is None,
            },
    {
        match dtmf::event_code(digit) {
            Some(event) => Some(dtmf::event_steps(event, base_seq, timestamp, self.ssrc)),
            None => None,
        }
    }

    /// The packets for a DTMF digit (RFC 2833), with random numbers; nothing
    /// where it is no such digit. They go to [`MediaSession::destination`], and
    /// each counts with [`MediaSession::count_sent`] as it goes.
    pub fn send_dtmf(&self, digit: &str) -> (steps: Option<Vec<DtmfStep>>)
        ensures
            steps is Some <==> dtmf::event_of(digit@) is Some,
            steps matches Some(steps) ==> exists|base_seq: u16, timestamp: u32| #[trigger]
                dtmf::is_event(
                    steps@,
                    dtmf::event_of(digit@)->0,
                    base_seq,
                    timestamp,
                    self@.ssrc,
                ),
    {
        let timestamp = crypto::random_u32();
        let base_seq = crypto::random_u16();
        self.dtmf_steps(digit, base_seq, timestamp)
    }

    /// Counts a packet that is sent beside the audio, with its payload.
    pub fn count_sent(&mut self, packet: &[u8])
        ensures
            final(self)@ == (SessionState {
                counters: stats::after_sent(
                    old(self)@.counters,
                    header::payload_len(packet@),
                ),
                ..old(self)@
            }),
    {
        let payload_len: usize = match parse_rtp(packet) {
            Some((_, payload)) => payload.len(),
            None => 0,
        };
        self.counters.record_sent(payload_len as u64);
    }
}

/// Whether a port that the system gave out begins an RTP port pair: it is even,
/// and the RTCP port behind it is free.
pub fn begins_port_pair(port: u16, next_is_free: bool) -> (yes: bool)
    ensures
        yes == (port % 2 == 0 && next_is_free),
{
    port % 2 == 0 && next_is_free
}

/// Where reports go: the port behind that of an IPv4 address. An IPv6 address is
/// used as it is.
pub open spec fn report_address(addr: SocketAddr) -> SocketAddr {
    match addr.ip {
        IpAddr::V4(_) => SocketAddr { ip: addr.ip, port: (addr.port + 1) as u16 },
        IpAddr::V6(_) => addr,
    }
}

/// The parts of a call.
pub struct Call<E, D> {
    /// The session.
    pub session: MediaSession,
    /// What sends its audio.
    pub sender: AudioSender<E>,
    /// What receives audio.
    pub receiver: AudioReceiver<D>,
    /// What reports on it.
    pub reporter: RtcpReporter,
    /// The local port for RTCP.
    pub rtcp_port: u16,
    /// Where reports go.
    pub remote_rtcp: SocketAddr,
}

impl<E: AudioEncoder, D: AudioDecoder> Call<E, D> {
    /// Whether the parts of a call fit together, before its first packet.
    pub open spec fn is_ready(
        &self,
        local_rtp_port: u16,
        remote_addr: SocketAddr,
        codec: CodecType,
        ssrc: u32,
        encoder: E,
        decoder: D,
        link: LinkState,
    ) -> bool {
        &&& is_new(self.session@, ssrc, remote_addr, codec, link)
        &&& self.sender.state() == (sender::SenderState {
            seq: 0,
            timestamp: 0,
            ssrc,
            payload_type: encoder.payload(),
        })
        &&& forall|pcm: Seq<i16>| #[trigger] self.sender.encoded(pcm) == encoder.encoded(pcm)
        &&& self.sender.memoryless() == encoder.memoryless()
        &&& self.receiver.state() == receiver::fresh()
        &&& self.receiver.memoryless() == decoder.memoryless()
        &&& forall|data: Seq<u8>| #[trigger] self.receiver.decoded(data) == decoder.decoded(data)
        &&& self.reporter == (RtcpReporter { ssrc, remote_ssrc: 0 })
        &&& self.rtcp_port == local_rtp_port + 1
        &&& self.remote_rtcp == report_address(remote_addr)
    }

    /// The parts of a call that sends as `ssrc`.
    pub fn new(
        local_rtp_port: u16,
        remote_addr: SocketAddr,
        codec: CodecType,
        ssrc: u32,
        encoder: E,
        decoder: D,
        tx: Option<SrtpContext>,
        rx: Option<SrtpContext>,
    ) -> (call: Self)
        requires
            local_rtp_port < 65535,
            remote_addr.port < 65535,
        ensures
            call.is_ready(
                local_rtp_port,
                remote_addr,
                codec,
                ssrc,
                encoder,
                decoder,
                link::of_contexts(tx, rx),
            ),
    {
        let remote_rtcp = match remote_addr.ip {
            IpAddr::V4(_) => SocketAddr { ip: remote_addr.ip, port: remote_addr.port + 1 },
            IpAddr::V6(_) => remote_addr,
        };
        Call {
            session: MediaSession::new(ssrc, remote_addr, codec, tx, rx),
            sender: AudioSender::new(ssrc, encoder),
            receiver: AudioReceiver::new(decoder),
            reporter: RtcpReporter::new(ssrc),
            rtcp_port: local_rtp_port + 1,
            remote_rtcp,
        }
    }
}

impl<E: AudioEncoder, D: AudioDecoder> Call<E, D> {
    /// The parts of a call, once its encoder and decoder have been made; the
    /// error of the one that could not be.
    pub fn open(
        local_rtp_port: u16,
        remote_addr: SocketAddr,
        codec: CodecType,
        ssrc: u32,
        encoder: Result<E, Error>,
        decoder: Result<D, Error>,
        tx: Option<SrtpContext>,
        rx: Option<SrtpContext>,
    ) -> (call: Result<Self, Error>)
        requires
            local_rtp_port < 65535,
            remote_addr.port < 65535,
        ensures
            match (encoder, decoder) {
                (Ok(e), Ok(d)) => {
                    &&& call matches Ok(c)
                    &&& c.is_ready(
                        local_rtp_port,
                        remote_addr,
                        codec,
                        ssrc,
                        e,
                        d,
                        link::of_contexts(tx, rx),
                    )
                },
                (Err(e), _) => call == Err::<Self, Error>(e),
                (_, Err(e)) => call == Err::<Self, Error>(e),
            },
    {
        match encoder {
            Ok(encoder) => match decoder {
                Ok(decoder) => Ok(
                    Call::new(local_rtp_port, remote_addr, codec, ssrc, encoder, decoder, tx, rx),
                ),
                Err(e) => Err(e),
            },
            Err(e) => Err(e),
        }
    }
}

/// The parts of a call that sends as a random source, with this library's codecs.
pub fn open_call(
    local_rtp_port: u16,
    remote_addr: SocketAddr,
    codec: CodecType,
    tx: Option<SrtpContext>,
    rx: Option<SrtpContext>,
) -> (call: Result<Call<Box<dyn AudioEncoder>, Box<dyn AudioDecoder>>, Error>)
    requires
        local_rtp_port < 65535,
        remote_addr.port < 65535,
    ensures
        match call {
            Ok(c) => {
                &&& codec != CodecType::Opus
                &&& is_new(
                    c.session@,
                    c.session@.ssrc,
                    remote_addr,
                    codec,
                    link::of_contexts(tx, rx),
                )
                &&& c.sender.state() == (sender::SenderState {
                    seq: 0,
                    timestamp: 0,
                    ssrc: c.session@.ssrc,
                    payload_type: codec.number(),
                })
                &&& forall|pcm: Seq<i16>| #[trigger]
                    c.sender.encoded(pcm) == if codec == CodecType::Pcmu {
                        g711::ulaw_codes(pcm)
                    } else {
                        g711::alaw_codes(pcm)
                    }
                &&& forall|data: Seq<u8>| #[trigger]
                    c.receiver.decoded(data) == if codec == CodecType::Pcmu {
                        g711::ulaw_samples(data)
                    } else {
                        g711::alaw_samples(data)
                    }
                &&& c.sender.memoryless() && c.receiver.memoryless()
                &&& c.receiver.state() == receiver::fresh()
                &&& c.reporter == (RtcpReporter { ssrc: c.session@.ssrc, remote_ssrc: 0 })
                &&& c.rtcp_port == local_rtp_port + 1
                &&& c.remote_rtcp == report_address(remote_addr)
            },
            Err(e) => codec == CodecType::Opus && e is Codec,
        },
{
    let ssrc = crypto::random_u32();
    Call::open(
        local_rtp_port,
        remote_addr,
        codec,
        ssrc,
        create_encoder(codec),
        create_decoder(codec),
        tx,
        rx,
    )
}

/// Where a session sends: where datagrams came from first, as soon as one has come, and
/// until then where it was told to.
pub proof fn law_packets_go_where_they_came_from(state: SessionState)
    ensures
        state.learned_remote matches Some(addr) ==> destination_of(state) == addr,
        state.learned_remote is None ==> destination_of(state) == state.remote_addr,
{
}

/// A frame that is sent counts with its payload and moves the sending context on;
/// everything else about the session stays.
pub proof fn law_sending_counts(state: SessionState, packet: Seq<u8>)
    requires
        state.counters.packets_sent < u64::MAX,
        state.counters.bytes_sent + packet.len() <= u64::MAX,
    ensures
        ({
            let after = sent(state, packet);
            &&& after.counters.packets_sent == state.counters.packets_sent + 1
            &&& after.counters.bytes_sent == state.counters.bytes_sent + header::payload_len(packet)
            &&& after.counters.packets_received == state.counters.packets_received
            &&& after.link == link::after_rtp_sent(state.link, packet)
            &&& after.recording == state.recording && after.muted == state.muted
            &&& after.running == state.running && after.ssrc == state.ssrc
            &&& after.learned_remote == state.learned_remote
            &&& after.remote_addr == state.remote_addr && after.codec == state.codec
        }),
{
    header::law_headers_are_recognized(packet);
}

/// Samples go into the recording, if there is one, behind those of their channel;
/// everything else about the session stays.
pub proof fn law_samples_go_into_the_recording(
    state: SessionState,
    channel: Channel,
    samples: Seq<i16>,
)
    ensures
        ({
            let after = recorded(state, channel, samples);
            &&& state.recording is None ==> after == state
            &&& state.recording matches Some(r) ==> {
                &&& after.recording matches Some(now)
                &&& r.active && channel == Channel::Tx ==> recorder::joined(r.tx, samples, now.tx)
                    && now.rx == r.rx
                &&& r.active && channel == Channel::Rx ==> recorder::joined(r.rx, samples, now.rx)
                    && now.tx == r.tx
                &&& !r.active ==> now == r
            }
            &&& after.counters == state.counters && after.link == state.link
            &&& after.muted == state.muted && after.running == state.running
            &&& after.learned_remote == state.learned_remote && after.ssrc == state.ssrc
        }),
{
    if state.recording is Some {
        recorder::law_samples_join_their_channel(state.recording->0, channel, samples);
    }
}

/// A recording begins empty, active, and at 8 kHz.
pub proof fn law_recordings_begin_empty(path: PathBuf)
    ensures
        new_recording(path).active,
        new_recording(path).tx.len() == 0,
        new_recording(path).rx.len() == 0,
        new_recording(path).rate == 8000,
        new_recording(path).path == path,
{
}

/// Reports go one port higher than the media, on IPv4; on IPv6 to the media's own.
pub proof fn law_reports_go_one_port_higher(addr: SocketAddr)
    requires
        addr.port < 65535,
    ensures
        report_address(addr).ip == addr.ip,
        addr.ip is V4 ==> report_address(addr).port == addr.port + 1,
        addr.ip is V6 ==> report_address(addr).port == addr.port,
{
}

/// A session before its first packet sends nothing but what it is told to, has counted
/// nothing, and names its codec.
pub proof fn law_sessions_begin_blank(
    state: SessionState,
    ssrc: u32,
    remote_addr: SocketAddr,
    codec: CodecType,
    contexts: LinkState,
)
    requires
        is_new(state, ssrc, remote_addr, codec, contexts),
    ensures
        state.running && !state.muted && !state.conference_mode,
        destination_of(state) == remote_addr,
        state.ssrc == ssrc && state.codec == codec && state.link == contexts,
        state.recording is None,
        state.counters.packets_sent == 0 && state.counters.bytes_sent == 0,
        state.counters.packets_received == 0 && state.counters.bytes_received == 0,
        state.counters.lost() == 0 && state.counters.jitter_us == 0,
        state.counters.highest_seq == 0,
        codec == CodecType::Pcmu ==> state.counters.codec_name@ == "PCMU"@,
        codec == CodecType::Pcma ==> state.counters.codec_name@ == "PCMA"@,
        codec == CodecType::Opus ==> state.counters.codec_name@ == "opus"@,
{
}

} // verus!
