use rtp_engine::codec::g711::linear_to_ulaw;
use rtp_engine::codec::{create_decoder, create_encoder};
use rtp_engine::net::{IpAddr, SocketAddr};
use rtp_engine::recorder::Channel;
use rtp_engine::rtp::{parse_rtp, RtcpPacket, RtpCounters, RtpHeader};
use rtp_engine::session::dtmf::event_code;
use rtp_engine::session::link::SrtpLink;
use rtp_engine::session::playout::PlayoutBuffer;
use rtp_engine::session::receiver::AudioReceiver;
use rtp_engine::session::reporter::RtcpReporter;
use rtp_engine::session::sender::{take_chunks, AudioSender, Keepalive, KeepaliveAction};
use rtp_engine::session::{begins_port_pair, open_call, MediaSession};
use rtp_engine::{CodecType, Error, SrtpContext};
use std::path::PathBuf;
use std::time::Instant;

#[test]
fn session_test_codec_type_properties() {
    // Test that codec type constants are correct
    assert_eq!(CodecType::Pcmu.payload_type(), 0);
    assert_eq!(CodecType::Pcma.payload_type(), 8);
    assert_eq!(CodecType::Pcmu.clock_rate(), 8000);
    assert_eq!(CodecType::Pcmu.samples_per_frame(), 160);
}

#[test]
fn test_rtp_counters_initialization() {
    let mut counters = RtpCounters::new("PCMU");
    let stats = counters.snapshot();

    assert_eq!(stats.packets_sent, 0);
    assert_eq!(stats.bytes_sent, 0);
    assert_eq!(stats.packets_received, 0);
    assert_eq!(stats.packets_lost, 0);
}

#[test]
fn test_socket_addr_creation() {
    let addr = SocketAddr { ip: IpAddr::v4(192, 168, 1, 100), port: 5060 };
    assert_eq!(addr.port, 5060);
    assert_eq!(addr.ip, IpAddr::v4(192, 168, 1, 100));
    assert_eq!(addr.ip, IpAddr::V4(0xc0a8_0164));
}

#[test]
fn test_create_encoder_decoder() {
    // Test encoder creation
    let encoder = create_encoder(CodecType::Pcmu);
    assert!(encoder.is_ok());

    let encoder = create_encoder(CodecType::Pcma);
    assert!(encoder.is_ok());

    // Test decoder creation
    let decoder = create_decoder(CodecType::Pcmu);
    assert!(decoder.is_ok());

    let decoder = create_decoder(CodecType::Pcma);
    assert!(decoder.is_ok());
}

#[test]
fn test_srtp_context_for_session() {
    let (_ctx, key) = SrtpContext::generate().unwrap();
    assert!(!key.is_empty());

    // Context should be able to protect/unprotect
    let mut test_rtp = vec![
        0x80, 0x00, 0x00, 0x01, 0x00, 0x00, 0x00, 0xA0, 0x12, 0x34, 0x56, 0x78,
    ];
    test_rtp.extend_from_slice(&[0xDE, 0xAD, 0xBE, 0xEF]);

    let mut ctx_clone = SrtpContext::from_base64(&key).unwrap();
    let protected = ctx_clone.protect_rtp(&test_rtp);
    assert!(protected.is_ok());
}

fn remote() -> SocketAddr {
    SocketAddr { ip: IpAddr::v4(127, 0, 0, 1), port: 5004 }
}

fn elsewhere() -> SocketAddr {
    SocketAddr { ip: IpAddr::v4(10, 9, 8, 7), port: 40000 }
}

fn plain_session(codec: CodecType) -> MediaSession {
    MediaSession::new(0x01020304, remote(), codec, None, None)
}

#[test]
fn a_new_session_is_in_order() {
    let mut session = plain_session(CodecType::Pcma);
    assert!(!session.is_muted());
    assert!(session.is_running());
    assert!(!session.is_conference_mode());
    assert!(!session.is_recording());
    assert_eq!(session.codec(), CodecType::Pcma);
    assert_eq!(session.ssrc(), 0x01020304);
    assert_eq!(session.remote_addr(), remote());
    assert_eq!(session.learned_remote(), None);
    assert_eq!(session.destination(), remote());
    assert_eq!(session.stats().codec_name, "PCMA");
    session.set_mute(true);
    assert!(session.is_muted() && !session.takes_microphone());
    session.set_mute(false);
    assert!(session.takes_microphone());
    session.set_conference_mode(true);
    assert!(session.is_conference_mode());
    session.stop();
    assert!(!session.is_running() && !session.takes_microphone());
}

#[test]
fn a_call_is_opened_with_its_ports() {
    let call = open_call(10000, remote(), CodecType::Pcmu, None, None).unwrap();
    assert_eq!(call.rtcp_port, 10001);
    assert_eq!(call.remote_rtcp, SocketAddr { port: 5005, ..remote() });
    assert_eq!(call.reporter, RtcpReporter { ssrc: call.session.ssrc(), remote_ssrc: 0 });
    let six = SocketAddr { ip: IpAddr::V6(1), port: 5004 };
    let other = open_call(10000, six, CodecType::Pcmu, None, None).unwrap();
    assert_eq!(other.remote_rtcp, six);
    assert_ne!(call.session.ssrc(), other.session.ssrc());
    assert!(matches!(
        open_call(10000, remote(), CodecType::Opus, None, None),
        Err(Error::Codec(_))
    ));
    assert!(begins_port_pair(10000, true));
    assert!(!begins_port_pair(10001, true));
    assert!(!begins_port_pair(10000, false));
}

#[test]
fn frames_are_numbered_and_counted() {
    let mut session = plain_session(CodecType::Pcmu);
    let mut sender = AudioSender::new(session.ssrc(), create_encoder(CodecType::Pcmu).unwrap());
    for i in 0..3u16 {
        let data = session.send_audio(&mut sender, &[0; 160]);
        assert_eq!(data.len(), 172);
        let (header, payload) = parse_rtp(&data).unwrap();
        assert_eq!(header.payload_type, 0);
        assert_eq!(header.sequence, i);
        assert_eq!(header.timestamp, u32::from(i) * 160);
        assert_eq!(header.ssrc, 0x01020304);
        assert!(payload.iter().all(|b| *b == 0xff));
    }
    let data = session.send_silence(&mut sender);
    assert_eq!(parse_rtp(&data).unwrap().0.sequence, 3);
    let stats = session.stats();
    assert_eq!(stats.packets_sent, 4);
    assert_eq!(stats.bytes_sent, 4 * 160);
}

#[test]
fn audio_reaches_the_other_side_through_srtp() {
    let (context, key) = SrtpContext::generate().unwrap();
    let peer_context = SrtpContext::from_base64(&key).unwrap();
    let mut session = MediaSession::new(7, remote(), CodecType::Pcma, Some(context), None);
    let mut sender = AudioSender::new(7, create_encoder(CodecType::Pcma).unwrap());
    let mut peer = MediaSession::new(8, remote(), CodecType::Pcma, Some(peer_context), None);
    let mut receiver = AudioReceiver::new(create_decoder(CodecType::Pcma).unwrap());
    let now = Instant::now();
    let pcm: Vec<i16> = (0..160).map(|i| i * 100).collect();
    for i in 0..3u64 {
        let data = session.send_audio(&mut sender, &pcm);
        assert_eq!(data.len(), 182);
        let arrival = 1_000_000 + i as i64 * 20_000;
        let got = receiver.receive_at(&mut peer, &data, elsewhere(), arrival, now, i * 20_000);
        assert_eq!(got, Some(true));
    }
    assert_eq!(peer.destination(), elsewhere());
    assert!(receiver.play_at(&mut peer, now, 39_999, 0).is_none());
    let mut codes = Vec::new();
    let mut expected = Vec::new();
    create_encoder(CodecType::Pcma).unwrap().encode(&pcm, &mut codes);
    create_decoder(CodecType::Pcma).unwrap().decode(&codes, &mut expected);
    for _ in 0..3 {
        assert_eq!(receiver.play_at(&mut peer, now, 40_000, 0).unwrap(), expected);
    }
    // The fourth has not come, and plays as silence.
    assert_eq!(receiver.play_at(&mut peer, now, 40_000, 0).unwrap(), [0; 160]);
    let stats = peer.stats();
    assert_eq!(stats.packets_received, 3);
    assert_eq!(stats.bytes_received, 3 * 160);
    assert_eq!(stats.packets_lost, 0);
    assert_eq!(stats.jitter_us, 0);
}

#[test]
fn a_stream_reaches_the_other_side_across_the_wrap() {
    let (context, key) = SrtpContext::generate().unwrap();
    let mut session = MediaSession::new(7, remote(), CodecType::Pcmu, Some(context), None);
    let mut sender = AudioSender::new(7, create_encoder(CodecType::Pcmu).unwrap());
    let mut peer = SrtpLink::new(Some(SrtpContext::from_base64(&key).unwrap()), None);
    for i in 0..66_000u32 {
        let data = session.send_audio(&mut sender, &[i as i16]);
        let packet = peer.unprotect_rtp(&data).unwrap();
        let (header, payload) = parse_rtp(&packet).unwrap();
        assert_eq!(u32::from(header.sequence), i % 65_536);
        assert_eq!(header.timestamp, i * 160);
        assert_eq!(payload, [linear_to_ulaw(i as i16)]);
    }
}

#[test]
fn refused_datagrams_do_not_count() {
    let (context, _) = SrtpContext::generate().unwrap();
    let mut session = MediaSession::new(7, remote(), CodecType::Pcmu, Some(context), None);
    let mut receiver = AudioReceiver::new(create_decoder(CodecType::Pcmu).unwrap());
    assert_eq!(receiver.receive(&mut session, &[0x80; 40], elsewhere()), None);
    assert_eq!(session.stats().packets_received, 0);
    assert_eq!(session.learned_remote(), Some(elsewhere()));
    assert_eq!(receiver.receive(&mut session, &[0x80; 40], remote()), None);
    assert_eq!(session.learned_remote(), Some(elsewhere()));
}

#[test]
fn jitter_is_measured_between_arrivals() {
    let mut session = plain_session(CodecType::Pcmu);
    let mut sender = AudioSender::new(1, create_encoder(CodecType::Pcmu).unwrap());
    let mut receiver = AudioReceiver::new(create_decoder(CodecType::Pcmu).unwrap());
    let now = Instant::now();
    let first = session.send_silence(&mut sender);
    let second = session.send_silence(&mut sender);
    receiver.receive_at(&mut session, &first, remote(), 1_000_000, now, 0);
    // 1.6 ms late: a sixteenth of that is the new jitter.
    receiver.receive_at(&mut session, &second, remote(), 1_021_600, now, 21_600);
    assert_eq!(session.stats().jitter_us, 100);
    assert_eq!(receiver.transit_change(), Some(12));
    // Too short for RTP, but long enough to be counted.
    assert_eq!(receiver.receive_at(&mut session, &[0; 4], remote(), 0, now, 0), None);
    assert_eq!(session.stats().packets_received, 3);
    assert_eq!(receiver.receive_at(&mut session, &[0; 3], remote(), 0, now, 0), None);
    assert_eq!(session.stats().packets_received, 3);
}

#[test]
fn receiving_and_playing_go_by_the_clock() {
    let mut session = plain_session(CodecType::Pcmu);
    let mut sender = AudioSender::new(1, create_encoder(CodecType::Pcmu).unwrap());
    let mut receiver = AudioReceiver::new(create_decoder(CodecType::Pcmu).unwrap());
    let data = session.send_silence(&mut sender);
    assert_eq!(receiver.receive(&mut session, &data, remote()), Some(true));
    let start = Instant::now();
    while start.elapsed().as_millis() < 45 {
        std::hint::spin_loop();
    }
    assert_eq!(receiver.play(&mut session, 0).unwrap(), [0; 160]);
}

#[test]
fn both_directions_are_recorded() {
    let mut session = plain_session(CodecType::Pcmu);
    let mut sender = AudioSender::new(1, create_encoder(CodecType::Pcmu).unwrap());
    assert!(session.get_tx_recorder_handle().is_none());
    assert!(session.start_recording(PathBuf::from("a.wav")).is_none());
    assert!(session.is_recording());
    let tx = session.get_tx_recorder_handle().unwrap();
    let rx = session.get_rx_recorder_handle().unwrap();
    assert_eq!((tx.channel, rx.channel), (Channel::Tx, Channel::Rx));
    session.send_audio(&mut sender, &[0x0102; 2]);
    session.send_silence(&mut sender);
    session.record(Channel::Rx, &[0x0304]);
    let mut recorder = session.stop_recording().unwrap();
    assert!(!session.is_recording());
    assert!(session.stop_recording().is_none());
    assert_eq!(recorder.output_path(), &PathBuf::from("a.wav"));
    let image = recorder.stop().unwrap();
    assert_eq!(image[44..], [2, 1, 4, 3, 2, 1, 0, 0]);
    session.start_recording(PathBuf::from("b.wav"));
    let replaced = session.start_recording(PathBuf::from("c.wav")).unwrap();
    assert_eq!(replaced.output_path(), &PathBuf::from("b.wav"));
}

#[test]
fn digits_have_their_events() {
    for (i, digit) in ["0", "1", "2", "3", "4", "5", "6", "7", "8", "9", "*", "#"]
        .iter()
        .enumerate()
    {
        assert_eq!(event_code(digit), Some(i as u8));
    }
    for other in ["", "A", "11", "**", " 1", "\u{661}"] {
        assert_eq!(event_code(other), None);
        assert!(plain_session(CodecType::Pcmu).send_dtmf(other).is_none());
    }
}

#[test]
fn an_event_is_sent_in_three_steps() {
    let mut session = plain_session(CodecType::Pcmu);
    let steps = session.dtmf_steps("#", 0xffff, 0x0a0b0c0d).unwrap();
    let expected = |second: u8, seq: [u8; 2], volume: u8, duration: [u8; 2]| {
        let mut out = vec![0x80, second];
        out.extend_from_slice(&seq);
        out.extend_from_slice(&[0x0a, 0x0b, 0x0c, 0x0d, 1, 2, 3, 4, 11, volume]);
        out.extend_from_slice(&duration);
        out
    };
    assert_eq!(steps.len(), 3);
    assert_eq!(steps[0].packet, expected(0xe5, [0xff, 0xff], 10, [0, 160]));
    assert_eq!(steps[1].packet, expected(0x65, [0, 0], 10, [1, 64]));
    assert_eq!(steps[2].packet, expected(0x65, [0, 1], 0x8a, [1, 224]));
    assert!(steps[0].repeat.is_none() && steps[1].repeat.is_none());
    assert_eq!(
        steps[2].repeat.as_deref(),
        Some(&expected(0x65, [0, 2], 0x8a, [1, 224])[..])
    );
    for step in &steps {
        session.count_sent(&step.packet);
        assert_eq!(parse_rtp(&step.packet).unwrap().0.payload_type, 101);
    }
    assert_eq!(session.stats().packets_sent, 3);
    // Each has four bytes of payload.
    assert_eq!(session.stats().bytes_sent, 12);
}

#[test]
fn events_begin_at_random_numbers() {
    let session = plain_session(CodecType::Pcmu);
    let first = session.send_dtmf("5").unwrap();
    let second = session.send_dtmf("5").unwrap();
    assert_eq!(first[0].packet[12..], [5, 10, 0, 160]);
    assert_ne!(first[0].packet[2..8], second[0].packet[2..8]);
}

#[test]
fn reports_tell_what_was_sent_and_lost() {
    let mut session = plain_session(CodecType::Pcmu);
    let mut reporter = RtcpReporter::new(session.ssrc());
    let mut packet = RtpHeader::new(0, 1, 2, 3).to_bytes();
    packet.extend_from_slice(&[0; 100]);
    session.count_sent(&packet);
    let out = reporter.report_at(&mut session, 0, 0);
    assert_eq!(out.len(), 1);
    assert_eq!(RtcpPacket::parse(&out[0]).unwrap().ssrc, 0x01020304);
    assert_eq!(out[0][20..28], [0, 0, 0, 1, 0, 0, 0, 100]);
    // The other side makes itself known.
    let mut peer = MediaSession::new(0xaabbccdd, remote(), CodecType::Pcmu, None, None);
    let theirs = RtcpReporter::new(peer.ssrc()).report(&mut peer);
    reporter.receive(&mut session, &theirs[0]);
    assert_eq!(reporter.remote_ssrc, 0xaabbccdd);
    reporter.receive(&mut session, &[0x80, 203, 0, 1, 9, 9, 9, 9]);
    reporter.receive(&mut session, &[0x80, 200, 0, 1, 9, 9, 9]);
    assert_eq!(reporter.remote_ssrc, 0xaabbccdd);
    // One of four packets is lost.
    let mut receiver = AudioReceiver::new(create_decoder(CodecType::Pcmu).unwrap());
    let mut sender = AudioSender::new(1, create_encoder(CodecType::Pcmu).unwrap());
    for i in 0..4 {
        let data = peer.send_silence(&mut sender);
        if i != 1 {
            receiver.receive_at(&mut session, &data, remote(), i * 20_000, Instant::now(), 0);
        }
    }
    let out = reporter.report_at(&mut session, 0, 0);
    assert_eq!(out.len(), 2);
    assert_eq!(out[1][8..12], [0xaa, 0xbb, 0xcc, 0xdd]);
    assert_eq!(out[1][12..20], [64, 0, 0, 1, 0, 0, 0, 3]);
}

#[test]
fn reports_are_protected_and_opened() {
    let (tx, key) = SrtpContext::generate().unwrap();
    let (rx, other_key) = SrtpContext::generate().unwrap();
    let mut session = MediaSession::new(5, remote(), CodecType::Pcmu, Some(tx), Some(rx));
    let mut peer = MediaSession::new(
        6,
        remote(),
        CodecType::Pcmu,
        Some(SrtpContext::from_base64(&other_key).unwrap()),
        Some(SrtpContext::from_base64(&key).unwrap()),
    );
    let out = RtcpReporter::new(5).report_at(&mut session, 1, 2);
    assert_eq!(out[0].len(), 28 + 14);
    let mut theirs = RtcpReporter::new(6);
    theirs.receive(&mut peer, &out[0]);
    assert_eq!(theirs.remote_ssrc, 5);
    let out = theirs.report_at(&mut peer, 1, 2);
    assert_eq!(out.len(), 2);
    let mut own = RtcpReporter::new(5);
    own.receive(&mut session, &out[1]);
    assert_eq!(own.remote_ssrc, 6);
}

#[test]
fn everything_lost_shows_as_no_fraction() {
    let mut session = plain_session(CodecType::Pcmu);
    let reporter = RtcpReporter { ssrc: 1, remote_ssrc: 2 };
    let out = reporter.report_at(&mut session, 0, 0);
    assert_eq!(out[1][12..16], [0, 0, 0, 0]);
}

#[test]
fn a_path_through_a_nat_is_kept_open() {
    let mut keepalive = Keepalive::new();
    for _ in 0..5 {
        assert_eq!(keepalive.tick(true, false), KeepaliveAction::SendSilence);
    }
    assert_eq!(keepalive.tick(true, true), KeepaliveAction::Wait);
    assert_eq!(keepalive.tick(true, true), KeepaliveAction::SendSilence);
    assert_eq!(keepalive.tick(true, false), KeepaliveAction::Wait);
    assert_eq!(keepalive.tick(false, true), KeepaliveAction::Stop);
}

#[test]
fn microphone_samples_are_cut_into_chunks() {
    let mut buffer = vec![1, 2];
    let chunks = take_chunks(&mut buffer, &[3, 4, 5, 6, 7, 8], 3);
    assert_eq!(chunks, [vec![1, 2, 3], vec![4, 5, 6]]);
    assert_eq!(buffer, [7, 8]);
    assert!(take_chunks(&mut buffer, &[], 3).is_empty());
}

#[test]
fn playout_waits_and_waits_again_when_empty() {
    let mut buffer = PlayoutBuffer::new(100);
    assert_eq!(buffer.limit(), 50);
    buffer.push(&[1, 2, 3, 4, 5]);
    // Six samples are sixty milliseconds.
    assert_eq!(buffer.fill(2, 0), [0, 0]);
    buffer.push(&[6]);
    assert_eq!(buffer.fill(2, 0), [1, 2]);
    assert_eq!(buffer.fill(5, 0), [3, 4, 5, 6, 0]);
    buffer.push(&[7]);
    assert_eq!(buffer.fill(1, 0), [7]);
    assert_eq!(buffer.fill(1, 0), [0]);
    buffer.push(&[8]);
    assert_eq!(buffer.fill(1, 0), [0]);
    assert_eq!(buffer.len(), 1);
}

#[test]
fn the_oldest_samples_make_room_for_new_ones() {
    let mut buffer = PlayoutBuffer::new(10);
    buffer.push(&[1, 2, 3]);
    buffer.push(&[4, 5, 6, 7]);
    assert_eq!(buffer.len(), 5);
    assert_eq!(buffer.fill(5, 0), [3, 4, 5, 6, 7]);
}
