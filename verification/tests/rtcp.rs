use rtp_engine::rtp::rtcp::{build_rtcp_sr_at, RtcpType};
use rtp_engine::rtp::{build_rtcp_bye, build_rtcp_rr, build_rtcp_sr, RtcpPacket};

#[test]
fn test_build_rtcp_sr() {
    let sr = build_rtcp_sr(0x12345678, 100, 16000);

    // Check header
    assert_eq!(sr[0] & 0xC0, 0x80); // V=2
    assert_eq!(sr[1], 200); // PT=SR

    // Check SSRC
    let ssrc = u32::from_be_bytes([sr[4], sr[5], sr[6], sr[7]]);
    assert_eq!(ssrc, 0x12345678);
}

#[test]
fn test_build_rtcp_rr() {
    let rr = build_rtcp_rr(0xAAAAAAAA, 0xBBBBBBBB, 25, 100, 5000, 160);

    assert_eq!(rr[0] & 0xC0, 0x80); // V=2
    assert_eq!(rr[0] & 0x1F, 1); // RC=1
    assert_eq!(rr[1], 201); // PT=RR

    // Check our SSRC
    let ssrc = u32::from_be_bytes([rr[4], rr[5], rr[6], rr[7]]);
    assert_eq!(ssrc, 0xAAAAAAAA);

    // Check remote SSRC
    let remote_ssrc = u32::from_be_bytes([rr[8], rr[9], rr[10], rr[11]]);
    assert_eq!(remote_ssrc, 0xBBBBBBBB);
}

#[test]
fn test_build_rtcp_bye() {
    let bye = build_rtcp_bye(0xDEADBEEF);

    assert_eq!(bye.len(), 8);
    assert_eq!(bye[1], 203); // PT=BYE

    let ssrc = u32::from_be_bytes([bye[4], bye[5], bye[6], bye[7]]);
    assert_eq!(ssrc, 0xDEADBEEF);
}

#[test]
fn test_parse_rtcp() {
    let sr = build_rtcp_sr(0x12345678, 100, 16000);
    let parsed = RtcpPacket::parse(&sr).unwrap();

    assert_eq!(parsed.packet_type, RtcpType::SenderReport);
    assert_eq!(parsed.ssrc, 0x12345678);
}

#[test]
fn test_parse_rtcp_rr() {
    let rr = build_rtcp_rr(0xAAAAAAAA, 0xBBBBBBBB, 25, 100, 5000, 160);
    let parsed = RtcpPacket::parse(&rr).unwrap();

    assert_eq!(parsed.packet_type, RtcpType::ReceiverReport);
    assert_eq!(parsed.ssrc, 0xAAAAAAAA);
}

#[test]
fn test_parse_rtcp_bye() {
    let bye = build_rtcp_bye(0xDEADBEEF);
    let parsed = RtcpPacket::parse(&bye).unwrap();

    assert_eq!(parsed.packet_type, RtcpType::Goodbye);
    assert_eq!(parsed.ssrc, 0xDEADBEEF);
}

#[test]
fn test_parse_rtcp_too_short() {
    // Less than 8 bytes
    assert!(RtcpPacket::parse(&[0x80, 200, 0x00, 0x01]).is_none());
    assert!(RtcpPacket::parse(&[]).is_none());
}

#[test]
fn test_parse_rtcp_invalid_version() {
    // Version 0
    let invalid = [0x00, 200, 0x00, 0x06, 0x12, 0x34, 0x56, 0x78];
    assert!(RtcpPacket::parse(&invalid).is_none());
}

#[test]
fn test_parse_rtcp_unknown_type() {
    // Unknown packet type 199
    let unknown = [0x80, 199, 0x00, 0x01, 0x12, 0x34, 0x56, 0x78];
    assert!(RtcpPacket::parse(&unknown).is_none());
}

#[test]
fn test_rtcp_type_from_byte() {
    assert_eq!(RtcpType::from_byte(200), Some(RtcpType::SenderReport));
    assert_eq!(RtcpType::from_byte(201), Some(RtcpType::ReceiverReport));
    assert_eq!(RtcpType::from_byte(202), Some(RtcpType::SourceDescription));
    assert_eq!(RtcpType::from_byte(203), Some(RtcpType::Goodbye));
    assert_eq!(RtcpType::from_byte(204), Some(RtcpType::ApplicationDefined));
    assert_eq!(RtcpType::from_byte(199), None);
    assert_eq!(RtcpType::from_byte(205), None);
}

#[test]
fn test_rtcp_sr_structure() {
    let sr = build_rtcp_sr(0x12345678, 1000, 160000);

    // Length check: header(4) + SSRC(4) + NTP(8) + RTP-ts(4) + counts(8) = 28 bytes
    assert_eq!(sr.len(), 28);

    // Version and type
    assert_eq!(sr[0] >> 6, 2); // V=2
    assert_eq!(sr[1], 200); // PT=SR

    // Length field (in 32-bit words minus 1)
    let length = u16::from_be_bytes([sr[2], sr[3]]);
    assert_eq!(length, 6); // (28 - 4) / 4 = 6

    // Packet count
    let packets = u32::from_be_bytes([sr[20], sr[21], sr[22], sr[23]]);
    assert_eq!(packets, 1000);

    // Octet count
    let octets = u32::from_be_bytes([sr[24], sr[25], sr[26], sr[27]]);
    assert_eq!(octets, 160000);
}

#[test]
fn test_rtcp_rr_structure() {
    let rr = build_rtcp_rr(0xAAAAAAAA, 0xBBBBBBBB, 64, 256, 0x00010064, 320);

    // Length check: header(4) + SSRC(4) + report_block(24) = 32 bytes
    assert_eq!(rr.len(), 32);

    // Loss fraction and cumulative
    let loss_word = u32::from_be_bytes([rr[12], rr[13], rr[14], rr[15]]);
    let loss_fraction = (loss_word >> 24) as u8;
    let cumulative_lost = loss_word & 0x00FFFFFF;
    assert_eq!(loss_fraction, 64);
    assert_eq!(cumulative_lost, 256);

    // Extended highest seq
    let ext_seq = u32::from_be_bytes([rr[16], rr[17], rr[18], rr[19]]);
    assert_eq!(ext_seq, 0x00010064);

    // Jitter
    let jitter = u32::from_be_bytes([rr[20], rr[21], rr[22], rr[23]]);
    assert_eq!(jitter, 320);
}

#[test]
fn test_rtcp_bye_structure() {
    let bye = build_rtcp_bye(0xCAFEBABE);

    // SC=1 in first byte
    assert_eq!(bye[0] & 0x1F, 1);

    // PT=BYE (203)
    assert_eq!(bye[1], 203);

    // Length = 1
    let length = u16::from_be_bytes([bye[2], bye[3]]);
    assert_eq!(length, 1);
}

#[test]
fn a_sender_report_is_exact() {
    // Half a second past the epoch, in NTP time and on the codec's clock.
    let sr = build_rtcp_sr_at(0x01020304, 5, 6, 0, 500_000_000);
    let mut expected = vec![0x80, 200, 0, 6, 1, 2, 3, 4];
    expected.extend_from_slice(&2_208_988_800u32.to_be_bytes());
    expected.extend_from_slice(&0x8000_0000u32.to_be_bytes());
    expected.extend_from_slice(&4000u32.to_be_bytes());
    expected.extend_from_slice(&5u32.to_be_bytes());
    expected.extend_from_slice(&6u32.to_be_bytes());
    assert_eq!(sr, expected);
}

#[test]
fn a_report_now_is_of_this_time() {
    let sr = build_rtcp_sr(1, 2, 3);
    let ntp = u32::from_be_bytes(sr[8..12].try_into().unwrap());
    let unix = std::time::SystemTime::now()
        .duration_since(std::time::UNIX_EPOCH)
        .unwrap()
        .as_secs();
    let expected = ((unix + 2_208_988_800) % (1 << 32)) as u32;
    assert!(expected.wrapping_sub(ntp) < 60);
}

#[test]
fn cumulative_loss_has_24_bits() {
    let rr = build_rtcp_rr(1, 2, 0xff, 0x1234_5678, 3, 4);
    assert_eq!(rr[12..16], [0xff, 0x34, 0x56, 0x78]);
    assert_eq!(rr[24..], [0; 8]);
}

#[test]
fn packet_types_are_written_as_they_are_read() {
    for b in 0u8..=255 {
        if let Some(kind) = RtcpType::from_byte(b) {
            assert_eq!(kind.to_byte(), b);
        }
    }
}
