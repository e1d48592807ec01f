use rtp_engine::rtp::{RtpHeader, RtpPacket};

#[test]
fn test_header_roundtrip() {
    let header = RtpHeader::new(8, 1234, 160000, 0xDEADBEEF);
    let bytes = header.to_bytes();
    let parsed = RtpHeader::parse(&bytes).unwrap();

    assert_eq!(header.payload_type, parsed.payload_type);
    assert_eq!(header.sequence, parsed.sequence);
    assert_eq!(header.timestamp, parsed.timestamp);
    assert_eq!(header.ssrc, parsed.ssrc);
}

#[test]
fn test_header_with_marker() {
    let header = RtpHeader::new(0, 1, 160, 0x12345678).with_marker();
    let bytes = header.to_bytes();
    assert!(bytes[1] & 0x80 != 0);
}

#[test]
fn test_packet_roundtrip() {
    let packet = RtpPacket::simple(0, 100, 16000, 0xABCDEF01, vec![1, 2, 3, 4, 5]);
    let bytes = packet.to_bytes();
    let parsed = RtpPacket::parse(&bytes).unwrap();

    assert_eq!(packet.header.sequence, parsed.header.sequence);
    assert_eq!(packet.payload, parsed.payload);
}

#[test]
fn test_header_with_csrc() {
    let mut header = RtpHeader::new(0, 1, 160, 0x12345678);
    header.csrc.push(0xAAAAAAAA);
    header.csrc.push(0xBBBBBBBB);

    let bytes = header.to_bytes();
    let parsed = RtpHeader::parse(&bytes).unwrap();

    assert_eq!(parsed.csrc.len(), 2);
    assert_eq!(parsed.csrc[0], 0xAAAAAAAA);
    assert_eq!(parsed.csrc[1], 0xBBBBBBBB);
}

#[test]
fn test_invalid_version() {
    // Version 0 packet
    let data = [
        0x00, 0x00, 0x00, 0x01, 0x00, 0x00, 0x00, 0xA0, 0x12, 0x34, 0x56, 0x78,
    ];
    assert!(RtpHeader::parse(&data).is_none());
}

#[test]
fn test_packet_too_short() {
    // Less than 12 bytes
    assert!(RtpHeader::parse(&[0x80, 0x00, 0x00]).is_none());
    assert!(RtpHeader::parse(&[]).is_none());
}

#[test]
fn test_header_default() {
    let header = RtpHeader::default();
    assert_eq!(header.version, 2);
    assert_eq!(header.payload_type, 0);
    assert_eq!(header.sequence, 0);
    assert_eq!(header.timestamp, 0);
    assert_eq!(header.ssrc, 0);
    assert!(!header.marker);
    assert!(!header.padding);
    assert!(!header.extension);
}

#[test]
fn test_all_payload_types() {
    // Test all valid payload types (0-127)
    for pt in 0u8..128 {
        let header = RtpHeader::new(pt, 1, 160, 0x12345678);
        let bytes = header.to_bytes();
        let parsed = RtpHeader::parse(&bytes).unwrap();
        assert_eq!(parsed.payload_type, pt);
    }
}

#[test]
fn test_sequence_wrap() {
    let header = RtpHeader::new(0, 65535, 160, 0x12345678);
    let bytes = header.to_bytes();
    let parsed = RtpHeader::parse(&bytes).unwrap();
    assert_eq!(parsed.sequence, 65535);

    let header2 = RtpHeader::new(0, 0, 320, 0x12345678);
    let bytes2 = header2.to_bytes();
    let parsed2 = RtpHeader::parse(&bytes2).unwrap();
    assert_eq!(parsed2.sequence, 0);
}

#[test]
fn test_timestamp_max() {
    let header = RtpHeader::new(0, 1, u32::MAX, 0x12345678);
    let bytes = header.to_bytes();
    let parsed = RtpHeader::parse(&bytes).unwrap();
    assert_eq!(parsed.timestamp, u32::MAX);
}

#[test]
fn test_header_length() {
    let mut header = RtpHeader::new(0, 1, 160, 0x12345678);
    assert_eq!(header.header_length(), 12);

    header.csrc.push(0xAAAAAAAA);
    assert_eq!(header.header_length(), 16);

    header.csrc.push(0xBBBBBBBB);
    assert_eq!(header.header_length(), 20);
}

#[test]
fn test_padding_flag() {
    let mut header = RtpHeader::new(0, 1, 160, 0x12345678);
    header.padding = true;

    let bytes = header.to_bytes();
    assert!(bytes[0] & 0x20 != 0);

    let parsed = RtpHeader::parse(&bytes).unwrap();
    assert!(parsed.padding);
}

#[test]
fn test_extension_flag() {
    let mut header = RtpHeader::new(0, 1, 160, 0x12345678);
    header.extension = true;
    // Extension data: 2-byte profile + 2-byte length (0) = 4 bytes
    header.extension_data = Some(vec![0xBE, 0xDE, 0x00, 0x00]);

    let bytes = header.to_bytes();
    assert!(bytes[0] & 0x10 != 0);

    let parsed = RtpHeader::parse(&bytes).unwrap();
    assert!(parsed.extension);
    assert!(parsed.extension_data.is_some());
}

#[test]
fn test_csrc_count_max() {
    let mut header = RtpHeader::new(0, 1, 160, 0x12345678);
    // Add 15 CSRCs (max allowed by 4-bit CC field)
    for i in 0..15 {
        header.csrc.push(0x11111111 * (i + 1));
    }

    let bytes = header.to_bytes();
    let parsed = RtpHeader::parse(&bytes).unwrap();
    assert_eq!(parsed.csrc.len(), 15);
}

#[test]
fn test_truncated_csrc() {
    // Header claims 2 CSRCs but data is truncated
    let data = [
        0x82, 0x00, // V=2, CC=2
        0x00, 0x01, 0x00, 0x00, 0x00, 0xA0, 0x12, 0x34, 0x56, 0x78,
        // Only 4 bytes of CSRC instead of 8
        0xAA, 0xAA, 0xAA, 0xAA,
    ];
    assert!(RtpHeader::parse(&data).is_none());
}

#[test]
fn test_packet_with_payload() {
    let payload = vec![0xDE, 0xAD, 0xBE, 0xEF, 0xCA, 0xFE, 0xBA, 0xBE];
    let packet = RtpPacket::simple(0, 1, 160, 0x12345678, payload.clone());

    let bytes = packet.to_bytes();
    assert_eq!(bytes.len(), 12 + 8);

    let parsed = RtpPacket::parse(&bytes).unwrap();
    assert_eq!(parsed.payload, payload);
}

#[test]
fn test_packet_empty_payload() {
    let packet = RtpPacket::simple(0, 1, 160, 0x12345678, vec![]);
    let bytes = packet.to_bytes();
    assert_eq!(bytes.len(), 12);

    let parsed = RtpPacket::parse(&bytes).unwrap();
    assert!(parsed.payload.is_empty());
}

#[test]
fn test_rtp_packet_new() {
    let header = RtpHeader::new(8, 100, 16000, 0xABCDEF01);
    let packet = RtpPacket::new(header.clone(), vec![1, 2, 3]);

    assert_eq!(packet.header.payload_type, 8);
    assert_eq!(packet.payload, vec![1, 2, 3]);
}

#[test]
fn header_bytes_are_exact() {
    let mut header = RtpHeader::new(8, 0x0102, 0x03040506, 0x0708090a).with_marker();
    header.csrc.push(0xaabbccdd);
    header.padding = true;
    assert_eq!(
        header.to_bytes(),
        [0xa1, 0x88, 1, 2, 3, 4, 5, 6, 7, 8, 9, 10, 0xaa, 0xbb, 0xcc, 0xdd]
    );
    assert_eq!(header.header_length(), 16);
}

#[test]
fn serializing_undoes_parsing() {
    let data = [
        0xb1, 0xe0, 1, 2, 3, 4, 5, 6, 7, 8, 9, 10, 0xaa, 0xbb, 0xcc, 0xdd, 0xbe, 0xde, 0, 1, 9, 8,
        7, 6, 0x55, 0x66,
    ];
    let packet = RtpPacket::parse(&data).unwrap();
    assert_eq!(packet.header.payload_type, 0x60);
    assert!(packet.header.marker && packet.header.padding && packet.header.extension);
    assert_eq!(packet.header.csrc, [0xaabbccdd]);
    assert_eq!(packet.header.header_length(), 24);
    assert_eq!(packet.payload, [0x55, 0x66]);
    assert_eq!(packet.to_bytes(), data);
}

#[test]
fn truncated_extensions_are_refused() {
    let data = [0x90, 0, 0, 1, 0, 0, 0, 0, 0, 0, 0, 1, 0xbe, 0xde, 0, 1, 9, 8, 7];
    assert!(RtpHeader::parse(&data).is_none());
    assert!(RtpHeader::parse(&data[..14]).is_none());
    assert!(RtpPacket::parse(&data).is_none());
}
