use rtp_engine::srtp::{
    build_sdp_crypto_line, constant_time_eq, parse_sdp_crypto, SrtpContext, AUTH_TAG_LEN,
};
use rtp_engine::Error;

#[test]
fn test_roundtrip_rtp() {
    let (mut ctx_send, b64) = SrtpContext::generate().unwrap();
    let mut ctx_recv = SrtpContext::from_base64(&b64).unwrap();

    let mut rtp = vec![0x80, 0x00];
    rtp.extend_from_slice(&1u16.to_be_bytes());
    rtp.extend_from_slice(&160u32.to_be_bytes());
    rtp.extend_from_slice(&0x12345678u32.to_be_bytes());
    rtp.extend_from_slice(&[0xDE, 0xAD, 0xBE, 0xEF]);

    let srtp = ctx_send.protect_rtp(&rtp).unwrap();
    assert_ne!(&srtp[12..12 + 4], &[0xDE, 0xAD, 0xBE, 0xEF]);
    assert_eq!(srtp.len(), rtp.len() + AUTH_TAG_LEN);

    let decrypted = ctx_recv.unprotect_rtp(&srtp).unwrap();
    assert_eq!(decrypted, rtp);
}

#[test]
fn test_roundtrip_rtcp() {
    let (mut ctx_send, b64) = SrtpContext::generate().unwrap();
    let mut ctx_recv = SrtpContext::from_base64(&b64).unwrap();

    let mut rtcp = vec![0x80, 200];
    rtcp.extend_from_slice(&6u16.to_be_bytes());
    rtcp.extend_from_slice(&0xAABBCCDDu32.to_be_bytes());
    rtcp.extend_from_slice(&[1, 2, 3, 4, 5, 6, 7, 8]);

    let srtcp = ctx_send.protect_rtcp(&rtcp).unwrap();
    let decrypted = ctx_recv.unprotect_rtcp(&srtcp).unwrap();
    assert_eq!(decrypted, rtcp);
}

#[test]
fn test_auth_failure() {
    let (mut ctx_send, _) = SrtpContext::generate().unwrap();
    let (_, b64_other) = SrtpContext::generate().unwrap();
    let mut ctx_recv = SrtpContext::from_base64(&b64_other).unwrap();

    let mut rtp = vec![0x80, 0x00];
    rtp.extend_from_slice(&1u16.to_be_bytes());
    rtp.extend_from_slice(&160u32.to_be_bytes());
    rtp.extend_from_slice(&0x12345678u32.to_be_bytes());
    rtp.extend_from_slice(&[0xDE, 0xAD, 0xBE, 0xEF]);

    let srtp = ctx_send.protect_rtp(&rtp).unwrap();
    assert!(ctx_recv.unprotect_rtp(&srtp).is_err());
}

#[test]
fn test_parse_sdp_crypto() {
    let sdp = "v=0\r\n\
               a=crypto:1 AES_CM_128_HMAC_SHA1_80 inline:dGVzdGtleXRlc3RrZXkxMjM0NTY3ODkwMTI=\r\n";
    let key = parse_sdp_crypto(sdp);
    assert_eq!(
        key,
        Some("dGVzdGtleXRlc3RrZXkxMjM0NTY3ODkwMTI=".to_string())
    );
}

#[test]
fn test_parse_sdp_crypto_with_lifetime() {
    // SDP with MKI and lifetime parameters
    let sdp = "v=0\r\n\
               a=crypto:1 AES_CM_128_HMAC_SHA1_80 inline:YUJjRGVmZ0hpSktsbU5PUHF|2^31\r\n";
    let key = parse_sdp_crypto(sdp);
    assert_eq!(key, Some("YUJjRGVmZ0hpSktsbU5PUHF".to_string()));
}

#[test]
fn test_parse_sdp_crypto_no_crypto_line() {
    let sdp = "v=0\r\nm=audio 5004 RTP/AVP 0\r\n";
    assert!(parse_sdp_crypto(sdp).is_none());
}

#[test]
fn test_parse_sdp_crypto_wrong_suite() {
    let sdp = "v=0\r\na=crypto:1 AES_CM_256_HMAC_SHA1_80 inline:key=\r\n";
    assert!(parse_sdp_crypto(sdp).is_none());
}

#[test]
fn test_build_sdp_crypto_line() {
    let key = "YUJjRGVmZ0hpSktsbU5PUHF";
    let line = build_sdp_crypto_line(key);
    assert_eq!(
        line,
        "a=crypto:1 AES_CM_128_HMAC_SHA1_80 inline:YUJjRGVmZ0hpSktsbU5PUHF\r\n"
    );
}

#[test]
fn test_srtp_sequence_rollover() {
    let (mut ctx_send, b64) = SrtpContext::generate().unwrap();
    let mut ctx_recv = SrtpContext::from_base64(&b64).unwrap();

    // Start near rollover and go through it sequentially
    // This simulates a ~22 minute call at 50 packets/second
    let start_seq = 65530u16;
    for i in 0u16..12 {
        let seq = start_seq.wrapping_add(i);
        let ts = (start_seq as u32 + i as u32) * 160;

        let mut rtp = vec![0x80, 0x00];
        rtp.extend_from_slice(&seq.to_be_bytes());
        rtp.extend_from_slice(&ts.to_be_bytes());
        rtp.extend_from_slice(&0x12345678u32.to_be_bytes());
        rtp.extend_from_slice(&[0xAA, 0xBB, 0xCC, 0xDD]);

        let srtp = ctx_send.protect_rtp(&rtp).unwrap();
        let decrypted = ctx_recv.unprotect_rtp(&srtp).unwrap();
        assert_eq!(decrypted, rtp, "Failed at seq {} (i={})", seq, i);
    }
}

#[test]
fn test_srtp_continuous_through_rollover() {
    let (mut ctx_send, b64) = SrtpContext::generate().unwrap();
    let mut ctx_recv = SrtpContext::from_base64(&b64).unwrap();

    // Simulate continuous packet flow through a rollover boundary
    // Start near max and go through rollover (realistic 22+ minute call)
    let start = 65520u16;
    for i in 0u16..32 {
        let seq = start.wrapping_add(i);
        let ts = (start as u32 + i as u32) * 160;

        let mut rtp = vec![0x80, 0x00];
        rtp.extend_from_slice(&seq.to_be_bytes());
        rtp.extend_from_slice(&ts.to_be_bytes());
        rtp.extend_from_slice(&0x12345678u32.to_be_bytes());
        rtp.extend_from_slice(&[(i & 0xFF) as u8; 4]);

        let srtp = ctx_send.protect_rtp(&rtp).unwrap();
        let decrypted = ctx_recv.unprotect_rtp(&srtp).unwrap();
        assert_eq!(decrypted, rtp, "Failed at seq {} (i={})", seq, i);
    }

    // Verify ROC state - sender should have incremented ROC
    assert_eq!(ctx_send.roc(), 1, "Sender ROC should be 1 after rollover");
    assert_eq!(ctx_recv.roc(), 1, "Receiver ROC should be 1 after rollover");
}

#[test]
fn test_srtp_second_rollover() {
    let (mut ctx_send, b64) = SrtpContext::generate().unwrap();
    let mut ctx_recv = SrtpContext::from_base64(&b64).unwrap();

    // First rollover
    let start1 = 65530u16;
    for i in 0u16..12 {
        let seq = start1.wrapping_add(i);
        let ts = (start1 as u32 + i as u32) * 160;

        let mut rtp = vec![0x80, 0x00];
        rtp.extend_from_slice(&seq.to_be_bytes());
        rtp.extend_from_slice(&ts.to_be_bytes());
        rtp.extend_from_slice(&0x12345678u32.to_be_bytes());
        rtp.extend_from_slice(&[0xAA; 4]);

        let srtp = ctx_send.protect_rtp(&rtp).unwrap();
        let decrypted = ctx_recv.unprotect_rtp(&srtp).unwrap();
        assert_eq!(decrypted, rtp, "First rollover failed at seq {}", seq);
    }

    assert_eq!(ctx_send.roc(), 1);
    assert_eq!(ctx_recv.roc(), 1);

    // Continue from where we left off (seq 6 after rollover from 65535 to 0)
    // Now go through second rollover
    let current_seq = start1.wrapping_add(12); // Should be 6
    let start2 = 65530u16;

    // Need to send packets continuously to get to second rollover
    // From seq 6 to seq 65530, then through to seq 6 again
    for seq in current_seq..start2 {
        let ts = (65530u32 + 12 + (seq - current_seq) as u32) * 160;

        let mut rtp = vec![0x80, 0x00];
        rtp.extend_from_slice(&seq.to_be_bytes());
        rtp.extend_from_slice(&ts.to_be_bytes());
        rtp.extend_from_slice(&0x12345678u32.to_be_bytes());
        rtp.extend_from_slice(&[0xBB; 4]);

        let srtp = ctx_send.protect_rtp(&rtp).unwrap();
        let decrypted = ctx_recv.unprotect_rtp(&srtp).unwrap();
        assert_eq!(decrypted, rtp, "Gap packet failed at seq {}", seq);
    }

    // ROC should still be 1 (no rollover yet)
    assert_eq!(ctx_send.roc(), 1);
    assert_eq!(ctx_recv.roc(), 1);

    // Now second rollover: 65530 -> 65535 -> 0 -> 5
    for i in 0u16..12 {
        let seq = start2.wrapping_add(i);
        let ts = (65530u32 * 2 + i as u32) * 160;

        let mut rtp = vec![0x80, 0x00];
        rtp.extend_from_slice(&seq.to_be_bytes());
        rtp.extend_from_slice(&ts.to_be_bytes());
        rtp.extend_from_slice(&0x12345678u32.to_be_bytes());
        rtp.extend_from_slice(&[0xCC; 4]);

        let srtp = ctx_send.protect_rtp(&rtp).unwrap();
        let decrypted = ctx_recv.unprotect_rtp(&srtp).unwrap();
        assert_eq!(decrypted, rtp, "Second rollover failed at seq {}", seq);
    }

    // After second rollover
    assert_eq!(
        ctx_send.roc(), 2,
        "Sender ROC should be 2 after second rollover"
    );
    assert_eq!(
        ctx_recv.roc(), 2,
        "Receiver ROC should be 2 after second rollover"
    );
}

#[test]
fn test_srtp_out_of_order_near_rollover() {
    let (mut ctx_send, b64) = SrtpContext::generate().unwrap();
    let mut ctx_recv = SrtpContext::from_base64(&b64).unwrap();

    // Build packets around rollover but send slightly out of order
    let sequences = [65534u16, 65535, 0, 1, 2, 3];
    let mut packets: Vec<(u16, Vec<u8>)> = Vec::new();

    for (i, &seq) in sequences.iter().enumerate() {
        let ts = (65534u32 + i as u32) * 160;
        let mut rtp = vec![0x80, 0x00];
        rtp.extend_from_slice(&seq.to_be_bytes());
        rtp.extend_from_slice(&ts.to_be_bytes());
        rtp.extend_from_slice(&0x12345678u32.to_be_bytes());
        rtp.extend_from_slice(&[i as u8; 4]);

        let srtp = ctx_send.protect_rtp(&rtp).unwrap();
        packets.push((seq, srtp));
    }

    // Receive in slightly different order: 65534, 65535, 1, 0, 2, 3
    // (swap 0 and 1 to test reordering across rollover)
    let receive_order = [0, 1, 3, 2, 4, 5];
    for &idx in &receive_order {
        let (seq, ref srtp) = packets[idx];
        let result = ctx_recv.unprotect_rtp(srtp);
        assert!(
            result.is_ok(),
            "Failed to decrypt seq {} (idx {})",
            seq,
            idx
        );
    }
}

#[test]
fn test_srtp_multiple_packets() {
    let (mut ctx_send, b64) = SrtpContext::generate().unwrap();
    let mut ctx_recv = SrtpContext::from_base64(&b64).unwrap();

    // Send multiple packets
    for seq in 0u16..100 {
        let mut rtp = vec![0x80, 0x00];
        rtp.extend_from_slice(&seq.to_be_bytes());
        rtp.extend_from_slice(&((seq as u32) * 160).to_be_bytes());
        rtp.extend_from_slice(&0x12345678u32.to_be_bytes());
        rtp.extend_from_slice(&[seq as u8; 160]);

        let srtp = ctx_send.protect_rtp(&rtp).unwrap();
        let decrypted = ctx_recv.unprotect_rtp(&srtp).unwrap();
        assert_eq!(decrypted, rtp);
    }
}

#[test]
fn test_srtp_invalid_key_length() {
    // Too short master key
    let result = SrtpContext::new(&[0u8; 15], &[0u8; 14]);
    assert!(result.is_err());

    // Too short master salt
    let result = SrtpContext::new(&[0u8; 16], &[0u8; 13]);
    assert!(result.is_err());
}

#[test]
fn test_srtp_invalid_base64() {
    let result = SrtpContext::from_base64("not-valid-base64!!!");
    assert!(result.is_err());
}

#[test]
fn test_srtp_too_short_base64() {
    let result = SrtpContext::from_base64("YWJjZA=="); // Only 4 bytes
    assert!(result.is_err());
}

#[test]
fn test_srtp_packet_too_short() {
    let (mut ctx, _) = SrtpContext::generate().unwrap();

    // RTP packet too short
    let short_rtp = vec![0x80, 0x00, 0x00, 0x01];
    assert!(ctx.protect_rtp(&short_rtp).is_err());

    // SRTP packet too short for auth tag
    let short_srtp = vec![
        0x80, 0x00, 0x00, 0x01, 0x00, 0x00, 0x00, 0xA0, 0x12, 0x34, 0x56, 0x78,
    ];
    assert!(ctx.unprotect_rtp(&short_srtp).is_err());
}

#[test]
fn test_srtp_tampered_packet() {
    let (mut ctx_send, b64) = SrtpContext::generate().unwrap();
    let mut ctx_recv = SrtpContext::from_base64(&b64).unwrap();

    let mut rtp = vec![0x80, 0x00];
    rtp.extend_from_slice(&1u16.to_be_bytes());
    rtp.extend_from_slice(&160u32.to_be_bytes());
    rtp.extend_from_slice(&0x12345678u32.to_be_bytes());
    rtp.extend_from_slice(&[0xDE, 0xAD, 0xBE, 0xEF]);

    let mut srtp = ctx_send.protect_rtp(&rtp).unwrap();

    // Tamper with payload
    srtp[12] ^= 0xFF;

    assert!(ctx_recv.unprotect_rtp(&srtp).is_err());
}

#[test]
fn test_srtcp_multiple_packets() {
    let (mut ctx_send, b64) = SrtpContext::generate().unwrap();
    let mut ctx_recv = SrtpContext::from_base64(&b64).unwrap();

    // Send multiple RTCP packets
    for i in 0..10 {
        let mut rtcp = vec![0x80, 200];
        rtcp.extend_from_slice(&6u16.to_be_bytes());
        rtcp.extend_from_slice(&(0xAABBCC00u32 + i).to_be_bytes());
        rtcp.extend_from_slice(&[1, 2, 3, 4, 5, 6, 7, 8]);

        let srtcp = ctx_send.protect_rtcp(&rtcp).unwrap();
        let decrypted = ctx_recv.unprotect_rtcp(&srtcp).unwrap();
        assert_eq!(decrypted, rtcp);
    }
}

#[test]
fn test_rtcp_too_short() {
    let (mut ctx, _) = SrtpContext::generate().unwrap();

    // RTCP packet too short
    let short_rtcp = vec![0x80, 200, 0x00, 0x01];
    assert!(ctx.protect_rtcp(&short_rtcp).is_err());
}

#[test]
fn test_srtp_context_debug() {
    let (ctx, _) = SrtpContext::generate().unwrap();
    let debug_str = format!("{}", ctx.debug_text());
    assert!(debug_str.contains("SrtpContext"));
    assert!(debug_str.contains("initialized"));
}

#[test]
fn test_constant_time_eq() {
    assert!(constant_time_eq(&[1, 2, 3], &[1, 2, 3]));
    assert!(!constant_time_eq(&[1, 2, 3], &[1, 2, 4]));
    assert!(!constant_time_eq(&[1, 2, 3], &[1, 2]));
    assert!(constant_time_eq(&[], &[]));
}

fn bytes(hex: &str) -> Vec<u8> {
    (0..hex.len() / 2)
        .map(|i| u8::from_str_radix(&hex[2 * i..2 * i + 2], 16).unwrap())
        .collect()
}

fn fixed_context() -> SrtpContext {
    SrtpContext::new(
        &bytes("e1f97a0d3e018be0d64fa32c06de4139"),
        &bytes("0ec675ad498afeebb6960b3aabe6"),
    )
    .unwrap()
}

#[test]
fn a_known_packet_is_protected_to_the_byte() {
    let packet = bytes("800f1234decafbadcafebabeabababababababababababababababab");
    let protected = bytes(
        "800f1234decafbadcafebabe4e55dc4ce79978d88ca4d215949d2402b78d6acc99ea179b8dbb",
    );
    assert_eq!(fixed_context().protect_rtp(&packet).unwrap(), protected);
    assert_eq!(fixed_context().unprotect_rtp(&protected).unwrap(), packet);
}

#[test]
fn contributing_sources_are_not_enciphered() {
    let mut packet = bytes("820f1234decafbadcafebabe0102030405060708");
    packet.extend_from_slice(&[0x55; 5]);
    let protected = fixed_context().protect_rtp(&packet).unwrap();
    assert_eq!(protected[..20], packet[..20]);
    assert_ne!(protected[20..25], packet[20..25]);
    assert_eq!(fixed_context().unprotect_rtp(&protected).unwrap(), packet);
    // Sources that are announced and not there.
    assert!(fixed_context().protect_rtp(&packet[..16]).is_err());
    assert!(matches!(
        fixed_context().protect_rtp(&packet[..16]),
        Err(Error::Rtp(_))
    ));
}

#[test]
fn refused_packets_change_nothing() {
    let mut sender = fixed_context();
    let mut receiver = fixed_context();
    let packet = bytes("800f1234decafbadcafebabeabab");
    let good = sender.protect_rtp(&packet).unwrap();
    for i in 0..good.len() {
        let mut bad = good.clone();
        bad[i] ^= 1;
        assert!(receiver.unprotect_rtp(&bad).is_err(), "byte {i}");
    }
    assert_eq!(receiver.unprotect_rtp(&good).unwrap(), packet);
}

#[test]
fn a_refused_rtcp_packet_is_an_error() {
    let mut sender = fixed_context();
    let mut receiver = fixed_context();
    let packet = bytes("80c80006cafebabe0102030405060708");
    let good = sender.protect_rtcp(&packet).unwrap();
    assert_eq!(good.len(), packet.len() + 14);
    assert_eq!(good[..8], packet[..8]);
    let mut bad = good.clone();
    bad[9] ^= 1;
    assert!(matches!(receiver.unprotect_rtcp(&bad), Err(Error::Srtp(_))));
    assert!(receiver.unprotect_rtcp(&good[..21]).is_err());
    assert_eq!(receiver.unprotect_rtcp(&good).unwrap(), packet);
}

#[test]
fn the_index_of_rtcp_packets_counts_up() {
    let mut sender = fixed_context();
    let packet = bytes("80c80006cafebabe0102030405060708");
    for i in 0..3u32 {
        let out = sender.protect_rtcp(&packet).unwrap();
        let word = u32::from_be_bytes(out[16..20].try_into().unwrap());
        assert_eq!(word, 0x8000_0000 | i);
    }
}

#[test]
fn keying_material_is_key_and_salt() {
    let mut material = bytes("e1f97a0d3e018be0d64fa32c06de4139");
    material.extend_from_slice(&bytes("0ec675ad498afeebb6960b3aabe6"));
    let packet = bytes("800f1234decafbadcafebabeabab");
    let expected = fixed_context().protect_rtp(&packet).unwrap();
    let mut context = SrtpContext::from_keying_material(&material).unwrap();
    assert_eq!(context.protect_rtp(&packet).unwrap(), expected);
    let b64 = "4fl6DT4Bi+DWT6MsBt5BOQ7Gda1Jiv7rtpYLOqvm";
    let mut context = SrtpContext::from_base64(&format!("  {b64}\t")).unwrap();
    assert_eq!(context.protect_rtp(&packet).unwrap(), expected);
    let fixed: [u8; 30] = material.clone().try_into().unwrap();
    let (mut context, text) = SrtpContext::from_random(&fixed).unwrap();
    assert_eq!(text, b64);
    assert_eq!(context.protect_rtp(&packet).unwrap(), expected);
    assert!(SrtpContext::from_keying_material(&material[..29]).is_err());
}

#[test]
fn the_debug_text_shows_no_keys() {
    let mut context = fixed_context();
    assert_eq!(
        context.debug_text(),
        "SrtpContext { initialized: false, roc: 0, s_l: 0 }"
    );
    context
        .protect_rtp(&bytes("800f1234decafbadcafebabe"))
        .unwrap();
    assert_eq!(
        context.debug_text(),
        "SrtpContext { initialized: true, roc: 0, s_l: 4660 }"
    );
}

#[test]
fn generated_keys_differ_and_survive_sdp() {
    let (mut a, key_a) = SrtpContext::generate().unwrap();
    let (_, key_b) = SrtpContext::generate().unwrap();
    assert_ne!(key_a, key_b);
    assert_eq!(key_a.len(), 40);
    let sdp = build_sdp_crypto_line(&key_a);
    let read = parse_sdp_crypto(&sdp).unwrap();
    assert_eq!(read, key_a);
    let mut peer = SrtpContext::from_base64(&read).unwrap();
    let packet = bytes("800f1234decafbadcafebabeabab");
    let protected = a.protect_rtp(&packet).unwrap();
    assert_eq!(peer.unprotect_rtp(&protected).unwrap(), packet);
}

#[test]
fn a_late_packet_is_opened_with_the_counter_of_its_time() {
    let mut sender = fixed_context();
    let mut receiver = fixed_context();
    let packet = |seq: u16| {
        let mut p = vec![0x80, 0];
        p.extend_from_slice(&seq.to_be_bytes());
        p.extend_from_slice(&[0; 8]);
        p.push(9);
        p
    };
    let late = sender.protect_rtp(&packet(65535)).unwrap();
    let first = sender.protect_rtp(&packet(0)).unwrap();
    let mut before = fixed_context();
    let earlier = before.protect_rtp(&packet(65534)).unwrap();
    assert!(receiver.unprotect_rtp(&earlier).is_ok());
    assert!(receiver.unprotect_rtp(&first).is_ok());
    assert_eq!(receiver.roc(), 1);
    assert!(receiver.unprotect_rtp(&late).is_ok());
}

#[test]
fn the_header_extension_is_not_enciphered() {
    // One source and an extension of two words.
    let mut packet = bytes("910f1234decafbadcafebabe01020304bede00021122334455667788");
    packet.extend_from_slice(&[0x55; 7]);
    let protected = fixed_context().protect_rtp(&packet).unwrap();
    assert_eq!(protected.len(), packet.len() + 10);
    assert_eq!(protected[..28], packet[..28]);
    assert_ne!(protected[28..35], packet[28..35]);
    assert_eq!(fixed_context().unprotect_rtp(&protected).unwrap(), packet);
    // It is authenticated all the same.
    let mut changed = protected.clone();
    changed[21] ^= 1;
    assert!(fixed_context().unprotect_rtp(&changed).is_err());
}

#[test]
fn an_extension_that_does_not_fit_is_refused() {
    let packet = bytes("900f1234decafbadcafebabebede00021122334455667788");
    assert!(fixed_context().protect_rtp(&packet).is_ok());
    for len in 12..packet.len() {
        let mut context = fixed_context();
        assert!(
            matches!(context.protect_rtp(&packet[..len]), Err(Error::Rtp(m)) if m == "RTP packet truncated")
        );
        assert_eq!(
            context.debug_text(),
            "SrtpContext { initialized: false, roc: 0, s_l: 0 }"
        );
    }
    let protected = fixed_context().protect_rtp(&packet).unwrap();
    for len in 22..protected.len() {
        assert!(
            matches!(fixed_context().unprotect_rtp(&protected[..len]), Err(Error::Srtp(m)) if m == "SRTP packet truncated")
        );
    }
}

fn numbered(seq: u16) -> Vec<u8> {
    let mut p = vec![0x80, 0];
    p.extend_from_slice(&seq.to_be_bytes());
    p.extend_from_slice(&[0; 8]);
    p.push(9);
    p
}

#[test]
fn a_packet_of_the_previous_rollover_takes_nothing_back() {
    let mut sender = fixed_context();
    let mut receiver = fixed_context();
    let start = sender.protect_rtp(&numbered(39_999)).unwrap();
    let late = sender.protect_rtp(&numbered(40_000)).unwrap();
    let before = sender.protect_rtp(&numbered(65_535)).unwrap();
    let wrapped = sender.protect_rtp(&numbered(100)).unwrap();
    let next = sender.protect_rtp(&numbered(7_300)).unwrap();
    assert_eq!(sender.roc(), 1);
    for packet in [&start, &before, &wrapped] {
        assert!(receiver.unprotect_rtp(packet).is_ok());
    }
    assert_eq!(receiver.roc(), 1);
    assert_eq!(receiver.unprotect_rtp(&late).unwrap(), numbered(40_000));
    assert_eq!(
        receiver.debug_text(),
        "SrtpContext { initialized: true, roc: 1, s_l: 100 }"
    );
    assert_eq!(receiver.unprotect_rtp(&next).unwrap(), numbered(7_300));
    assert_eq!(receiver.roc(), 1);
}

#[test]
fn the_rollover_is_counted_where_packets_are_missing() {
    let mut sender = fixed_context();
    let mut receiver = fixed_context();
    for seq in [65_533, 65_534, 1, 2] {
        let protected = sender.protect_rtp(&numbered(seq)).unwrap();
        assert_eq!(receiver.unprotect_rtp(&protected).unwrap(), numbered(seq));
    }
    assert_eq!(sender.roc(), 1);
    assert_eq!(receiver.roc(), 1);
}

#[test]
fn the_key_is_found_among_other_lines() {
    let sdp = "v=0\r\na=crypto:1 F8_128_HMAC_SHA1_80 inline:no\r\n\
               a=crypto:1 AES_CM_128_HMAC_SHA1_80 inline:key=|2^20|1:4 \r\n\
               a=crypto:2 AES_CM_128_HMAC_SHA1_80 inline:later\r\n";
    assert_eq!(parse_sdp_crypto(sdp), Some("key=".to_string()));
}

#[test]
fn a_context_keeps_its_directions_apart() {
    // What was received has no part in the counter of what is sent.
    let mut own = fixed_context();
    let mut peer = fixed_context();
    for seq in [50_000, 65_535] {
        let theirs = peer.protect_rtp(&numbered(seq)).unwrap();
        assert!(own.unprotect_rtp(&theirs).is_ok());
        let mut alone = fixed_context();
        let expected = alone.protect_rtp(&numbered(0)).unwrap();
        assert_eq!(own.protect_rtp(&numbered(0)).unwrap(), expected);
    }
    // One key serves both directions across both wraps.
    let (mut a, mut b) = (fixed_context(), fixed_context());
    let (mut from_a, mut from_b) = (65_500u16, 100u16);
    for i in 0..70_000u32 {
        let packet = numbered(from_b);
        let data = b.protect_rtp(&packet).unwrap();
        assert_eq!(a.unprotect_rtp(&data).unwrap(), packet);
        from_b = from_b.wrapping_add(1);
        if i % 3 == 0 {
            let packet = numbered(from_a);
            let data = a.protect_rtp(&packet).unwrap();
            assert_eq!(b.unprotect_rtp(&data).unwrap(), packet);
            from_a = from_a.wrapping_add(1);
        }
    }
    assert_eq!((a.roc(), b.roc()), (1, 1));
}
