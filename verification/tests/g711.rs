use rtp_engine::codec::g711::{
    alaw_to_linear, linear_to_alaw, linear_to_ulaw, ulaw_to_linear, PcmaDecoder, PcmaEncoder,
    PcmuDecoder, PcmuEncoder,
};
use rtp_engine::codec::{AudioDecoder, AudioEncoder, CodecType};

#[test]
fn test_ulaw_roundtrip() {
    // Test roundtrip for a range of values
    for sample in [
        -32768i16, -16384, -8192, -1024, -128, 0, 128, 1024, 8192, 16384, 32767,
    ] {
        let encoded = linear_to_ulaw(sample);
        let decoded = ulaw_to_linear(encoded);
        // G.711 is lossy, but should be reasonably close
        let diff = (sample as i32 - decoded as i32).abs();
        assert!(
            diff < 2048,
            "mu-law roundtrip too lossy: {} -> {} (diff {})",
            sample,
            decoded,
            diff
        );
    }
}

#[test]
fn test_alaw_roundtrip() {
    for sample in [
        -32768i16, -16384, -8192, -1024, -128, 0, 128, 1024, 8192, 16384, 32767,
    ] {
        let encoded = linear_to_alaw(sample);
        let decoded = alaw_to_linear(encoded);
        let diff = (sample as i32 - decoded as i32).abs();
        assert!(
            diff < 2048,
            "A-law roundtrip too lossy: {} -> {} (diff {})",
            sample,
            decoded,
            diff
        );
    }
}

#[test]
fn test_ulaw_encoder_decoder() {
    let mut encoder = PcmuEncoder::new();
    let mut decoder = PcmuDecoder::new();

    let input: Vec<i16> = (0..160)
        .map(|i| ((i as f32 / 160.0) * 16000.0) as i16)
        .collect();
    let mut encoded = Vec::new();
    let consumed = encoder.encode(&input, &mut encoded);

    assert_eq!(consumed, 160);
    assert_eq!(encoded.len(), 160);

    let mut decoded = Vec::new();
    decoder.decode(&encoded, &mut decoded);
    assert_eq!(decoded.len(), 160);
}

#[test]
fn test_alaw_encoder_decoder() {
    let mut encoder = PcmaEncoder::new();
    let mut decoder = PcmaDecoder::new();

    let input: Vec<i16> = (0..160)
        .map(|i| ((i as f32 / 160.0) * 16000.0) as i16)
        .collect();
    let mut encoded = Vec::new();
    let consumed = encoder.encode(&input, &mut encoded);

    assert_eq!(consumed, 160);
    assert_eq!(encoded.len(), 160);

    let mut decoded = Vec::new();
    decoder.decode(&encoded, &mut decoded);
    assert_eq!(decoded.len(), 160);
}

#[test]
fn test_silence_encoding() {
    let mut encoder = PcmuEncoder::new();
    let silence: Vec<i16> = vec![0; 160];
    let mut encoded = Vec::new();
    encoder.encode(&silence, &mut encoded);

    // mu-law silence is 0xFF (127 biased and inverted)
    assert!(encoded.iter().all(|&b| b == 0xFF || b == 0x7F));
}

#[test]
fn test_ulaw_extreme_values() {
    // Test the most extreme values
    let max_encoded = linear_to_ulaw(i16::MAX);
    let min_encoded = linear_to_ulaw(i16::MIN);

    // Should encode to different values
    assert_ne!(max_encoded, min_encoded);

    // Decode back should preserve polarity
    let max_decoded = ulaw_to_linear(max_encoded);
    let min_decoded = ulaw_to_linear(min_encoded);

    assert!(max_decoded > 0);
    assert!(min_decoded < 0);
}

#[test]
fn test_alaw_extreme_values() {
    let max_encoded = linear_to_alaw(i16::MAX);
    let min_encoded = linear_to_alaw(i16::MIN);

    assert_ne!(max_encoded, min_encoded);

    let max_decoded = alaw_to_linear(max_encoded);
    let min_decoded = alaw_to_linear(min_encoded);

    assert!(max_decoded > 0);
    assert!(min_decoded < 0);
}

#[test]
fn test_ulaw_monotonicity() {
    // mu-law should be monotonic for positive values
    let mut last_encoded = linear_to_ulaw(0);
    for sample in (0..32768i32).step_by(256) {
        let encoded = linear_to_ulaw(sample as i16);
        // Encoded values for increasing input should not increase
        // (due to complementing in mu-law encoding)
        assert!(
            encoded <= last_encoded || sample < 256,
            "mu-law not monotonic at {}: {} > {}",
            sample,
            encoded,
            last_encoded
        );
        last_encoded = encoded;
    }
}

#[test]
fn test_pcmu_encoder_properties() {
    let encoder = PcmuEncoder::new();

    assert_eq!(encoder.codec_type(), CodecType::Pcmu);
    assert_eq!(encoder.payload_type(), 0);
}

#[test]
fn test_pcma_encoder_properties() {
    let encoder = PcmaEncoder::new();

    assert_eq!(encoder.codec_type(), CodecType::Pcma);
    assert_eq!(encoder.payload_type(), 8);
}

#[test]
fn test_pcmu_decoder_properties() {
    let decoder = PcmuDecoder::new();

    assert_eq!(decoder.codec_type(), CodecType::Pcmu);
}

#[test]
fn test_pcma_decoder_properties() {
    let decoder = PcmaDecoder::new();

    assert_eq!(decoder.codec_type(), CodecType::Pcma);
}

#[test]
fn test_encoder_partial_frame() {
    let mut encoder = PcmuEncoder::new();

    // Less than one frame
    let input: Vec<i16> = vec![1000; 80];
    let mut encoded = Vec::new();
    let consumed = encoder.encode(&input, &mut encoded);

    assert_eq!(consumed, 80);
    assert_eq!(encoded.len(), 80);
}

#[test]
fn test_encoder_multiple_frames() {
    let mut encoder = PcmuEncoder::new();

    // Multiple frames
    let input: Vec<i16> = vec![1000; 480];
    let mut encoded = Vec::new();
    let consumed = encoder.encode(&input, &mut encoded);

    assert_eq!(consumed, 480);
    assert_eq!(encoded.len(), 480);
}

#[test]
fn test_ulaw_all_codewords() {
    // Test that all 256 codewords decode without panic
    for codeword in 0u8..=255 {
        let _decoded = ulaw_to_linear(codeword);
        // If we got here without panic, the codeword is valid
    }
}

#[test]
fn test_alaw_all_codewords() {
    // Test that all 256 codewords decode without panic
    for codeword in 0u8..=255 {
        let _decoded = alaw_to_linear(codeword);
        // If we got here without panic, the codeword is valid
    }
}

#[test]
fn test_sine_wave_encoding() {
    let mut encoder = PcmuEncoder::new();
    let mut decoder = PcmuDecoder::new();

    // Generate a 1kHz sine wave at 8kHz sample rate
    let samples: Vec<i16> = (0..160)
        .map(|i| {
            let t = i as f32 / 8000.0;
            (1000.0 * (2.0 * std::f32::consts::PI * t).sin() * 16000.0) as i16
        })
        .collect();

    let mut encoded = Vec::new();
    encoder.encode(&samples, &mut encoded);

    let mut decoded = Vec::new();
    decoder.decode(&encoded, &mut decoded);

    // Check that decoded signal has similar characteristics
    assert_eq!(decoded.len(), samples.len());

    // Calculate correlation between original and decoded
    let correlation: f64 = samples
        .iter()
        .zip(decoded.iter())
        .map(|(&a, &b)| (a as f64) * (b as f64))
        .sum();

    // Should have positive correlation (same polarity/phase)
    assert!(
        correlation > 0.0,
        "Decoded signal not correlated with original"
    );
}

#[test]
fn ulaw_has_the_standard_values() {
    assert_eq!(linear_to_ulaw(0), 0xff);
    assert_eq!(linear_to_ulaw(i16::MAX), 0x80);
    assert_eq!(linear_to_ulaw(i16::MIN), 0x00);
    assert_eq!(ulaw_to_linear(0xff), 0);
    assert_eq!(ulaw_to_linear(0x80), 32124);
    assert_eq!(ulaw_to_linear(0x00), -32124);
    assert_eq!(ulaw_to_linear(0xf0), 120);
}

#[test]
fn alaw_has_the_standard_values() {
    assert_eq!(linear_to_alaw(0), 0xd5);
    assert_eq!(linear_to_alaw(i16::MAX), 0xaa);
    assert_eq!(linear_to_alaw(i16::MIN), 0x2a);
    assert_eq!(alaw_to_linear(0xd5), 8);
    assert_eq!(alaw_to_linear(0x55), -8);
    assert_eq!(alaw_to_linear(0xaa), 32256);
    assert_eq!(alaw_to_linear(0x2a), -32256);
}

#[test]
fn every_code_survives_decoding_and_encoding() {
    for code in 0u8..=255 {
        // Both zeros of mu-law decode to 0, which has one code only.
        let expected = if code == 0x7f { 0xff } else { code };
        assert_eq!(linear_to_ulaw(ulaw_to_linear(code)), expected);
        assert_eq!(linear_to_alaw(alaw_to_linear(code)), code);
    }
}

#[test]
fn companding_is_monotonic_and_near_for_every_sample() {
    let mut last_u = i16::MIN;
    let mut last_a = i16::MIN;
    for sample in i16::MIN..=i16::MAX {
        let u = ulaw_to_linear(linear_to_ulaw(sample));
        let a = alaw_to_linear(linear_to_alaw(sample));
        assert!(u >= last_u && a >= last_a);
        assert!((sample as i32 - u as i32).abs() <= 644);
        assert!((sample as i32 - a as i32).abs() <= 512);
        last_u = u;
        last_a = a;
    }
}

#[test]
fn encoders_append_and_keep_lengths() {
    let mut out = vec![1u8, 2];
    assert_eq!(PcmaEncoder::new().encode(&[0, -1, 1], &mut out), 3);
    assert_eq!(out.len(), 5);
    assert_eq!(out[..3], [1, 2, 0xd5]);
    let mut samples = vec![5i16];
    PcmaDecoder::new().decode(&[0xd5], &mut samples);
    assert_eq!(samples, [5, 8]);
    PcmuDecoder::new().decode(&[0xff, 0x80], &mut samples);
    assert_eq!(samples, [5, 8, 0, 32124]);
}
