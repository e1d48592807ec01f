use rtp_engine::codec::{
    create_decoder, create_encoder, negotiate_codec, AudioDecoder, AudioEncoder,
};
use rtp_engine::{CodecType, Error};
use std::collections::HashSet;

#[test]
fn mod_test_codec_type_properties() {
    assert_eq!(CodecType::Pcmu.payload_type(), 0);
    assert_eq!(CodecType::Pcma.payload_type(), 8);
    assert_eq!(CodecType::Pcmu.clock_rate(), 8000);
    assert_eq!(CodecType::Pcmu.samples_per_frame(), 160);
}

#[test]
fn test_codec_type_from_payload_type() {
    assert_eq!(CodecType::from_payload_type(0), Some(CodecType::Pcmu));
    assert_eq!(CodecType::from_payload_type(8), Some(CodecType::Pcma));
    assert_eq!(CodecType::from_payload_type(99), None);
}

#[test]
fn test_codec_type_from_name() {
    assert_eq!(CodecType::from_name("PCMU"), Some(CodecType::Pcmu));
    assert_eq!(CodecType::from_name("pcma"), Some(CodecType::Pcma));
    assert_eq!(CodecType::from_name("unknown"), None);
}

#[test]
fn test_negotiate_codec() {
    let sdp = "v=0\r\n\
               m=audio 5004 RTP/AVP 0 8\r\n";
    assert_eq!(negotiate_codec(sdp), CodecType::Pcmu);

    let sdp2 = "v=0\r\n\
                m=audio 5004 RTP/AVP 8 0\r\n";
    assert_eq!(negotiate_codec(sdp2), CodecType::Pcma);
}

#[test]
fn test_negotiate_codec_fallback() {
    // No recognized codecs - should fall back to PCMU
    let sdp = "v=0\r\nm=audio 5004 RTP/AVP 96 97 98\r\n";
    assert_eq!(negotiate_codec(sdp), CodecType::Pcmu);
}

#[test]
fn test_negotiate_codec_no_audio() {
    let sdp = "v=0\r\nm=video 5004 RTP/AVP 96\r\n";
    assert_eq!(negotiate_codec(sdp), CodecType::Pcmu); // fallback
}

#[test]
fn test_codec_type_display() {
    assert_eq!(format!("{}", CodecType::Pcmu.name()), "PCMU");
    assert_eq!(format!("{}", CodecType::Pcma.name()), "PCMA");
}

#[test]
fn test_codec_type_name() {
    assert_eq!(CodecType::Pcmu.name(), "PCMU");
    assert_eq!(CodecType::Pcma.name(), "PCMA");
}

#[test]
fn test_codec_type_channels() {
    assert_eq!(CodecType::Pcmu.channels(), 1);
    assert_eq!(CodecType::Pcma.channels(), 1);
}

#[test]
fn test_codec_type_frame_duration() {
    assert_eq!(CodecType::Pcmu.frame_duration_ms(), 20);
    assert_eq!(CodecType::Pcma.frame_duration_ms(), 20);
}

#[test]
fn test_codec_from_name_aliases() {
    assert_eq!(CodecType::from_name("G711U"), Some(CodecType::Pcmu));
    assert_eq!(CodecType::from_name("G711A"), Some(CodecType::Pcma));
    assert_eq!(CodecType::from_name("g711u"), Some(CodecType::Pcmu));
}

#[test]
fn test_create_encoder() {
    let encoder = create_encoder(CodecType::Pcmu).unwrap();
    assert_eq!(encoder.payload_type(), 0);
    assert_eq!(encoder.codec_type(), CodecType::Pcmu);

    let encoder = create_encoder(CodecType::Pcma).unwrap();
    assert_eq!(encoder.payload_type(), 8);
    assert_eq!(encoder.codec_type(), CodecType::Pcma);
}

#[test]
fn test_create_decoder() {
    let decoder = create_decoder(CodecType::Pcmu).unwrap();
    assert_eq!(decoder.codec_type(), CodecType::Pcmu);

    let decoder = create_decoder(CodecType::Pcma).unwrap();
    assert_eq!(decoder.codec_type(), CodecType::Pcma);
}

#[test]
fn test_encoder_empty_input() {
    let mut encoder = create_encoder(CodecType::Pcmu).unwrap();
    let mut output = Vec::new();
    let consumed = encoder.encode(&[], &mut output);
    assert_eq!(consumed, 0);
    assert!(output.is_empty());
}

#[test]
fn test_decoder_empty_input() {
    let mut decoder = create_decoder(CodecType::Pcmu).unwrap();
    let mut output = Vec::new();
    decoder.decode(&[], &mut output);
    assert!(output.is_empty());
}

#[test]
fn test_codec_roundtrip_various_lengths() {
    let mut encoder = create_encoder(CodecType::Pcmu).unwrap();
    let mut decoder = create_decoder(CodecType::Pcmu).unwrap();

    for len in [1, 10, 80, 160, 320, 480] {
        let input: Vec<i16> = (0..len).map(|i| (i * 100) as i16).collect();
        let mut encoded = Vec::new();
        let consumed = encoder.encode(&input, &mut encoded);
        assert_eq!(consumed, len);
        assert_eq!(encoded.len(), len);

        let mut decoded = Vec::new();
        decoder.decode(&encoded, &mut decoded);
        assert_eq!(decoded.len(), len);
    }
}

#[test]
fn test_codec_type_hash_eq() {
    let mut set = HashSet::new();
    set.insert(CodecType::Pcmu);
    set.insert(CodecType::Pcma);
    set.insert(CodecType::Pcmu); // duplicate

    assert_eq!(set.len(), 2);
    assert!(set.contains(&CodecType::Pcmu));
    assert!(set.contains(&CodecType::Pcma));
}

#[test]
fn test_codec_type_clone_copy() {
    let codec = CodecType::Pcmu;
    let copied = codec; // Copy trait
    let cloned = copied; // Also copy

    assert_eq!(codec, cloned);
    assert_eq!(codec, copied);
}

#[test]
fn the_opus_codec_has_its_properties_but_no_coder_here() {
    assert_eq!(CodecType::Opus.payload_type(), 111);
    assert_eq!(CodecType::Opus.name(), "opus");
    assert_eq!(CodecType::Opus.clock_rate(), 48000);
    assert_eq!(CodecType::Opus.channels(), 1);
    assert_eq!(CodecType::Opus.frame_duration_ms(), 20);
    assert_eq!(CodecType::Opus.samples_per_frame(), 960);
    assert!(matches!(create_encoder(CodecType::Opus), Err(Error::Codec(_))));
    assert!(matches!(create_decoder(CodecType::Opus), Err(Error::Codec(_))));
}

#[test]
fn payload_types_lead_back_to_their_codec() {
    for codec in [CodecType::Pcmu, CodecType::Pcma, CodecType::Opus] {
        assert_eq!(CodecType::from_payload_type(codec.payload_type()), Some(codec));
        assert_eq!(CodecType::from_name(codec.name()), Some(codec));
    }
}

#[test]
fn names_are_compared_as_upper_case() {
    // The long s has a capital S, as `str::to_uppercase` knows.
    assert_eq!("opu\u{17f}".to_uppercase(), "OPUS");
    assert_eq!(CodecType::from_name("opu\u{17f}"), Some(CodecType::Opus));
    assert_eq!(CodecType::from_name("OpUs"), Some(CodecType::Opus));
    assert_eq!(CodecType::from_name(""), None);
    assert_eq!(CodecType::from_name("PCMUU"), None);
    // No other character has a capital that a codec name holds.
    for c in (0..=0x10ffff).filter_map(char::from_u32) {
        let name: String = format!("pcm{c}");
        let expected = match name.to_uppercase().as_str() {
            "PCMU" => Some(CodecType::Pcmu),
            "PCMA" => Some(CodecType::Pcma),
            _ => None,
        };
        assert_eq!(CodecType::from_name(&name), expected, "{name}");
        let name: String = format!("opu{c}");
        let expected = if name.to_uppercase() == "OPUS" {
            Some(CodecType::Opus)
        } else {
            None
        };
        assert_eq!(CodecType::from_name(&name), expected, "{name}");
    }
}

#[test]
fn negotiation_looks_at_the_audio_line_alone() {
    assert_eq!(negotiate_codec(""), CodecType::Pcmu);
    assert_eq!(negotiate_codec("m=audio 5004 RTP/AVP 96 8"), CodecType::Pcma);
    assert_eq!(negotiate_codec("m=audio 5004 RTP/AVP 111 0\n"), CodecType::Opus);
    assert_eq!(
        negotiate_codec("m=video 1 RTP/AVP 8\r\nm=audio 5004 RTP/AVP 0\r\n"),
        CodecType::Pcmu
    );
    assert_eq!(negotiate_codec("m=audio 8 8"), CodecType::Pcmu);
    assert_eq!(negotiate_codec("m=audio 5004 RTP/AVP x 300 +8"), CodecType::Pcma);
}

#[test]
fn boxed_coders_are_the_coders_in_the_box() {
    let mut encoder = create_encoder(CodecType::Pcma).unwrap();
    let mut out = Vec::new();
    assert_eq!(AudioEncoder::encode(&mut encoder, &[0, 0], &mut out), 2);
    assert_eq!(out, [0xd5, 0xd5]);
    assert_eq!(AudioEncoder::payload_type(&encoder), 8);
    let mut decoder = create_decoder(CodecType::Pcma).unwrap();
    let mut samples = Vec::new();
    AudioDecoder::decode(&mut decoder, &out, &mut samples);
    assert_eq!(samples, [8, 8]);
    assert_eq!(AudioDecoder::codec_type(&decoder), CodecType::Pcma);
}
