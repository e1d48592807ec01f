//! Audio codecs for RTP media.
//!
//! - **G.711 μ-law (PCMU)**: payload type 0, 8 kHz, widely supported
//! - **G.711 A-law (PCMA)**: payload type 8, 8 kHz, common in Europe
//! - **Opus**: payload type 111, 48 kHz; the conversion of sample rates is here,
//!   the codec itself is the caller's

pub mod g711;
pub mod g729;
pub mod opus_codec;

pub use g711::{PcmaDecoder, PcmaEncoder, PcmuDecoder, PcmuEncoder};

use vstd::prelude::*;

use crate::error::Error;
use crate::text;

verus! {

/// Supported audio codec types.
#[derive(Debug, Clone, Copy, PartialEq, Eq, Hash, Structural)]
pub enum CodecType {
    /// G.711 μ-law (PCMU), RTP payload type 0
    Pcmu,
    /// G.711 A-law (PCMA), RTP payload type 8
    Pcma,
    /// Opus, RTP payload type 111 (dynamic)
    Opus,
}

/// The codec of a payload type.
pub open spec fn codec_for(pt: u8) -> Option<CodecType> {
    if pt == 0 {
        Some(CodecType::Pcmu)
    } else if pt == 8 {
        Some(CodecType::Pcma)
    } else if pt == 111 {
        Some(CodecType::Opus)
    } else {
        None
    }
}

/// The capital of a letter of a codec name. Beside the ASCII letters, the long s
/// has an ASCII capital.
pub open spec fn capital(c: char) -> char {
    if 'a' <= c && c <= 'z' {
        (c as u32 - 32) as char
    } else if c as u32 == 0x17f {
        'S'
    } else {
        c
    }
}

/// A name in capitals.
pub open spec fn capitals(name: Seq<char>) -> Seq<char> {
    Seq::new(name.len(), |i: int| capital(name[i]))
}

impl CodecType {
    /// The payload type number.
    pub open spec fn number(self) -> u8 {
        match self {
            CodecType::Pcmu => 0,
            CodecType::Pcma => 8,
            CodecType::Opus => 111,
        }
    }

    /// Samples per second.
    pub open spec fn rate(self) -> u32 {
        match self {
            CodecType::Pcmu => 8000,
            CodecType::Pcma => 8000,
            CodecType::Opus => 48000,
        }
    }

    /// The name in SDP.
    pub open spec fn sdp_name(self) -> Seq<char> {
        match self {
            CodecType::Pcmu => "PCMU"@,
            CodecType::Pcma => "PCMA"@,
            CodecType::Opus => "opus"@,
        }
    }

    /// The RTP payload type number for this codec.
    pub fn payload_type(&self) -> (pt: u8)
        ensures
            pt == self.number(),
    {
        match self {
            CodecType::Pcmu => 0,
            CodecType::Pcma => 8,
            CodecType::Opus => 111,
        }
    }

    /// The codec name as used in SDP.
    pub fn name(&self) -> (name: &'static str)
        ensures
            name@ == self.sdp_name(),
    {
        match self {
            CodecType::Pcmu => "PCMU",
            CodecType::Pcma => "PCMA",
            CodecType::Opus => "opus",
        }
    }

    /// The clock rate (samples per second) for this codec.
    pub fn clock_rate(&self) -> (rate: u32)
        ensures
            rate == self.rate(),
    {
        match self {
            CodecType::Pcmu => 8000,
            CodecType::Pcma => 8000,
            CodecType::Opus => 48000,
        }
    }

    /// The number of channels for this codec: mono, for VoIP.
    pub fn channels(&self) -> (n: u8)
        ensures
            n == 1,
    {
        1
    }

    /// The frame duration in milliseconds.
    pub fn frame_duration_ms(&self) -> (ms: u32)
        ensures
            ms == 20,
    {
        20
    }

    /// The number of samples per frame.
    pub fn samples_per_frame(&self) -> (n: usize)
        ensures
            n == self.rate() * 20 / 1000,
    {
        (self.clock_rate() * self.frame_duration_ms() / 1000) as usize
    }

    /// Parses a codec type from an RTP payload type number.
    pub fn from_payload_type(pt: u8) -> (codec: Option<Self>)
        ensures
            codec == codec_for(pt),
    {
        match pt {
            0 => Some(CodecType::Pcmu),
            8 => Some(CodecType::Pcma),
            111 => Some(CodecType::Opus),
            _ => None,
        }
    }

    /// Parses a codec type from a codec name (case-insensitive).
    pub fn from_name(name: &str) -> (codec: Option<Self>)
        ensures
            ({
                let upper = capitals(name@);
                codec == if upper == "PCMU"@ || upper == "G711U"@ {
                    Some(CodecType::Pcmu)
                } else if upper == "PCMA"@ || upper == "G711A"@ {
                    Some(CodecType::Pcma)
                } else if upper == "OPUS"@ {
                    Some(CodecType::Opus)
                } else {
                    None
                }
            }),
    {
        let chars = text::chars_of(name);
        let mut upper: Vec<char> = Vec::new();
        for i in 0..chars.len()
            invariant
                upper@.len() == i,
                forall|j: int| 0 <= j < i ==> upper@[j] == capital(chars@[j]),
        {
            upper.push(to_capital(chars[i]));
        }
        assert(upper@ =~= capitals(name@));
        if is_text(&upper, "PCMU") || is_text(&upper, "G711U") {
            Some(CodecType::Pcmu)
        } else if is_text(&upper, "PCMA") || is_text(&upper, "G711A") {
            Some(CodecType::Pcma)
        } else if is_text(&upper, "OPUS") {
            Some(CodecType::Opus)
        } else {
            None
        }
    }
}

fn to_capital(c: char) -> (upper: char)
    ensures
        upper == capital(c),
{
    let u: u32 = c as u32;
    if 97 <= u && u <= 122 {
        (u as u8 - 32) as char
    } else if u == 0x17f {
        'S'
    } else {
        c
    }
}

fn is_text(chars: &Vec<char>, expected: &str) -> (same: bool)
    ensures
        same == (chars@ == expected@),
{
    text::same_chars(chars.as_slice(), text::chars_of(expected).as_slice())
}

/// Trait for audio encoders, from PCM (signed 16-bit samples) to a compressed
/// format. Each encoder of this library says exactly what it makes of its
/// samples. One that is linked from elsewhere leaves open what function of its state
/// and its samples that is, and may remember what it has encoded.
pub trait AudioEncoder: Send {
    /// What the encoder makes of `pcm` in its present state.
    open spec fn encoded(&self, pcm: Seq<i16>) -> Seq<u8> {
        arbitrary::<spec_fn(&Self, Seq<i16>) -> Seq<u8>>()(self, pcm)
    }

    /// How many samples of `pcm` it takes in its present state.
    open spec fn consumed(&self, pcm: Seq<i16>) -> nat {
        arbitrary::<spec_fn(&Self, Seq<i16>) -> nat>()(self, pcm)
    }

    /// The RTP payload type.
    open spec fn payload(&self) -> u8 {
        arbitrary::<spec_fn(&Self) -> u8>()(self)
    }

    /// The codec.
    open spec fn codec(&self) -> CodecType {
        arbitrary::<spec_fn(&Self) -> CodecType>()(self)
    }

    /// Whether what is encoded has no influence on what is encoded later.
    open spec fn memoryless(&self) -> bool {
        false
    }

    /// Encodes PCM samples, appending to `output`; returns the number of samples
    /// consumed.
    fn encode(&mut self, pcm: &[i16], output: &mut Vec<u8>) -> (consumed: usize)
        ensures
            final(output)@ == old(output)@ + old(self).encoded(pcm@),
            consumed == old(self).consumed(pcm@),
            final(self).memoryless() == old(self).memoryless(),
            old(self).memoryless() ==> forall|later: Seq<i16>| #[trigger]
                final(self).encoded(later) == old(self).encoded(later),
            old(self).memoryless() ==> forall|later: Seq<i16>| #[trigger]
                final(self).consumed(later) == old(self).consumed(later),
            final(self).payload() == old(self).payload(),
            final(self).codec() == old(self).codec(),
    ;

    /// The RTP payload type for this encoder.
    fn payload_type(&self) -> (payload_type: u8)
        ensures
            payload_type == self.payload(),
    ;

    /// The codec type.
    fn codec_type(&self) -> (codec: CodecType)
        ensures
            codec == self.codec(),
    ;
}

/// A boxed encoder is the encoder in the box.
impl AudioEncoder for Box<dyn AudioEncoder> {
    open spec fn encoded(&self, pcm: Seq<i16>) -> Seq<u8> {
        (**self).encoded(pcm)
    }

    open spec fn consumed(&self, pcm: Seq<i16>) -> nat {
        (**self).consumed(pcm)
    }

    open spec fn payload(&self) -> u8 {
        (**self).payload()
    }

    open spec fn codec(&self) -> CodecType {
        (**self).codec()
    }

    open spec fn memoryless(&self) -> bool {
        (**self).memoryless()
    }

    fn encode(&mut self, pcm: &[i16], output: &mut Vec<u8>) -> (consumed: usize) {
        (**self).encode(pcm, output)
    }

    fn payload_type(&self) -> (payload_type: u8) {
        (**self).payload_type()
    }

    fn codec_type(&self) -> (codec: CodecType) {
        (**self).codec_type()
    }
}

/// Trait for audio decoders, from a compressed format to PCM (signed 16-bit
/// samples). Each decoder of this library says exactly what it makes of its
/// bytes. One that is linked from elsewhere leaves open what function of its state
/// and its bytes that is, and may remember what it has decoded.
pub trait AudioDecoder: Send {
    /// What the decoder makes of `encoded` in its present state.
    open spec fn decoded(&self, encoded: Seq<u8>) -> Seq<i16> {
        arbitrary::<spec_fn(&Self, Seq<u8>) -> Seq<i16>>()(self, encoded)
    }

    /// The codec.
    open spec fn codec(&self) -> CodecType {
        arbitrary::<spec_fn(&Self) -> CodecType>()(self)
    }

    /// Whether what is decoded has no influence on what is decoded later.
    open spec fn memoryless(&self) -> bool {
        false
    }

    /// Decodes to PCM samples, appending to `output`.
    fn decode(&mut self, encoded: &[u8], output: &mut Vec<i16>)
        ensures
            final(output)@ == old(output)@ + old(self).decoded(encoded@),
            final(self).memoryless() == old(self).memoryless(),
            old(self).memoryless() ==> forall|later: Seq<u8>| #[trigger]
                final(self).decoded(later) == old(self).decoded(later),
            final(self).codec() == old(self).codec(),
    ;

    /// The codec type.
    fn codec_type(&self) -> (codec: CodecType)
        ensures
            codec == self.codec(),
    ;
}

/// A boxed decoder is the decoder in the box.
impl AudioDecoder for Box<dyn AudioDecoder> {
    open spec fn decoded(&self, encoded: Seq<u8>) -> Seq<i16> {
        (**self).decoded(encoded)
    }

    open spec fn codec(&self) -> CodecType {
        (**self).codec()
    }

    open spec fn memoryless(&self) -> bool {
        (**self).memoryless()
    }

    fn decode(&mut self, encoded: &[u8], output: &mut Vec<i16>) {
        (**self).decode(encoded, output)
    }

    fn codec_type(&self) -> (codec: CodecType) {
        (**self).codec_type()
    }
}

/// Creates an encoder for the specified codec type. This library holds the G.711
/// encoders; the Opus encoder is linked by the application.
pub fn create_encoder(codec: CodecType) -> (result: Result<Box<dyn AudioEncoder>, Error>)
    ensures
        match result {
            Ok(encoder) => {
                &&& codec != CodecType::Opus
                &&& encoder.codec() == codec
                &&& encoder.memoryless()
                &&& encoder.payload() == codec.number()
                &&& forall|pcm: Seq<i16>| #[trigger]
                    encoder.encoded(pcm) == if codec == CodecType::Pcmu {
                        g711::ulaw_codes(pcm)
                    } else {
                        g711::alaw_codes(pcm)
                    }
                &&& forall|pcm: Seq<i16>| #[trigger] encoder.consumed(pcm) == pcm.len()
            },
            Err(e) => codec == CodecType::Opus && e is Codec,
        },
{
    match codec {
        CodecType::Pcmu => Ok(Box::new(PcmuEncoder::new())),
        CodecType::Pcma => Ok(Box::new(PcmaEncoder::new())),
        CodecType::Opus => Err(Error::codec("Opus encoder init: not part of this library")),
    }
}

/// Creates a decoder for the specified codec type. This library holds the G.711
/// decoders; the Opus decoder is linked by the application.
pub fn create_decoder(codec: CodecType) -> (result: Result<Box<dyn AudioDecoder>, Error>)
    ensures
        match result {
            Ok(decoder) => {
                &&& codec != CodecType::Opus
                &&& decoder.codec() == codec
                &&& decoder.memoryless()
                &&& forall|data: Seq<u8>| #[trigger]
                    decoder.decoded(data) == if codec == CodecType::Pcmu {
                        g711::ulaw_samples(data)
                    } else {
                        g711::alaw_samples(data)
                    }
            },
            Err(e) => codec == CodecType::Opus && e is Codec,
        },
{
    match codec {
        CodecType::Pcmu => Ok(Box::new(PcmuDecoder::new())),
        CodecType::Pcma => Ok(Box::new(PcmaDecoder::new())),
        CodecType::Opus => Err(Error::codec("Opus decoder init: not part of this library")),
    }
}

// ---- negotiation ----
/// The codec of the first word that is a supported payload type.
pub open spec fn first_supported(words: Seq<Seq<char>>) -> Option<CodecType>
    decreases words.len(),
{
    if words.len() == 0 {
        None
    } else {
        match text::octet_of(words[0]) {
            Some(pt) => match codec_for(pt) {
                Some(codec) => Some(codec),
                None => first_supported(words.skip(1)),
            },
            None => first_supported(words.skip(1)),
        }
    }
}

/// The codec that a line of SDP offers: for a line about audio, the first
/// supported payload type behind port and profile.
pub open spec fn line_codec(line: Seq<char>) -> Option<CodecType> {
    let words = text::words(line);
    if text::has_at(line, 0, "m=audio "@) && words.len() > 3 {
        first_supported(words.skip(3))
    } else {
        None
    }
}

/// The codec of the first line that offers one.
pub open spec fn first_line_codec(lines: Seq<Seq<char>>) -> Option<CodecType>
    decreases lines.len(),
{
    if lines.len() == 0 {
        None
    } else {
        match line_codec(text::trimmed(lines[0])) {
            Some(codec) => Some(codec),
            None => first_line_codec(lines.skip(1)),
        }
    }
}

/// The codec that a line of SDP offers.
fn codec_of_line(line: &[char]) -> (codec: Option<CodecType>)
    ensures
        codec == line_codec(line@),
{
    let prefix = text::chars_of("m=audio ");
    if !text::continues_with(line, 0, prefix.as_slice()) {
        return None;
    }
    let words = text::split_words(line);
    let ghost all = text::words(line@);
    let mut i: usize = 3;
    if words.len() <= 3 {
        return None;
    }
    while i < words.len()
        invariant
            text::views(words@) == all,
            all == text::words(line@),
            3 <= i <= words@.len(),
            text::has_at(line@, 0, "m=audio "@),
            first_supported(all.skip(3)) == first_supported(all.skip(i as int)),
        decreases words@.len() - i,
    {
        assert(all.skip(i as int)[0] == words@[i as int]@);
        assert(all.skip(i as int).skip(1) =~= all.skip(i + 1));
        match text::parse_octet(words[i].as_slice()) {
            Some(pt) => match CodecType::from_payload_type(pt) {
                Some(codec) => {
                    return Some(codec);
                },
                None => {},
            },
            None => {},
        }
        i = i + 1;
    }
    None
}

/// Negotiates a codec from an SDP answer: the first mutually supported codec of
/// the `m=audio` line, PCMU where there is none.
pub fn negotiate_codec(sdp: &str) -> (codec: CodecType)
    ensures
        codec == match first_line_codec(text::lines(sdp@)) {
            Some(c) => c,
            None => CodecType::Pcmu,
        },
{
    let chars = text::chars_of(sdp);
    let lines = text::split_lines(chars.as_slice());
    let ghost all = text::lines(sdp@);
    assert(all.skip(0) =~= all);
    for i in 0..lines.len()
        invariant
            text::views(lines@) == all,
            all == text::lines(sdp@),
            first_line_codec(all) == first_line_codec(all.skip(i as int)),
    {
        assert(all.skip(i as int)[0] == lines@[i as int]@);
        assert(all.skip(i as int).skip(1) =~= all.skip(i + 1));
        let line = text::trim(lines[i].as_slice());
        match codec_of_line(line.as_slice()) {
            Some(codec) => {
                return codec;
            },
            None => {},
        }
    }
    CodecType::Pcmu
}

/// Payload type and codec determine each other.
pub proof fn law_payload_types_round_trip(codec: CodecType, pt: u8)
    ensures
        codec_for(codec.number()) == Some(codec),
        codec_for(pt) matches Some(c) ==> c.number() == pt,
{
}

/// The numbers and names of the codecs.
pub proof fn law_codec_table(pt: u8)
    ensures
        CodecType::Pcmu.number() == 0 && CodecType::Pcma.number() == 8 && CodecType::Opus.number()
            == 111,
        CodecType::Pcmu.rate() == 8000 && CodecType::Pcma.rate() == 8000 && CodecType::Opus.rate()
            == 48000,
        CodecType::Pcmu.sdp_name() == "PCMU"@,
        CodecType::Pcma.sdp_name() == "PCMA"@,
        CodecType::Opus.sdp_name() == "opus"@,
        codec_for(0) == Some(CodecType::Pcmu),
        codec_for(8) == Some(CodecType::Pcma),
        codec_for(111) == Some(CodecType::Opus),
        codec_for(pt) is Some <==> pt == 0 || pt == 8 || pt == 111,
{
}

/// Small letters count as capitals: the two lie 32 apart. The long s counts as an S,
/// and every other character as itself.
pub proof fn law_case_does_not_matter(c: char, name: Seq<char>, i: int)
    ensures
        'a' <= c <= 'z' ==> capital(c) as u32 == c as u32 - 32,
        c as u32 == 0x17f ==> capital(c) == 'S',
        !('a' <= c <= 'z') && c as u32 != 0x17f ==> capital(c) == c,
        capitals(name).len() == name.len(),
        0 <= i < name.len() ==> capitals(name)[i] == capital(name[i]),
{
}

/// The first supported payload type of a line decides, whatever unsupported ones or
/// other words stand before it, and whatever stands behind it.
pub proof fn law_first_supported_type_decides(
    before: Seq<Seq<char>>,
    word: Seq<char>,
    after: Seq<Seq<char>>,
    codec: CodecType,
)
    requires
        forall|i: int|
            0 <= i < before.len() ==> match text::octet_of(#[trigger] before[i]) {
                Some(pt) => pt != 0 && pt != 8 && pt != 111,
                None => true,
            },
        text::octet_of(word) == Some(codec.number()),
    ensures
        first_supported(before + seq![word] + after) == Some(codec),
        first_supported(before) is None,
    decreases before.len(),
{
    let all = before + seq![word] + after;
    if before.len() == 0 {
        assert(all[0] == word);
    } else {
        assert(all[0] == before[0]);
        assert(all.skip(1) =~= before.skip(1) + seq![word] + after);
        law_first_supported_type_decides(before.skip(1), word, after, codec);
    }
}

/// Of a description the first audio line that offers a supported codec decides: lines
/// about anything else are passed over, and so are audio lines that offer none.
pub proof fn law_first_audio_line_decides(
    before: Seq<Seq<char>>,
    line: Seq<char>,
    after: Seq<Seq<char>>,
    codec: CodecType,
)
    requires
        forall|i: int|
            0 <= i < before.len() ==> {
                let l = text::trimmed(#[trigger] before[i]);
                !text::has_at(l, 0, "m=audio "@) || text::words(l).len() <= 3 || first_supported(
                    text::words(l).skip(3),
                ) is None
            },
        text::has_at(text::trimmed(line), 0, "m=audio "@),
        text::words(text::trimmed(line)).len() > 3,
        first_supported(text::words(text::trimmed(line)).skip(3)) == Some(codec),
    ensures
        first_line_codec(before + seq![line] + after) == Some(codec),
        first_line_codec(before) is None,
    decreases before.len(),
{
    let all = before + seq![line] + after;
    if before.len() == 0 {
        assert(all[0] == line);
    } else {
        assert(all[0] == before[0]);
        assert(all.skip(1) =~= before.skip(1) + seq![line] + after);
        law_first_audio_line_decides(before.skip(1), line, after, codec);
    }
}

} // verus!
