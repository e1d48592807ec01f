//! G.711 codecs (μ-law and A-law): 64 kbps audio at 8 kHz with 8-bit samples.

use vstd::prelude::*;

use super::{AudioDecoder, AudioEncoder, CodecType};

verus! {

/// `x` doubled `e` times, for an exponent below eight.
#[verifier::opaque]
pub open spec fn shl(x: int, e: int) -> int {
    if e <= 0 {
        x
    } else if e == 1 {
        x * 2
    } else if e == 2 {
        x * 4
    } else if e == 3 {
        x * 8
    } else if e == 4 {
        x * 16
    } else if e == 5 {
        x * 32
    } else if e == 6 {
        x * 64
    } else {
        x * 128
    }
}

/// `x` halved `e` times, rounded down, for an exponent below eight.
#[verifier::opaque]
pub open spec fn shr(x: int, e: int) -> int {
    if e <= 0 {
        x
    } else if e == 1 {
        x / 2
    } else if e == 2 {
        x / 4
    } else if e == 3 {
        x / 8
    } else if e == 4 {
        x / 16
    } else if e == 5 {
        x / 32
    } else if e == 6 {
        x / 64
    } else {
        x / 128
    }
}

/// The magnitude of a sample; that of the lowest one is cut to 15 bits.
pub open spec fn magnitude(sample: i16) -> int {
    if sample >= 0 {
        sample as int
    } else if sample == i16::MIN {
        0x7fff
    } else {
        -sample
    }
}

// ---- μ-law ----
/// The magnitude that is encoded: moved up by the bias, and cut to 15 bits.
pub open spec fn ulaw_biased(sample: i16) -> int {
    if magnitude(sample) + 0x84 > 0x7fff {
        0x7fff
    } else {
        magnitude(sample) + 0x84
    }
}

/// The segment of a biased magnitude: the position of its highest bit above bit 7.
pub open spec fn ulaw_segment(biased: int) -> int {
    if biased >= 0x4000 {
        7
    } else if biased >= 0x2000 {
        6
    } else if biased >= 0x1000 {
        5
    } else if biased >= 0x800 {
        4
    } else if biased >= 0x400 {
        3
    } else if biased >= 0x200 {
        2
    } else if biased >= 0x100 {
        1
    } else {
        0
    }
}

/// The μ-law code of a sample: sign, segment and the four bits below the highest
/// one, all inverted.
pub open spec fn ulaw_code(sample: i16) -> u8 {
    let biased = ulaw_biased(sample);
    let e = ulaw_segment(biased);
    (255 - ((if sample < 0 {
        128int
    } else {
        0
    }) + e * 16 + shr(biased, e) / 8 % 16)) as u8
}

/// The magnitude that a code stands for, `rest` being the code inverted and
/// without its sign: the middle of its interval.
pub open spec fn ulaw_level(rest: int) -> int {
    shl(rest % 16 * 8 + 0x84, rest / 16) - 0x84
}

/// The sample that a μ-law code stands for.
pub open spec fn ulaw_sample(code: u8) -> i16 {
    let inverted = 255 - code;
    if inverted >= 128 {
        (-ulaw_level(inverted - 128)) as i16
    } else {
        ulaw_level(inverted) as i16
    }
}

// ---- A-law ----
/// The segment of a magnitude of 12 bits.
pub open spec fn alaw_segment(m: int) -> int {
    if m <= 0x1f {
        0
    } else if m <= 0x3f {
        1
    } else if m <= 0x7f {
        2
    } else if m <= 0xff {
        3
    } else if m <= 0x1ff {
        4
    } else if m <= 0x3ff {
        5
    } else if m <= 0x7ff {
        6
    } else {
        7
    }
}

/// Segment and the four bits below the highest one, of a magnitude of 12 bits.
pub open spec fn alaw_value(m: int) -> int {
    let seg = alaw_segment(m);
    if seg < 2 {
        m / 2
    } else {
        seg * 16 + shr(m, seg) % 16
    }
}

/// The A-law code of a sample: sign, segment and mantissa, every other bit
/// inverted.
pub open spec fn alaw_code(sample: i16) -> u8 {
    let value = alaw_value(magnitude(sample) / 8) as u8;
    if sample >= 0 {
        value ^ 0xd5
    } else {
        value ^ 0x55
    }
}

/// The magnitude that segment and mantissa stand for: the middle of their
/// interval.
pub open spec fn alaw_level(value: int) -> int {
    let seg = value / 16;
    let m = value % 16 * 2 + 1;
    if seg == 0 {
        m * 8
    } else {
        shl((m + 32) * 4, seg)
    }
}

/// The sample that an A-law code stands for.
pub open spec fn alaw_sample(code: u8) -> i16 {
    let bits = code ^ 0x55;
    if bits >= 128 {
        alaw_level(bits - 128) as i16
    } else {
        (-alaw_level(bits as int)) as i16
    }
}

proof fn lemma_ulaw_interval(biased: int)
    requires
        0x84 <= biased <= 0x7fff,
    ensures
        ({
            let e = ulaw_segment(biased);
            let m = shr(biased, e) / 8 % 16;
            &&& 0 <= e <= 7
            &&& 0 <= m < 16
            &&& shl((16 + m) * 8, e) <= biased < shl((17 + m) * 8, e)
        }),
{
    reveal(shl);
    reveal(shr);
}

proof fn lemma_ulaw_level(rest: int)
    requires
        0 <= rest < 128,
    ensures
        0 <= ulaw_level(rest) <= 32124,
        ulaw_level(rest) == 0 <==> rest == 0,
        ulaw_segment(ulaw_level(rest) + 0x84) == rest / 16,
        shr(ulaw_level(rest) + 0x84, rest / 16) / 8 % 16 == rest % 16,
{
    reveal(shl);
    reveal(shr);
}

proof fn lemma_alaw_interval(m: int)
    requires
        0 <= m <= 0xfff,
    ensures
        ({
            let v = alaw_value(m);
            &&& 0 <= v < 128
            &&& v / 16 == alaw_segment(m)
            &&& v < 16 ==> v * 2 <= m <= v * 2 + 1
            &&& v >= 16 ==> shl(16 + v % 16, v / 16) <= m < shl(17 + v % 16, v / 16)
        }),
{
    reveal(shl);
    reveal(shr);
}

#[verifier::spinoff_prover]
#[verifier::rlimit(40)]
proof fn lemma_alaw_level(v: int)
    requires
        0 <= v < 128,
    ensures
        8 <= alaw_level(v) <= 32256,
        alaw_value(alaw_level(v) / 8) == v,
{
    reveal(shl);
    reveal(shr);
}

/// Converts a 16-bit linear PCM sample to 8-bit μ-law.
pub fn linear_to_ulaw(sample: i16) -> (code: u8)
    ensures
        code == ulaw_code(sample),
{
    let sign: u8 = if sample < 0 {
        128
    } else {
        0
    };
    let magnitude: i32 = if sample >= 0 {
        sample as i32
    } else if sample == i16::MIN {
        0x7fff
    } else {
        -(sample as i32)
    };
    let biased: i32 = if magnitude + 0x84 > 0x7fff {
        0x7fff
    } else {
        magnitude + 0x84
    };
    proof {
        reveal(shl);
        reveal(shr);
    }
    let mut exponent: u8 = 7;
    let mut bound: i32 = 0x4000;
    let mut shifted: i32 = biased / 128;
    while exponent > 0 && biased < bound
        invariant
            0x84 <= biased <= 0x7fff,
            exponent <= 7,
            bound == shl(0x80, exponent as int),
            biased < bound * 2,
            shifted == shr(biased as int, exponent as int),
        decreases exponent,
    {
        proof {
            reveal(shl);
            reveal(shr);
        }
        exponent = exponent - 1;
        bound = bound / 2;
        shifted = if exponent == 6 {
            biased / 64
        } else if exponent == 5 {
            biased / 32
        } else if exponent == 4 {
            biased / 16
        } else if exponent == 3 {
            biased / 8
        } else if exponent == 2 {
            biased / 4
        } else if exponent == 1 {
            biased / 2
        } else {
            biased
        };
    }
    assert(exponent == ulaw_segment(biased as int));
    proof {
        lemma_ulaw_interval(biased as int);
    }
    let mantissa: u8 = (shifted / 8 % 16) as u8;
    255 - (sign + exponent * 16 + mantissa)
}

/// `x` doubled `e` times.
fn double(x: i32, e: u8) -> (y: i32)
    requires
        0 <= x <= 0xff_ffff,
        e < 8,
    ensures
        y == shl(x as int, e as int),
{
    proof {
        reveal(shl);
    }
    match e {
        0 => x,
        1 => x * 2,
        2 => x * 4,
        3 => x * 8,
        4 => x * 16,
        5 => x * 32,
        6 => x * 64,
        _ => x * 128,
    }
}

/// `x` halved `e` times.
fn halve(x: i32, e: u8) -> (y: i32)
    requires
        0 <= x,
        e < 8,
    ensures
        y == shr(x as int, e as int),
        0 <= y <= x,
{
    proof {
        reveal(shr);
    }
    match e {
        0 => x,
        1 => x / 2,
        2 => x / 4,
        3 => x / 8,
        4 => x / 16,
        5 => x / 32,
        6 => x / 64,
        _ => x / 128,
    }
}

/// Converts an 8-bit μ-law sample to 16-bit linear PCM.
pub fn ulaw_to_linear(ulaw: u8) -> (sample: i16)
    ensures
        sample == ulaw_sample(ulaw),
{
    let inverted: u8 = 255 - ulaw;
    let rest: u8 = inverted % 128;
    proof {
        lemma_ulaw_level(rest as int);
    }
    let level: i32 = double((rest % 16) as i32 * 8 + 0x84, rest / 16) - 0x84;
    assert(level == ulaw_level(rest as int));
    if inverted >= 128 {
        (-level) as i16
    } else {
        level as i16
    }
}

/// Converts a 16-bit linear PCM sample to 8-bit A-law.
pub fn linear_to_alaw(sample: i16) -> (code: u8)
    ensures
        code == alaw_code(sample),
{
    let magnitude: i32 = if sample >= 0 {
        sample as i32
    } else if sample == i16::MIN {
        0x7fff
    } else {
        -(sample as i32)
    };
    let m: i32 = magnitude / 8;
    proof {
        reveal(shl);
    }
    let mut seg: u8 = 0;
    let mut end: i32 = 0x1f;
    while seg < 7 && m > end
        invariant
            0 <= m <= 0xfff,
            seg <= 7,
            end == shl(0x20, seg as int) - 1,
            seg > 0 ==> m > shl(0x20, seg - 1) - 1,
        decreases 7 - seg,
    {
        proof {
            reveal(shl);
        }
        seg = seg + 1;
        end = end * 2 + 1;
    }
    assert(seg == alaw_segment(m as int));
    proof {
        lemma_alaw_interval(m as int);
    }
    let value: u8 = if seg < 2 {
        (m / 2) as u8
    } else {
        seg * 16 + (halve(m, seg) % 16) as u8
    };
    if sample >= 0 {
        value ^ 0xd5
    } else {
        value ^ 0x55
    }
}

/// Converts an 8-bit A-law sample to 16-bit linear PCM.
pub fn alaw_to_linear(alaw: u8) -> (sample: i16)
    ensures
        sample == alaw_sample(alaw),
{
    let bits: u8 = alaw ^ 0x55;
    let value: u8 = bits % 128;
    proof {
        lemma_alaw_level(value as int);
    }
    let seg: u8 = value / 16;
    let m: i32 = (value % 16) as i32 * 2 + 1;
    let level: i32 = if seg == 0 {
        m * 8
    } else {
        double((m + 32) * 4, seg)
    };
    assert(level == alaw_level(value as int));
    if bits >= 128 {
        level as i16
    } else {
        (-level) as i16
    }
}

// ---- encoders and decoders ----
/// The μ-law codes of `pcm`.
pub open spec fn ulaw_codes(pcm: Seq<i16>) -> Seq<u8> {
    Seq::new(pcm.len(), |i: int| ulaw_code(pcm[i]))
}

/// The samples of μ-law `codes`.
pub open spec fn ulaw_samples(codes: Seq<u8>) -> Seq<i16> {
    Seq::new(codes.len(), |i: int| ulaw_sample(codes[i]))
}

/// The A-law codes of `pcm`.
pub open spec fn alaw_codes(pcm: Seq<i16>) -> Seq<u8> {
    Seq::new(pcm.len(), |i: int| alaw_code(pcm[i]))
}

/// The samples of A-law `codes`.
pub open spec fn alaw_samples(codes: Seq<u8>) -> Seq<i16> {
    Seq::new(codes.len(), |i: int| alaw_sample(codes[i]))
}

/// G.711 μ-law (PCMU) encoder.
#[derive(Debug, Default)]
pub struct PcmuEncoder;

impl PcmuEncoder {
    /// Creates a new PCMU encoder.
    pub fn new() -> (encoder: Self)
        ensures
            encoder.codec() == CodecType::Pcmu,
    {
        PcmuEncoder
    }
}

impl AudioEncoder for PcmuEncoder {
    open spec fn encoded(&self, pcm: Seq<i16>) -> Seq<u8> {
        ulaw_codes(pcm)
    }

    open spec fn consumed(&self, pcm: Seq<i16>) -> nat {
        pcm.len()
    }

    open spec fn payload(&self) -> u8 {
        0
    }

    open spec fn codec(&self) -> CodecType {
        CodecType::Pcmu
    }

    open spec fn memoryless(&self) -> bool {
        true
    }

    fn encode(&mut self, pcm: &[i16], output: &mut Vec<u8>) -> (consumed: usize) {
        let ghost before = output@;
        for i in 0..pcm.len()
            invariant
                output@ == before + ulaw_codes(pcm@).take(i as int),
        {
            output.push(linear_to_ulaw(pcm[i]));
            assert(output@ =~= before + ulaw_codes(pcm@).take(i + 1));
        }
        assert(ulaw_codes(pcm@).take(pcm@.len() as int) =~= ulaw_codes(pcm@));
        pcm.len()
    }

    fn payload_type(&self) -> (payload_type: u8) {
        0
    }

    fn codec_type(&self) -> (codec: CodecType) {
        CodecType::Pcmu
    }
}

/// G.711 μ-law (PCMU) decoder.
#[derive(Debug, Default)]
pub struct PcmuDecoder;

impl PcmuDecoder {
    /// Creates a new PCMU decoder.
    pub fn new() -> (decoder: Self)
        ensures
            decoder.codec() == CodecType::Pcmu,
    {
        PcmuDecoder
    }
}

impl AudioDecoder for PcmuDecoder {
    open spec fn decoded(&self, encoded: Seq<u8>) -> Seq<i16> {
        ulaw_samples(encoded)
    }

    open spec fn codec(&self) -> CodecType {
        CodecType::Pcmu
    }

    open spec fn memoryless(&self) -> bool {
        true
    }

    fn decode(&mut self, encoded: &[u8], output: &mut Vec<i16>) {
        let ghost before = output@;
        for i in 0..encoded.len()
            invariant
                output@ == before + ulaw_samples(encoded@).take(i as int),
        {
            output.push(ulaw_to_linear(encoded[i]));
            assert(output@ =~= before + ulaw_samples(encoded@).take(i + 1));
        }
        assert(ulaw_samples(encoded@).take(encoded@.len() as int) =~= ulaw_samples(encoded@));
    }

    fn codec_type(&self) -> (codec: CodecType) {
        CodecType::Pcmu
    }
}

/// G.711 A-law (PCMA) encoder.
#[derive(Debug, Default)]
pub struct PcmaEncoder;

impl PcmaEncoder {
    /// Creates a new PCMA encoder.
    pub fn new() -> (encoder: Self)
        ensures
            encoder.codec() == CodecType::Pcma,
    {
        PcmaEncoder
    }
}

impl AudioEncoder for PcmaEncoder {
    open spec fn encoded(&self, pcm: Seq<i16>) -> Seq<u8> {
        alaw_codes(pcm)
    }

    open spec fn consumed(&self, pcm: Seq<i16>) -> nat {
        pcm.len()
    }

    open spec fn payload(&self) -> u8 {
        8
    }

    open spec fn codec(&self) -> CodecType {
        CodecType::Pcma
    }

    open spec fn memoryless(&self) -> bool {
        true
    }

    fn encode(&mut self, pcm: &[i16], output: &mut Vec<u8>) -> (consumed: usize) {
        let ghost before = output@;
        for i in 0..pcm.len()
            invariant
                output@ == before + alaw_codes(pcm@).take(i as int),
        {
            output.push(linear_to_alaw(pcm[i]));
            assert(output@ =~= before + alaw_codes(pcm@).take(i + 1));
        }
        assert(alaw_codes(pcm@).take(pcm@.len() as int) =~= alaw_codes(pcm@));
        pcm.len()
    }

    fn payload_type(&self) -> (payload_type: u8) {
        8
    }

    fn codec_type(&self) -> (codec: CodecType) {
        CodecType::Pcma
    }
}

/// G.711 A-law (PCMA) decoder.
#[derive(Debug, Default)]
pub struct PcmaDecoder;

impl PcmaDecoder {
    /// Creates a new PCMA decoder.
    pub fn new() -> (decoder: Self)
        ensures
            decoder.codec() == CodecType::Pcma,
    {
        PcmaDecoder
    }
}

impl AudioDecoder for PcmaDecoder {
    open spec fn decoded(&self, encoded: Seq<u8>) -> Seq<i16> {
        alaw_samples(encoded)
    }

    open spec fn codec(&self) -> CodecType {
        CodecType::Pcma
    }

    open spec fn memoryless(&self) -> bool {
        true
    }

    fn decode(&mut self, encoded: &[u8], output: &mut Vec<i16>) {
        let ghost before = output@;
        for i in 0..encoded.len()
            invariant
                output@ == before + alaw_samples(encoded@).take(i as int),
        {
            output.push(alaw_to_linear(encoded[i]));
            assert(output@ =~= before + alaw_samples(encoded@).take(i + 1));
        }
        assert(alaw_samples(encoded@).take(encoded@.len() as int) =~= alaw_samples(encoded@));
    }

    fn codec_type(&self) -> (codec: CodecType) {
        CodecType::Pcma
    }
}

// ---- what holds of the codecs ----
/// μ-law gives a sample back to within half an interval of its segment; what lies
/// beyond the last interval is cut to that.
pub proof fn law_ulaw_error_is_bounded(sample: i16)
    ensures
        ({
            let decoded = ulaw_sample(ulaw_code(sample));
            let half = shl(4, ulaw_segment(ulaw_biased(sample)));
            &&& magnitude(sample) <= 32635 ==> -half <= decoded - sample <= half
            &&& -644 <= decoded - sample <= 644
            &&& sample >= 0 ==> decoded >= 0
            &&& sample < 0 ==> decoded <= 0
        }),
{
    reveal(shl);
    let biased = ulaw_biased(sample);
    let e = ulaw_segment(biased);
    let m = shr(biased, e) / 8 % 16;
    lemma_ulaw_interval(biased);
    let rest = e * 16 + m;
    assert(rest / 16 == e && rest % 16 == m);
    lemma_ulaw_level(rest);
}

/// Encoding a decoded μ-law code gives the code back, but for the second code
/// that stands for silence.
pub proof fn law_ulaw_codes_are_kept(code: u8)
    requires
        code != 0x7f,
    ensures
        ulaw_code(ulaw_sample(code)) == code,
{
    let inverted = 255 - code;
    let rest = inverted % 128;
    let level = ulaw_level(rest);
    let sample = ulaw_sample(code);
    lemma_ulaw_level(rest);
    lemma_ulaw_recode(sample, level, rest);
}

proof fn lemma_ulaw_recode(sample: i16, level: int, rest: int)
    requires
        0 <= rest < 128,
        0 <= level <= 32124,
        magnitude(sample) == level,
        ulaw_segment(level + 0x84) == rest / 16,
        shr(level + 0x84, rest / 16) / 8 % 16 == rest % 16,
    ensures
        ulaw_code(sample) == 255 - ((if sample < 0 {
            128int
        } else {
            0
        }) + rest),
{
    assert(ulaw_biased(sample) == level + 0x84);
    assert(rest / 16 * 16 + rest % 16 == rest);
}

/// A louder sample never decodes to a softer one: μ-law keeps the order.
pub proof fn law_ulaw_is_monotonic(a: i16, b: i16)
    requires
        a <= b,
    ensures
        ulaw_sample(ulaw_code(a)) <= ulaw_sample(ulaw_code(b)),
{
    lemma_ulaw_decoded(a);
    lemma_ulaw_decoded(b);
    lemma_ulaw_level(ulaw_rest(ulaw_biased(a)));
    lemma_ulaw_level(ulaw_rest(ulaw_biased(b)));
    if a >= 0 {
        lemma_ulaw_levels_grow(ulaw_biased(a), ulaw_biased(b));
    } else if b < 0 {
        lemma_ulaw_levels_grow(ulaw_biased(b), ulaw_biased(a));
    }
}

/// Where a biased magnitude lies on the scale of codes.
spec fn ulaw_rest(biased: int) -> int {
    ulaw_segment(biased) * 16 + shr(biased, ulaw_segment(biased)) / 8 % 16
}

proof fn lemma_ulaw_decoded(sample: i16)
    ensures
        ({
            let rest = ulaw_rest(ulaw_biased(sample));
            &&& 0 <= rest < 128
            &&& ulaw_sample(ulaw_code(sample)) == if sample < 0 {
                -ulaw_level(rest)
            } else {
                ulaw_level(rest)
            }
        }),
{
    lemma_ulaw_interval(ulaw_biased(sample));
    lemma_ulaw_level(ulaw_rest(ulaw_biased(sample)));
}

proof fn lemma_ulaw_levels_grow(a: int, b: int)
    requires
        0x84 <= a <= b <= 0x7fff,
    ensures
        0 <= ulaw_rest(a) <= ulaw_rest(b) < 128,
        ulaw_level(ulaw_rest(a)) <= ulaw_level(ulaw_rest(b)),
{
    reveal(shl);
    lemma_ulaw_interval(a);
    lemma_ulaw_interval(b);
    lemma_ulaw_level(ulaw_rest(a));
    lemma_ulaw_level(ulaw_rest(b));
}

/// A-law gives a sample back to within half an interval of its segment.
pub proof fn law_alaw_error_is_bounded(sample: i16)
    ensures
        ({
            let decoded = alaw_sample(alaw_code(sample));
            let segment = alaw_value(magnitude(sample) / 8) / 16;
            let half = if segment == 0 {
                8
            } else {
                shl(8, segment - 1)
            };
            &&& -half <= decoded - sample <= half
            &&& -512 <= decoded - sample <= 512
            &&& magnitude(sample) < 512 ==> -8 <= decoded - sample <= 8
            &&& sample >= 0 ==> decoded > 0
            &&& sample < 0 ==> decoded < 0
        }),
{
    reveal(shl);
    let v = alaw_value(magnitude(sample) / 8);
    lemma_alaw_interval(magnitude(sample) / 8);
    lemma_alaw_level(v);
    lemma_alaw_bits(v as u8);
}

proof fn lemma_alaw_bits(v: u8)
    requires
        v < 128,
    ensures
        (v ^ 0xd5) ^ 0x55 == v + 128,
        (v ^ 0x55) ^ 0x55 == v,
{
    assert((v ^ 0xd5) ^ 0x55 == v + 128) by (bit_vector)
        requires
            v < 128,
    ;
    assert((v ^ 0x55) ^ 0x55 == v) by (bit_vector);
}

/// Encoding a decoded A-law code gives the code back.
pub proof fn law_alaw_codes_are_kept(code: u8)
    ensures
        alaw_code(alaw_sample(code)) == code,
{
    let bits = code ^ 0x55;
    let v = (bits % 128) as u8;
    let level = alaw_level(v as int);
    let sample = alaw_sample(code);
    lemma_alaw_level(v as int);
    lemma_alaw_recode(sample, level, v as int);
    if bits >= 128 {
        assert(v ^ 0xd5 == code) by (bit_vector)
            requires
                v == bits % 128,
                bits >= 128,
                bits == code ^ 0x55,
        ;
    } else {
        assert(v ^ 0x55 == code) by (bit_vector)
            requires
                v == bits % 128,
                bits < 128,
                bits == code ^ 0x55,
        ;
    }
}

proof fn lemma_alaw_recode(sample: i16, level: int, v: int)
    requires
        0 <= v < 128,
        8 <= level <= 32256,
        magnitude(sample) == level,
        alaw_value(level / 8) == v,
    ensures
        alaw_code(sample) == if sample >= 0 {
            (v as u8) ^ 0xd5
        } else {
            (v as u8) ^ 0x55
        },
{
}

/// A louder sample never decodes to a softer one: A-law keeps the order.
pub proof fn law_alaw_is_monotonic(a: i16, b: i16)
    requires
        a <= b,
    ensures
        alaw_sample(alaw_code(a)) <= alaw_sample(alaw_code(b)),
{
    law_alaw_error_is_bounded(a);
    law_alaw_error_is_bounded(b);
    let (va, vb) = (alaw_value(magnitude(a) / 8), alaw_value(magnitude(b) / 8));
    lemma_alaw_interval(magnitude(a) / 8);
    lemma_alaw_interval(magnitude(b) / 8);
    lemma_alaw_bits(va as u8);
    lemma_alaw_bits(vb as u8);
    lemma_alaw_level(va);
    lemma_alaw_level(vb);
    if a >= 0 {
        lemma_alaw_levels_grow(magnitude(a) / 8, magnitude(b) / 8);
    } else if b < 0 {
        lemma_alaw_levels_grow(magnitude(b) / 8, magnitude(a) / 8);
    }
}

proof fn lemma_alaw_levels_grow(a: int, b: int)
    requires
        0 <= a <= b <= 0xfff,
    ensures
        alaw_level(alaw_value(a)) <= alaw_level(alaw_value(b)),
{
    reveal(shl);
    lemma_alaw_interval(a);
    lemma_alaw_interval(b);
}

/// A frame has as many codes as samples, either way, and decoding an encoded
/// frame gives each sample to within the error of its code.
pub proof fn law_frames_keep_their_length(pcm: Seq<i16>)
    ensures
        ulaw_codes(pcm).len() == pcm.len(),
        alaw_codes(pcm).len() == pcm.len(),
        ulaw_samples(ulaw_codes(pcm)).len() == pcm.len(),
        alaw_samples(alaw_codes(pcm)).len() == pcm.len(),
        forall|i: int|
            0 <= i < pcm.len() ==> -644 <= #[trigger] ulaw_samples(ulaw_codes(pcm))[i] - pcm[i]
                <= 644,
        forall|i: int|
            0 <= i < pcm.len() ==> -512 <= #[trigger] alaw_samples(alaw_codes(pcm))[i] - pcm[i]
                <= 512,
{
    assert forall|i: int| 0 <= i < pcm.len() implies -644 <= #[trigger] ulaw_samples(
        ulaw_codes(pcm),
    )[i] - pcm[i] <= 644 by {
        law_ulaw_error_is_bounded(pcm[i]);
    }
    assert forall|i: int| 0 <= i < pcm.len() implies -512 <= #[trigger] alaw_samples(
        alaw_codes(pcm),
    )[i] - pcm[i] <= 512 by {
        law_alaw_error_is_bounded(pcm[i]);
    }
}

/// The sixteen levels of a segment lie at equal steps, which double from one segment to
/// the next: what a μ-law code stands for (ITU-T G.711, table 2a). `inverted` is the
/// code with all bits inverted, `step` the step of its segment.
pub proof fn law_ulaw_levels(code: u8, inverted: int, step: int)
    requires
        code + inverted == 255,
        step == seq![8int, 16, 32, 64, 128, 256, 512, 1024][inverted % 128 / 16],
    ensures
        ({
            let level = (2 * (inverted % 16) + 33) * step / 2 - 132;
            &&& inverted < 128 ==> ulaw_sample(code) == level
            &&& inverted >= 128 ==> ulaw_sample(code) == -level
        }),
{
    reveal(shl);
    let rest = inverted % 128;
    lemma_ulaw_level(rest);
    assert(rest % 16 == inverted % 16);
    let m = rest % 16;
    let e = rest / 16;
    lemma_doubled_steps(m, e, step);
    assert(ulaw_level(rest) == shl(m * 8 + 0x84, e) - 0x84);
}

proof fn lemma_doubled_steps(m: int, e: int, step: int)
    requires
        0 <= m < 16,
        0 <= e < 8,
        step == seq![8int, 16, 32, 64, 128, 256, 512, 1024][e],
    ensures
        shl(m * 8 + 0x84, e) == (2 * m + 33) * step / 2,
{
    reveal(shl);
    let x = 2 * m + 33;
    if e == 0 {
        assert(x * step == x * 8);
    } else if e == 1 {
        assert(x * step == x * 16);
    } else if e == 2 {
        assert(x * step == x * 32);
    } else if e == 3 {
        assert(x * step == x * 64);
    } else if e == 4 {
        assert(x * step == x * 128);
    } else if e == 5 {
        assert(x * step == x * 256);
    } else if e == 6 {
        assert(x * step == x * 512);
    } else {
        assert(x * step == x * 1024);
    }
}

/// What an A-law code stands for (ITU-T G.711, table 1a). `bits` is the code with every
/// other bit inverted, `step` the step of its segment; the two lowest segments have
/// the same step.
pub proof fn law_alaw_levels(code: u8, bits: u8, step: int)
    requires
        bits == code ^ 0x55,
        step == seq![16int, 16, 32, 64, 128, 256, 512, 1024][bits as int % 128 / 16],
    ensures
        ({
            let level = if bits % 128 < 16 {
                (bits % 16) * step + step / 2
            } else {
                (bits % 16 + 16) * step + step / 2
            };
            &&& bits >= 128 ==> alaw_sample(code) == level
            &&& bits < 128 ==> alaw_sample(code) == -level
        }),
{
    reveal(shl);
    let v = (bits % 128) as int;
    lemma_alaw_level(v);
    assert(v % 16 == bits % 16);
}

/// μ-law is exact to one part in 32 of the sample, give or take four; and where the
/// sample is too large for the last segment, to 644. The sign is the top bit.
pub proof fn law_ulaw_is_precise(sample: i16)
    ensures
        ({
            let decoded = ulaw_sample(ulaw_code(sample));
            let size = if sample < 0 {
                -sample
            } else {
                sample as int
            };
            &&& size <= 32635 ==> 32 * (decoded - sample) <= size + 132
            &&& size <= 32635 ==> 32 * (sample - decoded) <= size + 132
            &&& -644 <= decoded - sample <= 644
            &&& ulaw_code(sample) >= 128 <==> sample >= 0
        }),
{
    reveal(shl);
    law_ulaw_error_is_bounded(sample);
    let biased = ulaw_biased(sample);
    let e = ulaw_segment(biased);
    lemma_ulaw_interval(biased);
    assert(32 * shl(4, e) <= biased);
}

/// A-law is exact to one part in 32 of the sample, or to eight where that is less. The
/// sign is the top bit.
pub proof fn law_alaw_is_precise(sample: i16)
    ensures
        ({
            let decoded = alaw_sample(alaw_code(sample));
            let size = if sample < 0 {
                -sample
            } else {
                sample as int
            };
            &&& 32 * (decoded - sample) <= size || decoded - sample <= 8
            &&& 32 * (sample - decoded) <= size || sample - decoded <= 8
            &&& alaw_code(sample) >= 128 <==> sample >= 0
        }),
{
    reveal(shl);
    law_alaw_error_is_bounded(sample);
    let v = alaw_value(magnitude(sample) / 8);
    lemma_alaw_interval(magnitude(sample) / 8);
    let u = v as u8;
    assert(u < 128 ==> (u ^ 0xd5) >= 128 && (u ^ 0x55) < 128) by (bit_vector);
}

/// Codes and samples go one to one, in order: a frame is encoded sample by sample.
pub proof fn law_frames_are_coded_sample_by_sample(pcm: Seq<i16>, codes: Seq<u8>, i: int)
    ensures
        ulaw_codes(pcm).len() == pcm.len() && alaw_codes(pcm).len() == pcm.len(),
        ulaw_samples(codes).len() == codes.len() && alaw_samples(codes).len() == codes.len(),
        0 <= i < pcm.len() ==> ulaw_codes(pcm)[i] == ulaw_code(pcm[i]) && alaw_codes(pcm)[i]
            == alaw_code(pcm[i]),
        0 <= i < codes.len() ==> ulaw_samples(codes)[i] == ulaw_sample(codes[i])
            && alaw_samples(codes)[i] == alaw_sample(codes[i]),
{
}

} // verus!
