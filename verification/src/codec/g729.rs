//! The bit stream of G.729 Annex A.
//!
//! A frame is 80 samples (10 ms at 8 kHz) in 10 bytes: four line spectral pair
//! deltas, and for each of two subframes a pitch lag, a pitch gain, a codebook
//! index and a codebook gain. Which numbers go into a frame is found in floating
//! point by the caller; how they are quantized, packed and read back is here.

use vstd::prelude::*;

verus! {

/// Samples per frame.
pub const FRAME_SIZE: usize = 80;

/// Bytes per frame.
pub const FRAME_BYTES: usize = 10;

/// Samples per subframe.
pub const SUBFRAME_SIZE: usize = 40;

/// Shortest pitch lag.
pub const PITCH_MIN: usize = 20;

/// Longest pitch lag.
pub const PITCH_MAX: usize = 143;

/// RTP payload type.
pub const PAYLOAD_TYPE: u8 = 18;

/// The indices of one subframe.
#[derive(Debug, Clone, Copy, PartialEq, Eq, Structural)]
pub struct Subframe {
    /// Pitch lag, counted from the shortest one.
    pub pitch: u8,
    /// Pitch gain, in quarters, 3 bits.
    pub pitch_gain: u8,
    /// Codebook index, 13 bits.
    pub code: u16,
    /// Codebook gain, 4 bits.
    pub code_gain: u8,
}

/// The indices of one frame.
#[derive(Debug, Clone, Copy, PartialEq, Eq, Structural)]
pub struct Frame {
    /// The first two line spectral pair deltas, four bits each.
    pub lsp_low: u8,
    /// The next two.
    pub lsp_high: u8,
    /// First subframe.
    pub first: Subframe,
    /// Second subframe.
    pub second: Subframe,
}

/// What a decoder reads of one subframe.
#[derive(Debug, Clone, Copy, PartialEq, Eq, Structural)]
pub struct SubframeParams {
    /// Pitch lag in samples.
    pub lag: usize,
    /// Pitch gain, in quarters.
    pub pitch_gain: u8,
    /// Codebook index.
    pub code: u16,
    /// Codebook gain, in fifteenths.
    pub code_gain: u8,
}

/// What a decoder reads of one frame.
#[derive(Debug, Clone, Copy, PartialEq, Eq, Structural)]
pub struct FrameParams {
    /// The first two line spectral pair deltas, four bits each.
    pub lsp_low: u8,
    /// The next two.
    pub lsp_high: u8,
    /// First subframe.
    pub first: SubframeParams,
    /// Second subframe.
    pub second: SubframeParams,
}

impl Subframe {
    /// Whether the indices fit their fields.
    pub open spec fn fits(self) -> bool {
        self.pitch <= 127 && self.pitch_gain <= 7 && self.code < 0x2000 && self.code_gain <= 15
    }
}

/// The smaller of two numbers.
pub open spec fn smaller(a: int, b: int) -> int {
    if a <= b {
        a
    } else {
        b
    }
}

/// Quantizes what the analysis of a subframe found: the lag, the pitch gain in
/// quarters, the pattern of the codebook and the codebook gain.
pub fn quantize_subframe(lag: usize, pitch_gain: u8, code: u16, code_gain: u8) -> (s: Subframe)
    requires
        PITCH_MIN <= lag <= PITCH_MAX,
    ensures
        s.fits(),
        s.pitch == lag - PITCH_MIN,
        s.pitch_gain == smaller(pitch_gain as int, 7),
        s.code == code % 0x2000,
        s.code_gain == smaller(code_gain as int, 15),
{
    Subframe {
        pitch: (lag - PITCH_MIN) as u8,
        pitch_gain: if pitch_gain <= 7 {
            pitch_gain
        } else {
            7
        },
        code: code % 0x2000,
        code_gain: if code_gain <= 15 {
            code_gain
        } else {
            15
        },
    }
}

/// The index of a line spectral pair delta: `-7` to `8` sixteenths, counted from
/// zero.
pub open spec fn lsp_index(sixteenths: int) -> int {
    (if sixteenths < -7 {
        -7
    } else if sixteenths > 8 {
        8
    } else {
        sixteenths
    }) + 7
}

/// Quantizes four line spectral pair deltas, given in sixteenths, into two bytes.
pub fn quantize_lsp(deltas: &[i32; 4]) -> (packed: (u8, u8))
    ensures
        packed.0 == lsp_index(deltas@[0] as int) + lsp_index(deltas@[1] as int) * 16,
        packed.1 == lsp_index(deltas@[2] as int) + lsp_index(deltas@[3] as int) * 16,
{
    (
        quantize_delta(deltas[0]) + quantize_delta(deltas[1]) * 16,
        quantize_delta(deltas[2]) + quantize_delta(deltas[3]) * 16,
    )
}

fn quantize_delta(sixteenths: i32) -> (index: u8)
    ensures
        index == lsp_index(sixteenths as int),
        index <= 15,
{
    let bounded: i32 = if sixteenths < -7 {
        -7
    } else if sixteenths > 8 {
        8
    } else {
        sixteenths
    };
    (bounded + 7) as u8
}

/// The four deltas, in sixteenths, that two bytes hold.
pub open spec fn lsp_deltas(low: u8, high: u8) -> Seq<i32> {
    seq![
        (low % 16 - 7) as i32,
        (low / 16 - 7) as i32,
        (high % 16 - 7) as i32,
        (high / 16 - 7) as i32,
    ]
}

/// Reads four line spectral pair deltas, in sixteenths.
pub fn dequantize_lsp(low: u8, high: u8) -> (deltas: [i32; 4])
    ensures
        deltas@ == lsp_deltas(low, high),
{
    let deltas: [i32; 4] = [
        (low % 16) as i32 - 7,
        (low / 16) as i32 - 7,
        (high % 16) as i32 - 7,
        (high / 16) as i32 - 7,
    ];
    assert(deltas@ =~= lsp_deltas(low, high));
    deltas
}

/// The bytes of a frame.
pub open spec fn frame_bytes(f: Frame) -> Seq<u8> {
    seq![
        f.lsp_low,
        f.lsp_high,
        f.first.pitch,
        (f.first.pitch_gain * 32 + f.first.code / 256 % 32) as u8,
        (f.first.code % 256) as u8,
        (f.first.code_gain * 16 + f.second.pitch / 16 % 16) as u8,
        (f.second.pitch % 16 * 16 + f.second.pitch_gain * 2 + f.second.code / 0x1000 % 2) as u8,
        (f.second.code / 16 % 256) as u8,
        (f.second.code % 16 * 16 + f.second.code_gain) as u8,
        0u8,
    ]
}

/// Packs a frame.
pub fn pack_frame(f: &Frame) -> (out: [u8; 10])
    requires
        f.first.fits(),
        f.second.fits(),
    ensures
        out@ == frame_bytes(*f),
{
    let out: [u8; 10] = [
        f.lsp_low,
        f.lsp_high,
        f.first.pitch,
        f.first.pitch_gain * 32 + (f.first.code / 256 % 32) as u8,
        (f.first.code % 256) as u8,
        f.first.code_gain * 16 + f.second.pitch / 16 % 16,
        f.second.pitch % 16 * 16 + f.second.pitch_gain * 2 + (f.second.code / 0x1000 % 2) as u8,
        (f.second.code / 16 % 256) as u8,
        (f.second.code % 16) as u8 * 16 + f.second.code_gain,
        0,
    ];
    assert(out@ =~= frame_bytes(*f));
    out
}

/// The lag of the second subframe before it is bounded: the upper half of its
/// index, joined bit by bit with the lower half counted from the shortest lag.
pub open spec fn second_lag(upper: u16, lower: u16) -> u16 {
    ((upper * 16) as u16) | ((lower + 20) as u16)
}

/// What a decoder reads of a frame.
pub open spec fn frame_params(data: Seq<u8>) -> FrameParams {
    FrameParams {
        lsp_low: data[0],
        lsp_high: data[1],
        first: SubframeParams {
            lag: smaller(data[2] + 20, 143) as usize,
            pitch_gain: data[3] / 32,
            code: (data[3] % 32 * 256 + data[4]) as u16,
            code_gain: data[5] / 16,
        },
        second: SubframeParams {
            lag: smaller(second_lag((data[5] % 16) as u16, (data[6] / 16) as u16) as int, 143) as usize,
            pitch_gain: (data[6] / 2 % 8) as u8,
            code: (data[6] % 2 * 0x1000 + data[7] * 16 + data[8] / 16) as u16,
            code_gain: data[8] % 16,
        },
    }
}

/// Reads a frame; nothing where there are fewer than ten bytes.
pub fn unpack_frame(data: &[u8]) -> (params: Option<FrameParams>)
    ensures
        match params {
            Some(p) => data@.len() >= FRAME_BYTES && p == frame_params(data@),
            None => data@.len() < FRAME_BYTES,
        },
{
    if data.len() < FRAME_BYTES {
        return None;
    }
    let first_lag: usize = data[2] as usize + PITCH_MIN;
    let upper: u16 = (data[5] % 16) as u16 * 16;
    let lower: u16 = (data[6] / 16) as u16 + 20;
    let second_lag: usize = (upper | lower) as usize;
    Some(
        FrameParams {
            lsp_low: data[0],
            lsp_high: data[1],
            first: SubframeParams {
                lag: if first_lag <= PITCH_MAX {
                    first_lag
                } else {
                    PITCH_MAX
                },
                pitch_gain: data[3] / 32,
                code: (data[3] % 32) as u16 * 256 + data[4] as u16,
                code_gain: data[5] / 16,
            },
            second: SubframeParams {
                lag: if second_lag <= PITCH_MAX {
                    second_lag
                } else {
                    PITCH_MAX
                },
                pitch_gain: data[6] / 2 % 8,
                code: (data[6] % 2) as u16 * 0x1000 + data[7] as u16 * 16 + (data[8] / 16) as u16,
                code_gain: data[8] % 16,
            },
        },
    )
}

/// The four pulses of a codebook index: position in the subframe, and whether it
/// is positive.
pub open spec fn pulses(code: u16) -> Seq<(usize, bool)> {
    let high = code / 0x1000 % 2 == 1;
    seq![
        ((code % 8 * 5) as usize, high),
        ((code / 8 % 8 * 5 + 1) as usize, high),
        ((code / 64 % 8 * 5 + 2) as usize, !high),
        ((code / 512 % 8 * 5 + 3) as usize, !high),
    ]
}

/// The pulses of a codebook index.
pub fn pulse_pattern(code: u16) -> (pattern: [(usize, bool); 4])
    ensures
        pattern@ == pulses(code),
        forall|i: int| 0 <= i < 4 ==> (#[trigger] pattern@[i]).0 < SUBFRAME_SIZE,
{
    let high = code / 0x1000 % 2 == 1;
    let pattern: [(usize, bool); 4] = [
        ((code % 8) as usize * 5, high),
        ((code / 8 % 8) as usize * 5 + 1, high),
        ((code / 64 % 8) as usize * 5 + 2, !high),
        ((code / 512 % 8) as usize * 5 + 3, !high),
    ];
    assert(pattern@ =~= pulses(code));
    pattern
}

/// How many whole frames `samples` samples make.
pub fn whole_frames(samples: usize) -> (frames: usize)
    ensures
        frames == samples as int / 80,
        frames * FRAME_SIZE <= samples,
{
    samples / FRAME_SIZE
}

/// How many whole frames `bytes` bytes hold.
pub fn whole_packets(bytes: usize) -> (frames: usize)
    ensures
        frames == bytes as int / 10,
        frames * FRAME_BYTES <= bytes,
{
    bytes / FRAME_BYTES
}

/// Moves a history on: as many of the oldest values leave as new ones come in
/// behind the others.
pub fn push_history<T: Copy>(history: &[T], new: &[T]) -> (out: Vec<T>)
    requires
        new@.len() <= history@.len(),
    ensures
        out@ == history@.skip(new@.len() as int) + new@,
{
    let mut out: Vec<T> = Vec::new();
    for i in new.len()..history.len()
        invariant
            new@.len() <= history@.len(),
            out@ == history@.subrange(new@.len() as int, i as int),
    {
        out.push(history[i]);
    }
    for i in 0..new.len()
        invariant
            out@ == history@.skip(new@.len() as int) + new@.take(i as int),
    {
        out.push(new[i]);
        assert(out@ =~= history@.skip(new@.len() as int) + new@.take(i + 1));
    }
    assert(new@.take(new@.len() as int) =~= new@);
    out
}

/// The excitation history once a subframe has been added: the history moves down
/// by a subframe and the new one ends where the longest lag begins.
pub open spec fn moved_excitation<T>(history: Seq<T>, new: Seq<T>) -> Seq<T> {
    Seq::new(
        history.len(),
        |k: int|
            if 103 <= k < 143 {
                new[k - 103]
            } else if k + 40 < history.len() {
                history[k + 40]
            } else {
                history[k]
            },
    )
}

/// Adds a subframe to the excitation history.
pub fn push_excitation<T: Copy>(history: &[T], new: &[T]) -> (out: Vec<T>)
    requires
        history@.len() == PITCH_MAX + FRAME_SIZE,
        new@.len() == SUBFRAME_SIZE,
    ensures
        out@ == moved_excitation(history@, new@),
{
    let mut out: Vec<T> = Vec::new();
    for k in 0..history.len()
        invariant
            history@.len() == 223,
            new@.len() == 40,
            out@.len() == k,
            forall|j: int| 0 <= j < k ==> out@[j] == moved_excitation(history@, new@)[j],
    {
        if 103 <= k && k < 143 {
            out.push(new[k - 103]);
        } else if k + 40 < history.len() {
            out.push(history[k + 40]);
        } else {
            out.push(history[k]);
        }
    }
    assert(out@ =~= moved_excitation(history@, new@));
    out
}

/// The place in the excitation history that sample `i` of a subframe is
/// predicted from.
pub fn prediction_index(lag: usize, i: usize) -> (index: usize)
    requires
        lag <= PITCH_MAX,
        i < SUBFRAME_SIZE,
    ensures
        index == PITCH_MAX - lag + i,
        index < PITCH_MAX + FRAME_SIZE,
{
    PITCH_MAX - lag + i
}

/// A decoder reads from a packed frame the indices that went into it; of the
/// second subframe's lag see [`law_second_lag_is_read`].
pub proof fn law_frame_round_trip(f: Frame)
    requires
        f.first.fits(),
        f.second.fits(),
    ensures
        ({
            let p = frame_params(frame_bytes(f));
            &&& frame_bytes(f).len() == FRAME_BYTES
            &&& p.lsp_low == f.lsp_low
            &&& p.lsp_high == f.lsp_high
            &&& p.first.lag == smaller(f.first.pitch + PITCH_MIN, PITCH_MAX as int)
            &&& p.first.pitch_gain == f.first.pitch_gain
            &&& p.first.code == f.first.code
            &&& p.first.code_gain == f.first.code_gain
            &&& p.second.pitch_gain == f.second.pitch_gain
            &&& p.second.code == f.second.code
            &&& p.second.code_gain == f.second.code_gain
        }),
{
    lemma_fields(f.first.pitch_gain as int, f.first.code as int, f.first.code_gain as int);
    let c = f.second.code as int;
    assert(c / 0x1000 % 2 * 0x1000 + c / 16 % 256 * 16 + c % 16 == c);
}

proof fn lemma_fields(gain: int, code: int, code_gain: int)
    requires
        0 <= gain <= 7,
        0 <= code < 0x2000,
        0 <= code_gain <= 15,
    ensures
        (gain * 32 + code / 256 % 32) / 32 == gain,
        (gain * 32 + code / 256 % 32) % 32 * 256 + code % 256 == code,
{
}

/// A decoder reads the second subframe's lag where the two halves of its index,
/// as they are joined, have no bit in common.
pub proof fn law_second_lag_is_read(f: Frame)
    requires
        f.first.fits(),
        f.second.fits(),
        f.second.pitch % 16 < 12 ==> f.second.pitch / 16 % 2 == 0,
        f.second.pitch % 16 >= 12 ==> f.second.pitch / 32 % 2 == 0,
    ensures
        frame_params(frame_bytes(f)).second.lag == smaller(
            f.second.pitch + PITCH_MIN,
            PITCH_MAX as int,
        ),
{
    let upper = (f.second.pitch / 16) as u16;
    let lower = (f.second.pitch % 16) as u16;
    assert(frame_bytes(f)[5] % 16 == upper);
    assert(frame_bytes(f)[6] / 16 == lower);
    if lower < 12 {
        assert(((upper * 16) as u16) | ((lower + 20) as u16) == upper * 16 + lower + 20)
            by (bit_vector)
            requires
                upper < 8,
                lower < 12,
                upper % 2 == 0,
        ;
    } else {
        assert(((upper * 16) as u16) | ((lower + 20) as u16) == upper * 16 + lower + 20)
            by (bit_vector)
            requires
                upper < 8,
                12 <= lower,
                lower < 16,
                upper / 2 % 2 == 0,
        ;
    }
}

/// A decoder reads from quantized deltas the deltas that went in, brought within
/// their bounds.
pub proof fn law_lsp_round_trip(a: int, b: int)
    ensures
        ({
            let packed = (lsp_index(a) + lsp_index(b) * 16) as u8;
            &&& packed % 16 - 7 == lsp_index(a) - 7
            &&& packed / 16 - 7 == lsp_index(b) - 7
            &&& -7 <= a <= 8 ==> lsp_index(a) - 7 == a
        }),
{
}

/// A packed frame, byte by byte, and what a decoder reads of one that anybody packed.
pub proof fn law_frame_bit_by_bit(f: Frame, data: Seq<u8>)
    requires
        f.first.fits(),
        f.second.fits(),
    ensures
        ({
            let b = frame_bytes(f);
            &&& b.len() == 10
            &&& b[0] == f.lsp_low && b[1] == f.lsp_high && b[2] == f.first.pitch
            &&& b[3] / 32 == f.first.pitch_gain
            &&& (b[3] % 32) * 256 + b[4] == f.first.code
            &&& b[5] / 16 == f.first.code_gain
            &&& (b[5] % 16) * 16 + b[6] / 16 == f.second.pitch
            &&& b[6] / 2 % 8 == f.second.pitch_gain
            &&& (b[6] % 2) * 4096 + b[7] * 16 + b[8] / 16 == f.second.code
            &&& b[8] % 16 == f.second.code_gain
            &&& b[9] == 0
        }),
        ({
            let p = frame_params(data);
            &&& p.lsp_low == data[0] && p.lsp_high == data[1]
            &&& data[2] <= 123 ==> p.first.lag == data[2] + 20
            &&& data[2] > 123 ==> p.first.lag == 143
            &&& p.first.pitch_gain == data[3] / 32
            &&& p.first.code == (data[3] % 32) * 256 + data[4]
            &&& p.first.code_gain == data[5] / 16
            &&& p.second.pitch_gain == data[6] / 2 % 8
            &&& p.second.code == (data[6] % 2) * 4096 + data[7] * 16 + data[8] / 16
            &&& p.second.code_gain == data[8] % 16
            &&& ({
                let lag = (((data[5] % 16) * 16) as u16) | ((data[6] as int / 16 + 20) as u16);
                p.second.lag == if lag <= 143 {
                    lag
                } else {
                    143
                }
            })
        }),
{
    lemma_fields(f.first.pitch_gain as int, f.first.code as int, f.first.code_gain as int);
    let c = f.second.code as int;
    assert(c / 0x1000 % 2 * 0x1000 + c / 16 % 256 * 16 + c % 16 == c);
}

/// The four pulses of a codebook index: each on a track of its own, five samples apart
/// on the track, at the place that three bits of the index name, two with the sign of
/// the top bit and two with the other.
pub proof fn law_pulses_are_on_their_tracks(code: u16, k: int)
    requires
        0 <= k < 4,
    ensures
        ({
            let shift = seq![1int, 8, 64, 512][k];
            let p = pulses(code)[k];
            &&& pulses(code).len() == 4
            &&& p.0 == (code as int / shift % 8) * 5 + k
            &&& k < 2 ==> (p.1 <==> code as int / 4096 % 2 == 1)
            &&& k >= 2 ==> (p.1 <==> code as int / 4096 % 2 == 0)
        }),
{
    let c = code as int;
    if k == 0 {
        assert(c / 1 == c);
        assert(pulses(code)[0].0 == c % 8 * 5);
    } else if k == 1 {
        assert(pulses(code)[1].0 == c / 8 % 8 * 5 + 1);
    } else if k == 2 {
        assert(pulses(code)[2].0 == c / 64 % 8 * 5 + 2);
    } else {
        assert(pulses(code)[3].0 == c / 512 % 8 * 5 + 3);
    }
}

/// A delta in sixteenths becomes an index from 0 to 15, which counts from -7 and cuts
/// what lies beyond the ends.
pub proof fn law_deltas_are_indexed(a: int, low: u8, high: u8)
    ensures
        -7 <= a <= 8 ==> lsp_index(a) == a + 7,
        a < -7 ==> lsp_index(a) == 0,
        a > 8 ==> lsp_index(a) == 15,
        lsp_deltas(low, high).len() == 4,
        lsp_deltas(low, high)[0] == low % 16 - 7 && lsp_deltas(low, high)[1] == low as int / 16 - 7,
        lsp_deltas(low, high)[2] == high % 16 - 7 && lsp_deltas(low, high)[3] == high as int / 16
            - 7,
{
}

/// The excitation history moves down by a subframe, and the new one ends where the
/// longest lag begins; what lies at the very end stays.
pub proof fn law_excitation_moves_down<T>(history: Seq<T>, new: Seq<T>, k: int)
    requires
        history.len() == 223,
        new.len() == 40,
        0 <= k < 223,
    ensures
        moved_excitation(history, new).len() == 223,
        k < 103 || 143 <= k < 183 ==> moved_excitation(history, new)[k] == history[k + 40],
        103 <= k < 143 ==> moved_excitation(history, new)[k] == new[k - 103],
        k >= 183 ==> moved_excitation(history, new)[k] == history[k],
{
}

} // verus!
