//! Sample rates around the Opus codec.
//!
//! Opus works at 48 kHz, the engine at 8 kHz: frames are interpolated to six
//! times their length before they are encoded, and thinned out to every sixth
//! sample after they are decoded.

use vstd::prelude::*;

verus! {

/// Samples in the longest decoded frame: 120 ms at 48 kHz.
pub const MAX_DECODED: usize = 5760;

/// Room for an encoded frame.
pub const MAX_ENCODED: usize = 4000;

/// `n / 6`, rounded towards zero.
pub open spec fn sixth(n: int) -> int {
    if n >= 0 {
        n / 6
    } else {
        -((-n) / 6)
    }
}

/// The sample behind sample `i`; the last one is its own successor.
pub open spec fn successor(pcm: Seq<i16>, i: int) -> i16 {
    if i + 1 < pcm.len() {
        pcm[i + 1]
    } else {
        pcm[i]
    }
}

/// The sample `j` sixths of the way from sample `i` to the one behind it,
/// rounded towards zero.
pub open spec fn interpolated(pcm: Seq<i16>, i: int, j: int) -> i16 {
    sixth(6 * pcm[i] + (successor(pcm, i) - pcm[i]) * j) as i16
}

/// `pcm` at six times its rate.
pub open spec fn upsampled(pcm: Seq<i16>) -> Seq<i16> {
    Seq::new(pcm.len() * 6, |k: int| interpolated(pcm, k / 6, k % 6))
}

/// Every sixth of the first `n` samples.
pub open spec fn downsampled(decoded: Seq<i16>, n: int) -> Seq<i16> {
    Seq::new(((n + 5) / 6) as nat, |i: int| decoded[i * 6])
}

/// The sample `j` sixths of the way from `current` to `next`.
fn interpolate(current: i16, next: i16, j: u8) -> (sample: i16)
    requires
        j < 6,
    ensures
        sample == sixth(6 * current + (next - current) * j),
{
    let step: i32 = next as i32 - current as i32;
    assert(-6 * 0xffff <= step * j <= 6 * 0xffff) by (nonlinear_arith)
        requires
            -0xffff <= step <= 0xffff,
            0 <= j < 6,
    ;
    let n: i32 = 6 * (current as i32) + step * j as i32;
    proof {
        let (c, d, k) = (current as int, step as int, j as int);
        assert(n == (6 - k) * c + k * (c + d)) by (nonlinear_arith)
            requires
                n == 6 * c + d * k,
        ;
        assert(-6 * 0x8000 <= n <= 6 * 0x7fff) by (nonlinear_arith)
            requires
                n == (6 - k) * c + k * (c + d),
                -0x8000 <= c <= 0x7fff,
                -0x8000 <= c + d <= 0x7fff,
                0 <= k < 6,
        ;
    }
    if n >= 0 {
        (n / 6) as i16
    } else {
        (-((-n) / 6)) as i16
    }
}

/// Interpolates 8 kHz samples to 48 kHz.
pub fn upsample(pcm: &[i16]) -> (out: Vec<i16>)
    ensures
        out@ == upsampled(pcm@),
{
    let mut out: Vec<i16> = Vec::new();
    for i in 0..pcm.len()
        invariant
            out@.len() == i * 6,
            forall|k: int| 0 <= k < out@.len() ==> out@[k] == interpolated(pcm@, k / 6, k % 6),
    {
        let current = pcm[i];
        let next = if i < pcm.len() - 1 {
            pcm[i + 1]
        } else {
            current
        };
        for j in 0..6u8
            invariant
                i < pcm@.len(),
                current == pcm@[i as int],
                next == successor(pcm@, i as int),
                out@.len() == i * 6 + j,
                forall|k: int| 0 <= k < out@.len() ==> out@[k] == interpolated(pcm@, k / 6, k % 6),
        {
            out.push(interpolate(current, next, j));
            assert((i * 6 + j) / 6 == i && (i * 6 + j) % 6 == j);
        }
    }
    assert(out@ =~= upsampled(pcm@));
    out
}

/// Appends every sixth of the first `samples` decoded samples.
pub fn downsample_into(decoded: &[i16], samples: usize, output: &mut Vec<i16>)
    requires
        samples <= decoded@.len(),
    ensures
        final(output)@ == old(output)@ + downsampled(decoded@, samples as int),
{
    let ghost before = output@;
    let n: usize = samples / 6 + if samples % 6 > 0 {
        1
    } else {
        0
    };
    for i in 0..n
        invariant
            n == (samples + 5) / 6,
            samples <= decoded@.len(),
            output@ == before + downsampled(decoded@, samples as int).take(i as int),
    {
        output.push(decoded[i * 6]);
        assert(output@ =~= before + downsampled(decoded@, samples as int).take(i + 1));
    }
    assert(downsampled(decoded@, samples as int).take(n as int) =~= downsampled(
        decoded@,
        samples as int,
    ));
}

/// Appends an encoded frame; returns how many of the frame's `samples` samples
/// went into it: all, or none where the codec refused the frame.
pub fn append_encoded(encoded: Option<&[u8]>, samples: usize, output: &mut Vec<u8>) -> (consumed:
    usize)
    ensures
        match encoded {
            Some(frame) => consumed == samples && final(output)@ == old(output)@ + frame@,
            None => consumed == 0 && final(output)@ == old(output)@,
        },
{
    match encoded {
        Some(frame) => {
            crate::bytes::append_bytes(output, frame);
            samples
        },
        None => 0,
    }
}

/// Every sixth sample of an interpolated frame is a sample of the frame: thinning
/// out undoes interpolation.
pub proof fn law_downsample_undoes_upsample(pcm: Seq<i16>)
    ensures
        downsampled(upsampled(pcm), upsampled(pcm).len() as int) == pcm,
{
    let up = upsampled(pcm);
    assert forall|i: int| 0 <= i < pcm.len() implies up[i * 6] == pcm[i] by {
        assert((i * 6) / 6 == i && (i * 6) % 6 == 0);
        assert(sixth(6 * pcm[i]) == pcm[i]);
        assert((successor(pcm, i) - pcm[i]) * 0 == 0);
    }
    assert(downsampled(up, up.len() as int) =~= pcm);
}

/// An interpolated sample lies between its two neighbours.
pub proof fn law_interpolation_stays_between(pcm: Seq<i16>, i: int, j: int)
    requires
        0 <= i < pcm.len(),
        0 <= j < 6,
    ensures
        pcm[i] <= successor(pcm, i) ==> pcm[i] <= interpolated(pcm, i, j) <= successor(pcm, i),
        successor(pcm, i) <= pcm[i] ==> successor(pcm, i) <= interpolated(pcm, i, j) <= pcm[i],
{
    let (a, b) = (pcm[i] as int, successor(pcm, i) as int);
    let n = 6 * a + (b - a) * j;
    if a <= b {
        assert(6 * a <= n <= 6 * b) by (nonlinear_arith)
            requires
                n == 6 * a + (b - a) * j,
                a <= b,
                0 <= j < 6,
        ;
    } else {
        assert(6 * b <= n <= 6 * a) by (nonlinear_arith)
            requires
                n == 6 * a + (b - a) * j,
                b <= a,
                0 <= j < 6,
        ;
    }
}

/// Between two samples five are put in, on the straight line from one to the other,
/// each cut to a whole number; behind the last sample it is repeated.
pub proof fn law_interpolation_is_linear(pcm: Seq<i16>, i: int, j: int)
    requires
        0 <= i < pcm.len(),
        0 <= j < 6,
    ensures
        ({
            let next = if i + 1 < pcm.len() {
                pcm[i + 1]
            } else {
                pcm[i]
            };
            let line = pcm[i] * (6 - j) + next * j;
            let sample = upsampled(pcm)[i * 6 + j];
            &&& upsampled(pcm).len() == pcm.len() * 6
            &&& line >= 0 ==> 6 * sample <= line < 6 * sample + 6
            &&& line <= 0 ==> 6 * sample - 6 < line <= 6 * sample
            &&& j == 0 ==> sample == pcm[i]
        }),
{
    let (a, b) = (pcm[i] as int, successor(pcm, i) as int);
    assert((i * 6 + j) / 6 == i && (i * 6 + j) % 6 == j);
    assert(6 * a + (b - a) * j == a * (6 - j) + b * j) by (nonlinear_arith);
    law_interpolation_stays_between(pcm, i, j);
    let n = 6 * a + (b - a) * j;
    assert(-6 * 0x8000 <= n <= 6 * 0x7fff) by (nonlinear_arith)
        requires
            n == 6 * a + (b - a) * j,
            -0x8000 <= a <= 0x7fff,
            -0x8000 <= b <= 0x7fff,
            0 <= j < 6,
    ;
    assert(-0x8000 <= sixth(n) <= 0x7fff);
    assert(upsampled(pcm)[i * 6 + j] == interpolated(pcm, i, j));
    assert(interpolated(pcm, i, j) == sixth(n));
    if j == 0 {
        assert(n == 6 * a) by (nonlinear_arith)
            requires
                n == 6 * a + (b - a) * j,
                j == 0,
        ;
    }
    let line = pcm[i] * (6 - j) + successor(pcm, i) * j;
    assert(line == n);
}

/// Thinning out keeps the first of every six samples.
pub proof fn law_every_sixth_sample_is_kept(decoded: Seq<i16>, n: int, i: int)
    requires
        0 <= n <= decoded.len(),
        0 <= i,
        i * 6 < n,
    ensures
        downsampled(decoded, n)[i] == decoded[i * 6],
        6 * (downsampled(decoded, n).len() - 1) < n <= 6 * downsampled(decoded, n).len(),
{
}

} // verus!
