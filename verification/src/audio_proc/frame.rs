//! Fixed-size frame accumulation for the audio processor.
//!
//! The processor works in exact 10 ms frames, while devices hand over buffers of
//! any size, and not necessarily the same size twice. Samples go in at any size,
//! frames come out at exactly one size, and the remainder is carried to the next
//! call.

use vstd::prelude::*;

verus! {

/// The frame size the audio processor requires, in milliseconds.
pub const FRAME_MS: usize = 10;

/// Samples in one 10 ms frame at `rate_hz`, single channel. A rate that is not a
/// multiple of 100 yields a truncated frame, which [`FrameAccumulator::new`]
/// rejects.
pub fn frame_len(rate_hz: u32) -> (n: usize)
    ensures
        n == rate_hz as int / 100,
{
    let n: u64 = rate_hz as u64 * 10 / 1000;
    assert(n == rate_hz as int / 100);
    n as usize
}

/// The sample rates that the processor supports.
pub open spec fn supported(rate_hz: u32) -> bool {
    rate_hz == 8_000 || rate_hz == 16_000 || rate_hz == 32_000 || rate_hz == 48_000
}

/// Accumulates audio of any length into fixed frames.
#[derive(Debug)]
pub struct FrameAccumulator<T> {
    frame_len: usize,
    pending: Vec<T>,
}

/// Appends the values of `part`.
pub fn append_all<T: Copy>(out: &mut Vec<T>, part: &[T])
    ensures
        final(out)@ == old(out)@ + part@,
{
    let ghost before = out@;
    for i in 0..part.len()
        invariant
            out@ == before + part@.take(i as int),
    {
        out.push(part[i]);
        assert(out@ =~= before + part@.take(i + 1));
    }
    assert(part@.take(part@.len() as int) =~= part@);
}

/// Whether `k` is the number of one of `n` frames.
pub open spec fn is_frame(k: int, n: int) -> bool {
    0 <= k < n
}

/// Frame `k` of `s`, for frames of `len` samples.
pub open spec fn frame_at<T>(s: Seq<T>, len: int, k: int) -> Seq<T> {
    s.subrange(k * len, k * len + len)
}

impl<T: Copy> FrameAccumulator<T> {
    /// Samples in one frame.
    pub closed spec fn len(&self) -> int {
        self.frame_len as int
    }

    /// Samples held back, waiting for the rest of a frame.
    pub closed spec fn held(&self) -> Seq<T> {
        self.pending@
    }

    /// Whether less than one frame is held back.
    pub open spec fn wf(&self) -> bool {
        80 <= self.len() <= 480 && self.held().len() < self.len()
    }

    /// Builds an accumulator for `rate_hz`; nothing for a rate that the processor
    /// does not support.
    pub fn new(rate_hz: u32) -> (acc: Option<Self>)
        ensures
            match acc {
                Some(a) => {
                    &&& supported(rate_hz)
                    &&& a.wf()
                    &&& a.len() == rate_hz as int / 100
                    &&& a.held() == Seq::<T>::empty()
                },
                None => !supported(rate_hz),
            },
    {
        if rate_hz == 8_000 || rate_hz == 16_000 || rate_hz == 32_000 || rate_hz == 48_000 {
            Some(FrameAccumulator { frame_len: frame_len(rate_hz), pending: Vec::new() })
        } else {
            None
        }
    }

    /// Samples in one frame.
    pub fn frame_len(&self) -> (n: usize)
        ensures
            n == self.len(),
    {
        self.frame_len
    }

    /// Samples held back, waiting for the rest of a frame.
    pub fn pending_len(&self) -> (n: usize)
        ensures
            n == self.held().len(),
    {
        self.pending.len()
    }

    /// Adds `input` and calls `on_frame` for each complete frame.
    ///
    /// `on_frame` gets exactly one frame and may modify it in place; the frame as
    /// it left it is appended to `out`.
    pub fn push<F: FnMut(&mut [T])>(&mut self, input: &[T], out: &mut Vec<T>, on_frame: F)
        requires
            old(self).wf(),
            forall|frame: &mut [T]|
                (*frame)@.len() == old(self).len() ==> #[trigger] on_frame.requires((frame,)),
            forall|frame: &mut [T]| #[trigger]
                on_frame.ensures((frame,), ()) ==> (*final(frame))@.len() == (*frame)@.len(),
        ensures
            final(self).wf(),
            final(self).len() == old(self).len(),
            ({
                let all = old(self).held() + input@;
                let len = old(self).len();
                let n = all.len() as int / len;
                let before = old(out)@.len() as int;
                &&& final(self).held() == all.skip(n * len)
                &&& final(out)@.len() == before + n * len
                &&& final(out)@.take(before) == old(out)@
                &&& forall|k: int|
                    #![trigger is_frame(k, n)]
                    is_frame(k, n) ==> exists|frame: &mut [T]| #[trigger]
                        on_frame.ensures((frame,), ()) && (*frame)@ == frame_at(all, len, k)
                            && (*final(frame))@ == frame_at(final(out)@.skip(before), len, k)
            }),
    {
        let ghost f = on_frame;
        let mut callback = on_frame;
        let ghost all = self.pending@ + input@;
        let ghost len = self.frame_len as int;
        append_all(&mut self.pending, input);
        let ghost before = out@;
        let mut start: usize = 0;
        let ghost mut n: int = 0;
        assert(out@.take(before.len() as int) =~= before);
        while self.pending.len() - start >= self.frame_len
            invariant
                callback == f,
                len == self.frame_len,
                80 <= len <= 480,
                n >= 0,
                start == n * len,
                start <= self.pending@.len(),
                self.pending@ == all,
                out@.len() == before.len() + start,
                out@.take(before.len() as int) == before,
                forall|frame: &mut [T]|
                    (*frame)@.len() == len ==> #[trigger] f.requires((frame,)),
                forall|frame: &mut [T]| #[trigger]
                    f.ensures((frame,), ()) ==> (*final(frame))@.len() == (*frame)@.len(),
                forall|k: int|
                    #![trigger is_frame(k, n)]
                    is_frame(k, n) ==> exists|frame: &mut [T]| #[trigger]
                        f.ensures((frame,), ()) && (*frame)@ == frame_at(all, len, k)
                            && (*final(frame))@ == frame_at(
                            out@.skip(before.len() as int),
                            len,
                            k,
                        ),
            decreases self.pending@.len() - start,
        {
            let ghost earlier = out@;
            let mut frame: Vec<T> = Vec::new();
            let end: usize = start + self.frame_len;
            for i in start..end
                invariant
                    start <= end <= self.pending@.len(),
                    frame@ == self.pending@.subrange(start as int, i as int),
            {
                frame.push(self.pending[i]);
            }
            assert(frame@ =~= frame_at(all, len, n));
            callback(frame.as_mut_slice());
            append_all(out, frame.as_slice());
            start = end;
            proof {
                assert((n + 1) * len == n * len + len) by (nonlinear_arith);
                assert(out@.take(before.len() as int) =~= before);
                let b = before.len() as int;
                assert(frame_at(out@.skip(b), len, n) =~= frame@);
                assert forall|k: int| #![trigger is_frame(k, n + 1)] is_frame(k, n + 1) implies
                    exists|r: &mut [T]| #[trigger]
                    f.ensures((r,), ()) && (*r)@ == frame_at(all, len, k) && (*final(r))@
                        == frame_at(out@.skip(b), len, k) by {
                    if k < n {
                        assert(is_frame(k, n));
                        assert(k * len + len <= n * len) by (nonlinear_arith)
                            requires
                                0 <= k < n,
                                len > 0,
                        ;
                        assert(0 <= k * len) by (nonlinear_arith)
                            requires
                                0 <= k,
                                len > 0,
                        ;
                        assert(frame_at(out@.skip(b), len, k) =~= frame_at(
                            earlier.skip(b),
                            len,
                            k,
                        ));
                    }
                }
                n = n + 1;
            }
        }
        proof {
            assert(all.len() as int / len == n) by (nonlinear_arith)
                requires
                    n * len <= all.len() < n * len + len,
                    len > 0,
                    n >= 0,
            ;
        }
        let mut rest: Vec<T> = Vec::new();
        for i in start..self.pending.len()
            invariant
                start <= self.pending@.len(),
                rest@ == self.pending@.subrange(start as int, i as int),
        {
            rest.push(self.pending[i]);
        }
        assert(rest@ =~= all.skip(n * len));
        self.pending = rest;
    }

    /// Drops anything held back, so that unrelated audio is not spliced together.
    pub fn reset(&mut self)
        requires
            old(self).wf(),
        ensures
            final(self).wf(),
            final(self).len() == old(self).len(),
            final(self).held() == Seq::<T>::empty(),
    {
        self.pending = Vec::new();
    }
}

/// Nothing is lost and nothing invented: where the callback leaves the frames as
/// they are, what came out and what is held back make up what went in.
pub proof fn law_every_sample_is_emitted_once<T>(all: Seq<T>, out: Seq<T>, len: int, n: int)
    requires
        len > 0,
        n >= 0,
        n * len <= all.len(),
        out.len() == n * len,
        forall|k: int| #[trigger]
            is_frame(k, n) ==> frame_at(out, len, k) == frame_at(all, len, k),
    ensures
        out + all.skip(n * len) == all,
{
    assert forall|i: int| 0 <= i < out.len() implies out[i] == all[i] by {
        let k = i / len;
        assert(k * len <= i < k * len + len && 0 <= k < n) by (nonlinear_arith)
            requires
                k == i / len,
                0 <= i < n * len,
                len > 0,
        ;
        assert(k * len + len <= n * len) by (nonlinear_arith)
            requires
                0 <= k < n,
                len > 0,
        ;
        assert(is_frame(k, n));
        assert(frame_at(out, len, k)[i - k * len] == out[i]);
        assert(frame_at(all, len, k)[i - k * len] == all[i]);
    }
    assert(out + all.skip(n * len) =~= all);
}

/// It does not matter how the samples were cut up: frames and remainder after
/// `a` and then `b` are those after both at once.
pub proof fn law_chunking_does_not_matter<T>(a: Seq<T>, b: Seq<T>, len: int)
    requires
        len > 0,
    ensures
        ({
            let n1 = a.len() as int / len;
            let rest = a.skip(n1 * len) + b;
            let n2 = rest.len() as int / len;
            &&& (a + b).len() as int / len == n1 + n2
            &&& rest.skip(n2 * len) == (a + b).skip((n1 + n2) * len)
            &&& forall|k: int| #[trigger]
                is_frame(k, n2) ==> frame_at(rest, len, k) == frame_at(a + b, len, n1 + k)
        }),
{
    let n1 = a.len() as int / len;
    let rest = a.skip(n1 * len) + b;
    let n2 = rest.len() as int / len;
    assert(0 <= n1 * len <= a.len()) by (nonlinear_arith)
        requires
            n1 == a.len() as int / len,
            len > 0,
    ;
    let r = rest.len() as int;
    assert(0 <= n2 * len <= r < n2 * len + len && n2 >= 0) by (nonlinear_arith)
        requires
            n2 == r / len,
            r >= 0,
            len > 0,
    ;
    assert((n1 + n2) * len == n1 * len + n2 * len) by (nonlinear_arith);
    let total = (a + b).len() as int;
    assert(total / len == n1 + n2) by (nonlinear_arith)
        requires
            (n1 + n2) * len <= total < (n1 + n2) * len + len,
            len > 0,
    ;
    assert(rest =~= (a + b).skip(n1 * len));
    assert(rest.skip(n2 * len) =~= (a + b).skip((n1 + n2) * len));
    assert forall|k: int| #[trigger] is_frame(k, n2) implies frame_at(rest, len, k) == frame_at(
        a + b,
        len,
        n1 + k,
    ) by {
        assert((n1 + k) * len == n1 * len + k * len) by (nonlinear_arith);
        assert(0 <= k * len && k * len + len <= n2 * len) by (nonlinear_arith)
            requires
                0 <= k < n2,
                len > 0,
        ;
        assert(frame_at(rest, len, k) =~= frame_at(a + b, len, n1 + k));
    }
}

/// Frame `k` holds the samples from `k` times its length on, in order.
pub proof fn law_frames_lie_end_to_end<T>(s: Seq<T>, len: int, k: int, n: int, i: int)
    requires
        0 < len,
        0 <= k,
        k * len + len <= s.len(),
        0 <= i < len,
    ensures
        frame_at(s, len, k).len() == len,
        frame_at(s, len, k)[i] == s[k * len + i],
        is_frame(k, n) <==> k < n,
{
    assert(0 <= k * len) by (nonlinear_arith)
        requires
            0 <= k,
            0 < len,
    ;
}

} // verus!
