//! Samples on their way from the network to a playback device.

use std::collections::VecDeque;

use vstd::prelude::*;

verus! {

/// A queue of samples that begins to play once 60 ms of them have gathered, and
/// keeps half a second of them at most.
pub struct PlayoutBuffer<T> {
    samples: VecDeque<T>,
    playing: bool,
    wanted: usize,
    limit: usize,
}

/// What a playout buffer holds.
pub struct PlayoutState<T> {
    /// The samples, the next one to play first.
    pub samples: Seq<T>,
    /// Whether samples are played.
    pub playing: bool,
    /// How many samples it waits for before it plays.
    pub wanted: int,
    /// How many samples it keeps at most.
    pub limit: int,
}

/// The buffer once samples have come: the oldest leave where there are too many.
pub open spec fn with_new<T>(state: PlayoutState<T>, new: Seq<T>) -> PlayoutState<T> {
    let excess = state.samples.len() + new.len() - state.limit;
    PlayoutState {
        samples: if excess > 0 {
            state.samples.skip(excess) + new
        } else {
            state.samples + new
        },
        ..state
    }
}

/// Whether the buffer plays samples when the device next asks.
pub open spec fn plays<T>(state: PlayoutState<T>) -> bool {
    &&& state.samples.len() > 0
    &&& state.playing || state.samples.len() >= state.wanted
}

/// The buffer once a device has asked for `len` samples. Where it has run empty
/// it waits again.
pub open spec fn after_fill<T>(state: PlayoutState<T>, len: int) -> PlayoutState<T> {
    if plays(state) {
        PlayoutState {
            playing: true,
            samples: if len <= state.samples.len() {
                state.samples.skip(len)
            } else {
                Seq::empty()
            },
            ..state
        }
    } else {
        PlayoutState { playing: false, ..state }
    }
}

/// The sample that a device gets in place `i`.
pub open spec fn played<T>(state: PlayoutState<T>, silence: T, i: int) -> T {
    if plays(state) && i < state.samples.len() {
        state.samples[i]
    } else {
        silence
    }
}

impl<T: Copy> PlayoutBuffer<T> {
    /// What it holds.
    pub closed spec fn state(&self) -> PlayoutState<T> {
        PlayoutState {
            samples: self.samples@,
            playing: self.playing,
            wanted: self.wanted as int,
            limit: self.limit as int,
        }
    }

    /// An empty buffer for a device with this rate.
    pub fn new(device_rate: u32) -> (buffer: Self)
        ensures
            buffer.state() == (PlayoutState::<T> {
                samples: Seq::empty(),
                playing: false,
                wanted: device_rate * 60 / 1000,
                limit: (device_rate / 2) as int,
            }),
    {
        PlayoutBuffer {
            samples: VecDeque::new(),
            playing: false,
            wanted: (device_rate as u64 * 60 / 1000) as usize,
            limit: (device_rate / 2) as usize,
        }
    }

    /// Adds samples.
    pub fn push(&mut self, new: &[T])
        requires
            new@.len() <= old(self).state().limit,
            old(self).state().samples.len() <= old(self).state().limit,
        ensures
            final(self).state() == with_new(old(self).state(), new@),
            final(self).state().samples.len() <= final(self).state().limit,
    {
        let ghost before = self.samples@;
        let room: usize = self.limit - new.len();
        let ghost mut gone: int = 0;
        assert(before.skip(0) =~= before);
        while self.samples.len() > room
            invariant
                0 <= gone <= before.len(),
                self.samples@ == before.skip(gone),
                self.limit == old(self).limit,
                self.wanted == old(self).wanted,
                self.playing == old(self).playing,
                gone > 0 ==> self.samples@.len() >= room,
            decreases self.samples@.len(),
        {
            let _ = self.samples.pop_front();
            proof {
                gone = gone + 1;
                assert(self.samples@ =~= before.skip(gone));
            }
        }
        let ghost kept = self.samples@;
        assert(kept + new@.take(0) =~= kept);
        for i in 0..new.len()
            invariant
                self.samples@ == kept + new@.take(i as int),
                self.limit == old(self).limit,
                self.wanted == old(self).wanted,
                self.playing == old(self).playing,
        {
            self.samples.push_back(new[i]);
            assert(self.samples@ =~= kept + new@.take(i + 1));
        }
        assert(new@.take(new@.len() as int) =~= new@);
    }

    /// Gives a device `len` samples: silence while the buffer waits, and behind
    /// its last sample.
    pub fn fill(&mut self, len: usize, silence: T) -> (out: Vec<T>)
        ensures
            out@.len() == len,
            forall|i: int|
                0 <= i < len ==> #[trigger] out@[i] == played(old(self).state(), silence, i),
            final(self).state() == after_fill(old(self).state(), len as int),
    {
        let ghost state = self.state();
        let ghost all = self.samples@;
        let on = self.samples.len() > 0 && (self.playing || self.samples.len() >= self.wanted);
        self.playing = on;
        let mut out: Vec<T> = Vec::new();
        assert(all.skip(0) =~= all);
        for i in 0..len
            invariant
                out@.len() == i,
                on == plays(state),
                state.samples == all,
                self.playing == on,
                self.limit == old(self).limit,
                self.wanted == old(self).wanted,
                self.samples@ == if !on {
                    all
                } else if i <= all.len() {
                    all.skip(i as int)
                } else {
                    Seq::empty()
                },
                forall|j: int| 0 <= j < i ==> #[trigger] out@[j] == played(state, silence, j),
        {
            if on {
                match self.samples.pop_front() {
                    Some(sample) => {
                        out.push(sample);
                    },
                    None => {
                        out.push(silence);
                    },
                }
                assert(i < all.len() ==> self.samples@ =~= all.skip(i + 1));
                assert(i >= all.len() ==> self.samples@ =~= Seq::empty());
            } else {
                out.push(silence);
            }
        }
        out
    }

    /// The number of samples in the buffer.
    pub fn len(&self) -> (n: usize)
        ensures
            n == self.state().samples.len(),
    {
        self.samples.len()
    }

    /// The most samples that fit.
    pub fn limit(&self) -> (n: usize)
        ensures
            n == self.state().limit,
    {
        self.limit
    }
}

/// The newest samples are never the ones to leave.
pub proof fn law_new_samples_stay<T>(state: PlayoutState<T>, new: Seq<T>)
    requires
        state.samples.len() <= state.limit,
        new.len() <= state.limit,
    ensures
        with_new(state, new).samples.len() <= state.limit,
        with_new(state, new).samples.skip(with_new(state, new).samples.len() - new.len()) == new,
{
    let after = with_new(state, new).samples;
    assert(after.skip(after.len() - new.len()) =~= new);
}

/// A device gets the samples in order, without a gap, for as long as there are
/// any: two requests in a row get what one request for both would have got.
pub proof fn law_requests_join<T>(state: PlayoutState<T>, silence: T, a: int, b: int, i: int)
    requires
        plays(state),
        0 <= a,
        0 <= b,
        a + b <= state.samples.len(),
        0 <= i < b,
    ensures
        played(after_fill(state, a), silence, i) == played(state, silence, a + i),
        after_fill(after_fill(state, a), b).samples == after_fill(state, a + b).samples,
{
    assert(state.samples.skip(a).skip(b) =~= state.samples.skip(a + b));
}

/// What comes joins behind what is there; where that is too much, the oldest samples
/// leave, just as many as have to.
pub proof fn law_oldest_samples_leave<T>(state: PlayoutState<T>, new: Seq<T>)
    requires
        state.samples.len() <= state.limit,
        new.len() <= state.limit,
    ensures
        ({
            let all = state.samples + new;
            let after = with_new(state, new);
            &&& all.len() <= state.limit ==> after.samples == all
            &&& all.len() > state.limit ==> after.samples.len() == state.limit && after.samples
                == all.skip(all.len() - state.limit)
            &&& after.playing == state.playing
            &&& after.wanted == state.wanted
            &&& after.limit == state.limit
        }),
{
    let all = state.samples + new;
    let after = with_new(state, new);
    if all.len() > state.limit {
        assert(after.samples =~= all.skip(all.len() - state.limit));
    }
}

/// Playing begins when enough samples have gathered, goes on while there are any,
/// and begins anew once they have run out. While it waits a device gets silence and
/// nothing is used up; while it plays, the samples in order and then silence.
pub proof fn law_playing_begins_when_enough_is_there<T>(
    state: PlayoutState<T>,
    silence: T,
    len: int,
    i: int,
)
    requires
        0 <= i < len,
    ensures
        ({
            let n = state.samples.len();
            let after = after_fill(state, len);
            let enough = n > 0 && (state.playing || n >= state.wanted);
            &&& enough && i < n ==> played(state, silence, i) == state.samples[i]
            &&& enough && i >= n ==> played(state, silence, i) == silence
            &&& !enough ==> played(state, silence, i) == silence
            &&& after.playing == enough
            &&& !enough ==> after.samples == state.samples
            &&& enough && n <= len ==> after.samples.len() == 0
            &&& enough && n > len ==> after.samples == state.samples.subrange(len, n as int)
            &&& after.wanted == state.wanted && after.limit == state.limit
        }),
{
    let n = state.samples.len() as int;
    if n > len {
        assert(state.samples.skip(len) =~= state.samples.subrange(len, n));
    }
}

} // verus!
