//! Audio devices: which one to open, and the buffers between a device's
//! callbacks and the engine. The devices themselves are the caller's.

use std::collections::VecDeque;

use vstd::prelude::*;

use crate::error::Error;

verus! {

/// Information about an audio device.
#[derive(Debug, Clone)]
pub struct AudioDevice {
    /// Device name/identifier
    pub name: String,
    /// Whether this is the default device
    pub is_default: bool,
}

/// Lists of available audio devices.
#[derive(Debug, Clone)]
pub struct AudioDevices {
    /// Available input (microphone) devices
    pub input_devices: Vec<AudioDevice>,
    /// Available output (speaker) devices
    pub output_devices: Vec<AudioDevice>,
}

impl Default for AudioDevices {
    fn default() -> (devices: Self)
        ensures
            devices.input_devices@.len() == 0,
            devices.output_devices@.len() == 0,
    {
        AudioDevices { input_devices: Vec::new(), output_devices: Vec::new() }
    }
}

/// Whether `name` is the name of the default device.
pub open spec fn is_default_name(name: String, default: Option<String>) -> bool {
    default matches Some(d) && d@ == name@
}

/// The devices with the given names, the default one marked.
pub fn mark_default(names: &Vec<String>, default: &Option<String>) -> (devices: Vec<AudioDevice>)
    ensures
        devices@.len() == names@.len(),
        forall|i: int|
            0 <= i < names@.len() ==> (#[trigger] devices@[i]).name@ == names@[i]@
                && devices@[i].is_default == is_default_name(names@[i], *default),
{
    let mut devices: Vec<AudioDevice> = Vec::new();
    for i in 0..names.len()
        invariant
            devices@.len() == i,
            forall|j: int|
                0 <= j < i ==> (#[trigger] devices@[j]).name@ == names@[j]@
                    && devices@[j].is_default == is_default_name(names@[j], *default),
    {
        let is_default = match default {
            Some(d) => *d == names[i],
            None => false,
        };
        devices.push(AudioDevice { name: names[i].clone(), is_default });
    }
    devices
}

/// Both lists of devices; the first error where one could not be had.
pub fn list_all_devices(
    inputs: Result<Vec<AudioDevice>, Error>,
    outputs: Result<Vec<AudioDevice>, Error>,
) -> (devices: Result<AudioDevices, Error>)
    ensures
        match (inputs, outputs) {
            (Ok(i), Ok(o)) => devices == Ok::<AudioDevices, Error>(
                AudioDevices { input_devices: i, output_devices: o },
            ),
            (Err(e), _) => devices == Err::<AudioDevices, Error>(e),
            (_, Err(e)) => devices == Err::<AudioDevices, Error>(e),
        },
{
    match inputs {
        Ok(input_devices) => match outputs {
            Ok(output_devices) => Ok(AudioDevices { input_devices, output_devices }),
            Err(e) => Err(e),
        },
        Err(e) => Err(e),
    }
}

/// A name behind the word for its direction.
fn labelled(label: &str, name: &String) -> (text: String)
    ensures
        text@ == label@ + name@,
{
    let mut text = label.to_string();
    text.append(name.as_str());
    text
}

/// One list of all devices: inputs, then outputs, each with its direction.
pub fn device_labels(inputs: &Vec<String>, outputs: &Vec<String>) -> (labels: Vec<String>)
    ensures
        labels@.len() == inputs@.len() + outputs@.len(),
        forall|i: int|
            0 <= i < inputs@.len() ==> (#[trigger] labels@[i])@ == "Input: "@ + inputs@[i]@,
        forall|i: int|
            0 <= i < outputs@.len() ==> (#[trigger] labels@[inputs@.len() + i])@ == "Output: "@
                + outputs@[i]@,
{
    let mut labels: Vec<String> = Vec::new();
    for i in 0..inputs.len()
        invariant
            labels@.len() == i,
            forall|j: int| 0 <= j < i ==> (#[trigger] labels@[j])@ == "Input: "@ + inputs@[j]@,
    {
        labels.push(labelled("Input: ", &inputs[i]));
    }
    for i in 0..outputs.len()
        invariant
            labels@.len() == inputs@.len() + i,
            forall|j: int|
                0 <= j < inputs@.len() ==> (#[trigger] labels@[j])@ == "Input: "@ + inputs@[j]@,
            forall|j: int|
                0 <= j < i ==> (#[trigger] labels@[inputs@.len() + j])@ == "Output: "@
                    + outputs@[j]@,
    {
        labels.push(labelled("Output: ", &outputs[i]));
    }
    labels
}

/// Which device to open.
#[derive(Debug, Clone, Copy, PartialEq, Eq, Structural)]
pub enum DeviceChoice {
    /// The one at this place of the enumeration.
    Listed(usize),
    /// The system's default.
    Default,
}

/// Whether the device at `i` has the wanted name. A device that could not be
/// described has none.
pub open spec fn has_name(names: Seq<Option<String>>, i: int, wanted: Seq<char>) -> bool {
    names[i] matches Some(name) && name@ == wanted
}

/// Picks the first device with the wanted name, the default where there is none
/// or no name is wanted.
pub fn choose_device(names: &Vec<Option<String>>, wanted: &Option<String>) -> (choice: DeviceChoice)
    ensures
        match choice {
            DeviceChoice::Listed(i) => {
                &&& i < names@.len()
                &&& wanted matches Some(w) && has_name(names@, i as int, w@) && forall|j: int|
                    0 <= j < i ==> !has_name(names@, j, w@)
            },
            DeviceChoice::Default => wanted matches Some(w) ==> forall|j: int|
                0 <= j < names@.len() ==> !has_name(names@, j, w@),
        },
{
    match wanted {
        Some(w) => {
            for i in 0..names.len()
                invariant
                    *wanted == Some(*w),
                    forall|j: int| 0 <= j < i ==> !has_name(names@, j, w@),
            {
                match &names[i] {
                    Some(name) => {
                        if *name == *w {
                            return DeviceChoice::Listed(i);
                        }
                    },
                    None => {},
                }
            }
            DeviceChoice::Default
        },
        None => DeviceChoice::Default,
    }
}

/// The values of `s` from `from` on.
fn tail<T: Copy>(s: &Vec<T>, from: usize) -> (out: Vec<T>)
    requires
        from <= s@.len(),
    ensures
        out@ == s@.skip(from as int),
{
    let mut out: Vec<T> = Vec::new();
    for i in from..s.len()
        invariant
            from <= s@.len(),
            out@ == s@.subrange(from as int, i as int),
    {
        out.push(s[i]);
    }
    assert(out@ =~= s@.skip(from as int));
    out
}

/// Keeps a capture buffer to about one second: while it is longer, the oldest
/// tenth of a second leaves.
pub fn limit_capture<T: Copy>(buf: &mut Vec<T>, device_rate: u32) -> (dropped: usize)
    requires
        device_rate >= 10,
    ensures
        final(buf)@ == old(buf)@.skip(dropped as int),
        final(buf)@.len() <= device_rate,
        dropped <= old(buf)@.len(),
        dropped as int % (device_rate as int / 10) == 0,
        dropped > 0 ==> old(buf)@.len() - dropped + device_rate as int / 10 > device_rate,
{
    let step: usize = (device_rate / 10) as usize;
    let limit: usize = device_rate as usize;
    let mut from: usize = 0;
    assert(0int % (step as int) == 0) by (nonlinear_arith)
        requires
            step > 0,
    ;
    while buf.len() - from > limit
        invariant
            buf@ == old(buf)@,
            from <= buf@.len(),
            step == device_rate as int / 10,
            step > 0,
            limit == device_rate,
            from as int % (step as int) == 0,
            from > 0 ==> buf@.len() - from + step > limit,
        decreases buf@.len() - from,
    {
        assert((from + step) % (step as int) == 0) by (nonlinear_arith)
            requires
                from as int % (step as int) == 0,
                step > 0,
        ;
        from = from + step;
    }
    *buf = tail(buf, from);
    from
}

/// Takes up to `wanted` samples from the front of a capture buffer.
pub fn take_front<T: Copy>(buf: &mut Vec<T>, wanted: usize) -> (taken: Vec<T>)
    ensures
        ({
            let n = if wanted <= old(buf)@.len() {
                wanted as int
            } else {
                old(buf)@.len() as int
            };
            &&& taken@ == old(buf)@.take(n)
            &&& final(buf)@ == old(buf)@.skip(n)
        }),
{
    let n: usize = if wanted <= buf.len() {
        wanted
    } else {
        buf.len()
    };
    let mut taken: Vec<T> = Vec::new();
    for i in 0..n
        invariant
            n <= buf@.len(),
            buf@ == old(buf)@,
            taken@ == buf@.take(i as int),
    {
        taken.push(buf[i]);
        assert(taken@ =~= buf@.take(i + 1));
    }
    *buf = tail(buf, n);
    taken
}

/// Samples on their way to a playback device, about one second of them at most.
#[derive(Debug)]
pub struct PlaybackQueue<T> {
    samples: VecDeque<T>,
    limit: usize,
}

impl<T: Copy> PlaybackQueue<T> {
    /// The samples, the next one to play first.
    pub closed spec fn queued(&self) -> Seq<T> {
        self.samples@
    }

    /// The most samples it keeps.
    pub closed spec fn limit(&self) -> int {
        self.limit as int
    }

    /// Whether it keeps to its limit.
    pub open spec fn wf(&self) -> bool {
        self.queued().len() <= self.limit()
    }

    /// An empty queue for a device with this rate.
    pub fn new(device_rate: u32) -> (queue: Self)
        ensures
            queue.wf(),
            queue.queued() == Seq::<T>::empty(),
            queue.limit() == device_rate,
    {
        PlaybackQueue { samples: VecDeque::new(), limit: device_rate as usize }
    }

    /// Queues samples; the oldest leave where there are too many.
    pub fn write(&mut self, samples: &[T])
        requires
            old(self).wf(),
        ensures
            final(self).wf(),
            final(self).limit() == old(self).limit(),
            ({
                let all = old(self).queued() + samples@;
                final(self).queued() == if all.len() > old(self).limit() {
                    all.skip(all.len() - old(self).limit())
                } else {
                    all
                }
            }),
    {
        let ghost before = self.samples@;
        for i in 0..samples.len()
            invariant
                self.samples@ == before + samples@.take(i as int),
                self.limit == old(self).limit,
        {
            self.samples.push_back(samples[i]);
            assert(self.samples@ =~= before + samples@.take(i + 1));
        }
        let ghost all = before + samples@;
        assert(samples@.take(samples@.len() as int) =~= samples@);
        let ghost mut gone: int = 0;
        assert(all.skip(0) =~= all);
        while self.samples.len() > self.limit
            invariant
                0 <= gone <= all.len(),
                self.samples@ == all.skip(gone),
                self.limit == old(self).limit,
                gone > 0 ==> self.samples@.len() >= self.limit,
            decreases self.samples@.len(),
        {
            let _ = self.samples.pop_front();
            proof {
                gone = gone + 1;
                assert(self.samples@ =~= all.skip(gone));
            }
        }
    }

    /// Fills a device's buffer from the queue, and what it cannot with silence.
    pub fn fill(&mut self, len: usize, silence: T) -> (out: Vec<T>)
        requires
            old(self).wf(),
        ensures
            final(self).wf(),
            final(self).limit() == old(self).limit(),
            out@.len() == len,
            forall|i: int|
                0 <= i < len ==> #[trigger] out@[i] == if i < old(self).queued().len() {
                    old(self).queued()[i]
                } else {
                    silence
                },
            final(self).queued() == if len <= old(self).queued().len() {
                old(self).queued().skip(len as int)
            } else {
                Seq::empty()
            },
    {
        let ghost all = self.samples@;
        let mut out: Vec<T> = Vec::new();
        assert(all.skip(0) =~= all);
        for i in 0..len
            invariant
                out@.len() == i,
                self.limit == old(self).limit,
                all == old(self).samples@,
                self.samples@ == if i <= all.len() {
                    all.skip(i as int)
                } else {
                    Seq::empty()
                },
                forall|j: int|
                    0 <= j < i ==> #[trigger] out@[j] == if j < all.len() {
                        all[j]
                    } else {
                        silence
                    },
        {
            match self.samples.pop_front() {
                Some(sample) => {
                    out.push(sample);
                },
                None => {
                    out.push(silence);
                },
            }
            assert(i < all.len() ==> self.samples@ =~= all.skip(i + 1));
            assert(i >= all.len() ==> self.samples@ =~= Seq::empty());
        }
        out
    }
}

/// A device is the default one where its name is that of the default; one that could not
/// be described has no name at all.
pub proof fn law_devices_go_by_their_names(
    name: String,
    default: Option<String>,
    names: Seq<Option<String>>,
    i: int,
    wanted: Seq<char>,
)
    ensures
        default matches Some(d) ==> (is_default_name(name, default) <==> d@ == name@),
        default is None ==> !is_default_name(name, default),
        names[i] matches Some(n) ==> (has_name(names, i, wanted) <==> n@ == wanted),
        names[i] is None ==> !has_name(names, i, wanted),
{
}

} // verus!
