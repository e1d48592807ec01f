//! Audio call recording.
//!
//! Collects the transmitted (TX) and received (RX) audio of a call and makes of
//! it a stereo WAV image, TX on the left and RX on the right. Files are the
//! caller's, and so is the sharing of a recorder between threads.

use std::path::PathBuf;

use vstd::prelude::*;

use crate::bytes;
use crate::text;

verus! {

/// `std::path::PathBuf`, carried through and never looked into.
#[verifier::external_type_specification]
#[verifier::external_body]
pub struct ExPathBuf(std::path::PathBuf);

/// Audio recorder that captures call audio for a WAV file.
#[derive(Debug)]
pub struct CallRecorder {
    recording: bool,
    tx_samples: Vec<i16>,
    rx_samples: Vec<i16>,
    output_path: PathBuf,
    sample_rate: u32,
}

/// What a recorder holds.
pub struct Recording {
    /// Whether samples are taken at the moment.
    pub active: bool,
    /// Transmitted samples.
    pub tx: Seq<i16>,
    /// Received samples.
    pub rx: Seq<i16>,
    /// Where the file goes.
    pub path: PathBuf,
    /// Sample rate.
    pub rate: u32,
}

impl View for CallRecorder {
    type V = Recording;

    closed spec fn view(&self) -> Recording {
        Recording {
            active: self.recording,
            tx: self.tx_samples@,
            rx: self.rx_samples@,
            path: self.output_path,
            rate: self.sample_rate,
        }
    }
}

/// The sample at `i`, silence behind the end.
pub open spec fn sample_at(samples: Seq<i16>, i: int) -> i16 {
    if i < samples.len() {
        samples[i]
    } else {
        0
    }
}

/// The bits of a sample as an unsigned number.
pub open spec fn sample_bits(sample: i16) -> u16 {
    (if sample < 0 {
        sample + 0x1_0000
    } else {
        sample as int
    }) as u16
}

/// The number of frames: the longer of the two channels.
pub open spec fn frame_count(tx: Seq<i16>, rx: Seq<i16>) -> nat {
    if tx.len() >= rx.len() {
        tx.len()
    } else {
        rx.len()
    }
}

/// The first `n` frames: left sample, right sample, little endian.
pub open spec fn frames_bytes(tx: Seq<i16>, rx: Seq<i16>, n: nat) -> Seq<u8>
    decreases n,
{
    if n == 0 {
        Seq::empty()
    } else {
        let i = n - 1;
        frames_bytes(tx, rx, i as nat) + bytes::le16(sample_bits(sample_at(tx, i))) + bytes::le16(
            sample_bits(sample_at(rx, i)),
        )
    }
}

/// The four bytes of a chunk name.
pub open spec fn tag(a: char, b: char, c: char, d: char) -> Seq<u8> {
    seq![a as u8, b as u8, c as u8, d as u8]
}

/// The size of the sample data, as the header has room for it.
pub open spec fn data_size(frames: nat) -> u32 {
    (frames * 4 % 0x1_0000_0000) as u32
}

/// The header of a 16-bit stereo WAV file.
pub open spec fn wav_header(rate: u32, frames: nat) -> Seq<u8> {
    tag('R', 'I', 'F', 'F') + bytes::le32((36 + data_size(frames)) as u32) + tag('W', 'A', 'V', 'E')
        + tag('f', 'm', 't', ' ') + bytes::le32(16) + bytes::le16(1) + bytes::le16(2) + bytes::le32(
        rate,
    ) + bytes::le32((rate * 4) as u32) + bytes::le16(4) + bytes::le16(16) + tag(
        'd',
        'a',
        't',
        'a',
    ) + bytes::le32(data_size(frames))
}

/// The WAV image of a recording.
pub open spec fn wav_image(rate: u32, tx: Seq<i16>, rx: Seq<i16>) -> Seq<u8> {
    wav_header(rate, frame_count(tx, rx)) + frames_bytes(tx, rx, frame_count(tx, rx))
}

/// Whether the numbers in the header of a recording fit their fields.
pub open spec fn header_fits(r: Recording) -> bool {
    &&& r.rate * 4 <= u32::MAX
    &&& frame_count(r.tx, r.rx) * 4 <= usize::MAX
    &&& 36 + data_size(frame_count(r.tx, r.rx)) <= u32::MAX
}

fn push_tag(out: &mut Vec<u8>, a: u8, b: u8, c: u8, d: u8)
    ensures
        final(out)@ == old(out)@ + seq![a, b, c, d],
{
    out.push(a);
    out.push(b);
    out.push(c);
    out.push(d);
}

fn push_sample(out: &mut Vec<u8>, samples: &Vec<i16>, i: usize)
    ensures
        final(out)@ == old(out)@ + bytes::le16(sample_bits(sample_at(samples@, i as int))),
{
    let sample: i16 = if i < samples.len() {
        samples[i]
    } else {
        0
    };
    let bits: u16 = if sample < 0 {
        (sample as i32 + 0x1_0000) as u16
    } else {
        sample as u16
    };
    bytes::push_le16(out, bits);
}

impl CallRecorder {
    /// Creates a new call recorder.
    pub fn new(output_path: PathBuf, sample_rate: u32) -> (recorder: Self)
        ensures
            recorder@ == (Recording {
                active: false,
                tx: Seq::empty(),
                rx: Seq::empty(),
                path: output_path,
                rate: sample_rate,
            }),
    {
        CallRecorder {
            recording: false,
            tx_samples: Vec::new(),
            rx_samples: Vec::new(),
            output_path,
            sample_rate,
        }
    }

    /// Starts recording.
    pub fn start(&mut self)
        ensures
            final(self)@ == (Recording { active: true, ..old(self)@ }),
    {
        self.recording = true;
    }

    /// Stops recording; returns the WAV image to write to the output path, or
    /// nothing where no audio was recorded.
    pub fn stop(&mut self) -> (image: Option<Vec<u8>>)
        requires
            header_fits(old(self)@),
        ensures
            final(self)@ == (Recording { active: false, ..old(self)@ }),
            match image {
                Some(wav) => {
                    &&& frame_count(old(self)@.tx, old(self)@.rx) > 0
                    &&& wav@ == wav_image(old(self)@.rate, old(self)@.tx, old(self)@.rx)
                },
                None => frame_count(old(self)@.tx, old(self)@.rx) == 0,
            },
    {
        self.recording = false;
        self.write_wav()
    }

    /// The WAV image of the recorded audio, or nothing where there is none.
    pub fn write_wav(&self) -> (image: Option<Vec<u8>>)
        requires
            header_fits(self@),
        ensures
            match image {
                Some(wav) => {
                    &&& frame_count(self@.tx, self@.rx) > 0
                    &&& wav@ == wav_image(self@.rate, self@.tx, self@.rx)
                },
                None => frame_count(self@.tx, self@.rx) == 0,
            },
    {
        if self.tx_samples.len() == 0 && self.rx_samples.len() == 0 {
            return None;
        }
        let frames: usize = if self.tx_samples.len() >= self.rx_samples.len() {
            self.tx_samples.len()
        } else {
            self.rx_samples.len()
        };
        let size: u32 = (frames as u64 * 4 % 0x1_0000_0000) as u32;
        let mut out: Vec<u8> = Vec::new();
        push_tag(&mut out, 82, 73, 70, 70);
        bytes::push_le32(&mut out, 36 + size);
        push_tag(&mut out, 87, 65, 86, 69);
        push_tag(&mut out, 102, 109, 116, 32);
        bytes::push_le32(&mut out, 16);
        bytes::push_le16(&mut out, 1);
        bytes::push_le16(&mut out, 2);
        bytes::push_le32(&mut out, self.sample_rate);
        bytes::push_le32(&mut out, self.sample_rate * 4);
        bytes::push_le16(&mut out, 4);
        bytes::push_le16(&mut out, 16);
        push_tag(&mut out, 100, 97, 116, 97);
        bytes::push_le32(&mut out, size);
        let ghost header = wav_header(self.sample_rate, frames as nat);
        assert(out@ =~= header);
        assert(out@ =~= header + frames_bytes(self.tx_samples@, self.rx_samples@, 0));
        for i in 0..frames
            invariant
                out@ == header + frames_bytes(self.tx_samples@, self.rx_samples@, i as nat),
        {
            push_sample(&mut out, &self.tx_samples, i);
            push_sample(&mut out, &self.rx_samples, i);
            assert(out@ =~= header + frames_bytes(
                self.tx_samples@,
                self.rx_samples@,
                (i + 1) as nat,
            ));
        }
        Some(out)
    }

    /// Whether the numbers in the header of the recording fit their fields.
    pub fn can_write(&self) -> (yes: bool)
        ensures
            yes == header_fits(self@),
    {
        let frames: usize = if self.tx_samples.len() >= self.rx_samples.len() {
            self.tx_samples.len()
        } else {
            self.rx_samples.len()
        };
        self.sample_rate <= u32::MAX / 4 && frames <= usize::MAX / 4 && frames as u64 * 4
            % 0x1_0000_0000 <= 0xffff_ffff - 36
    }

    /// Whether recording is on.
    pub fn is_recording(&self) -> (yes: bool)
        ensures
            yes == self@.active,
    {
        self.recording
    }

    /// A handle for recording TX (transmitted/microphone) audio.
    pub fn tx_handle(&self) -> (handle: RecorderHandle)
        ensures
            handle == (RecorderHandle { channel: Channel::Tx }),
    {
        RecorderHandle { channel: Channel::Tx }
    }

    /// A handle for recording RX (received/speaker) audio.
    pub fn rx_handle(&self) -> (handle: RecorderHandle)
        ensures
            handle == (RecorderHandle { channel: Channel::Rx }),
    {
        RecorderHandle { channel: Channel::Rx }
    }

    /// The output path.
    pub fn output_path(&self) -> (path: &PathBuf)
        ensures
            *path == self@.path,
    {
        &self.output_path
    }
}

/// The two directions of a call.
#[derive(Debug, Clone, Copy, PartialEq, Eq, Structural)]
pub enum Channel {
    /// Transmitted.
    Tx,
    /// Received.
    Rx,
}

/// Handle for adding samples to one channel of a recorder.
#[derive(Debug, Clone, Copy, PartialEq, Eq, Structural)]
pub struct RecorderHandle {
    /// The channel.
    pub channel: Channel,
}

/// The recording once `samples` have been offered to a channel: they are taken
/// while it is active.
pub open spec fn with_samples(r: Recording, channel: Channel, samples: Seq<i16>) -> Recording {
    if !r.active {
        r
    } else {
        match channel {
            Channel::Tx => Recording { tx: r.tx + samples, ..r },
            Channel::Rx => Recording { rx: r.rx + samples, ..r },
        }
    }
}

impl RecorderHandle {
    /// Adds samples if recording is active.
    pub fn add_samples(&self, recorder: &mut CallRecorder, samples: &[i16])
        ensures
            final(recorder)@ == with_samples(old(recorder)@, self.channel, samples@),
    {
        if recorder.recording {
            match self.channel {
                Channel::Tx => {
                    recorder.tx_samples.extend_from_slice(samples);
                    assert(recorder.tx_samples@ =~= old(recorder)@.tx + samples@);
                },
                Channel::Rx => {
                    recorder.rx_samples.extend_from_slice(samples);
                    assert(recorder.rx_samples@ =~= old(recorder)@.rx + samples@);
                },
            }
        }
    }

    /// Whether recording is active.
    pub fn is_recording(&self, recorder: &CallRecorder) -> (yes: bool)
        ensures
            yes == recorder@.active,
    {
        recorder.recording
    }
}

// ---- file names ----
/// Whether a character is a letter or a digit of any script.
pub uninterp spec fn alphanumeric(c: char) -> bool;

/// `char::is_alphanumeric` depends on the character alone; of the ASCII
/// characters it holds of the letters and digits.
pub assume_specification[ char::is_alphanumeric ](c: char) -> (yes: bool)
    ensures
        yes == alphanumeric(c),
        (c as u32) < 128 ==> yes == (('0' <= c && c <= '9') || ('A' <= c && c <= 'Z') || ('a' <= c
            && c <= 'z')),
;

/// `chrono::Local::now`, formatted as year, month, day, an underscore, hour,
/// minute and second: at least four digits for the year, with a sign in front of
/// one that is negative or has more, and two for each of the others. Which time
/// it is is not stated.
#[verifier::external_body]
fn local_timestamp() -> (timestamp: String)
    ensures
        is_timestamp(timestamp@),
{
    chrono::Local::now().format("%Y%m%d_%H%M%S").to_string()
}

/// Whether a character occurs in a timestamp.
pub open spec fn timestamp_char(c: char) -> bool {
    ('0' <= c && c <= '9') || c == '_' || c == '+' || c == '-'
}

/// Whether a text has the form of a timestamp: date, underscore, time.
pub open spec fn is_timestamp(t: Seq<char>) -> bool {
    let n = t.len() as int;
    &&& n >= 15
    &&& forall|i: int| 0 <= i < n ==> timestamp_char(#[trigger] t[i])
    &&& forall|i: int| 1 <= i < n && i != n - 7 ==> '0' <= #[trigger] t[i] <= '9'
    &&& t[n - 7] == '_'
    &&& t[0] != '_'
    &&& n == 15 ==> '0' <= t[0] <= '9'
}

/// A call id as it goes into a file name: at most 20 characters, and an
/// underscore for each that is no letter or digit.
pub open spec fn safe_id(call_id: Seq<char>) -> Seq<char> {
    Seq::new(
        if call_id.len() <= 20 {
            call_id.len()
        } else {
            20
        },
        |i: int|
            if alphanumeric(call_id[i]) {
                call_id[i]
            } else {
                '_'
            },
    )
}

/// Whether a name is one component of a path: it holds no separator.
pub open spec fn one_component(name: Seq<char>) -> bool {
    forall|i: int| 0 <= i < name.len() ==> #[trigger] name[i] != '/' && name[i] != '\\'
}

/// The name of the recording of a call that began at `timestamp`.
pub fn recording_filename(timestamp: &str, call_id: &str) -> (name: String)
    ensures
        name@ == "call_"@ + timestamp@ + "_"@ + safe_id(call_id@) + ".wav"@,
        one_component(safe_id(call_id@)),
        one_component(timestamp@) ==> one_component(name@),
{
    let chars = text::chars_of(call_id);
    let mut safe: Vec<char> = Vec::new();
    let n: usize = if chars.len() <= 20 {
        chars.len()
    } else {
        20
    };
    for i in 0..n
        invariant
            n <= chars@.len(),
            n == safe_id(chars@).len(),
            safe@.len() == i,
            forall|j: int| 0 <= j < i ==> safe@[j] == safe_id(chars@)[j],
            one_component(safe@),
    {
        if chars[i].is_alphanumeric() {
            safe.push(chars[i]);
        } else {
            safe.push('_');
        }
    }
    assert(safe@ =~= safe_id(call_id@));
    let mut name = "call_".to_string();
    name.append(timestamp);
    name.append("_");
    name.append(text::text_of(safe.as_slice()).as_str());
    name.append(".wav");
    proof {
        reveal_strlit("call_");
        reveal_strlit("_");
        reveal_strlit(".wav");
        let (a, b, c) = (5 + timestamp@.len(), 6 + timestamp@.len(), 6 + timestamp@.len() + n);
        assert(one_component(timestamp@) ==> one_component(name@)) by {
            assert forall|i: int| one_component(timestamp@) && 0 <= i < name@.len() implies
                #[trigger] name@[i] != '/' && name@[i] != '\\' by {
                if 5 <= i < a {
                    assert(name@[i] == timestamp@[i - 5]);
                } else if b <= i < c {
                    assert(name@[i] == safe@[i - b]);
                }
            }
        }
    }
    name
}

/// Generates a recording file name with the present time, for the caller to put
/// into a directory.
pub fn generate_recording_filename(call_id: &str) -> (name: String)
    ensures
        exists|timestamp: Seq<char>| #[trigger]
            is_timestamp(timestamp) && name@ == "call_"@ + timestamp + "_"@ + safe_id(call_id@)
                + ".wav"@,
        one_component(name@),
{
    let timestamp = local_timestamp();
    assert(one_component(timestamp@)) by {
        assert forall|i: int| 0 <= i < timestamp@.len() implies #[trigger] timestamp@[i] != '/'
            && timestamp@[i] != '\\' by {
            assert(timestamp_char(timestamp@[i]));
        }
    }
    recording_filename(timestamp.as_str(), call_id)
}

// ---- what holds of the image ----
proof fn lemma_frames(tx: Seq<i16>, rx: Seq<i16>, n: nat)
    ensures
        frames_bytes(tx, rx, n).len() == n * 4,
        forall|i: int|
            0 <= i < n ==> (#[trigger] frames_bytes(tx, rx, n).subrange(i * 4, i * 4 + 4))
                == bytes::le16(sample_bits(sample_at(tx, i))) + bytes::le16(
                sample_bits(sample_at(rx, i)),
            ),
    decreases n,
{
    if n > 0 {
        let m = (n - 1) as nat;
        lemma_frames(tx, rx, m);
        let all = frames_bytes(tx, rx, n);
        let before = frames_bytes(tx, rx, m);
        assert forall|i: int| 0 <= i < n implies (#[trigger] all.subrange(i * 4, i * 4 + 4))
            == bytes::le16(sample_bits(sample_at(tx, i))) + bytes::le16(
            sample_bits(sample_at(rx, i)),
        ) by {
            if i < m {
                assert(all.subrange(i * 4, i * 4 + 4) =~= before.subrange(i * 4, i * 4 + 4));
            } else {
                assert(all.subrange(i * 4, i * 4 + 4) =~= bytes::le16(
                    sample_bits(sample_at(tx, i)),
                ) + bytes::le16(sample_bits(sample_at(rx, i))));
            }
        }
    }
}

proof fn lemma_header(rate: u32, frames: nat)
    ensures
        wav_header(rate, frames).len() == 44,
        wav_header(rate, frames).subrange(4, 8) == bytes::le32((36 + data_size(frames)) as u32),
        wav_header(rate, frames).subrange(40, 44) == bytes::le32(data_size(frames)),
{
    let header = wav_header(rate, frames);
    assert(header.subrange(4, 8) =~= bytes::le32((36 + data_size(frames)) as u32));
    assert(header.subrange(40, 44) =~= bytes::le32(data_size(frames)));
}

/// The image has a header of 44 bytes and four bytes for each frame, and where
/// its sizes fit their fields they are those of the file.
pub proof fn law_wav_sizes_are_those_of_the_file(rate: u32, tx: Seq<i16>, rx: Seq<i16>)
    ensures
        wav_image(rate, tx, rx).len() == 44 + frame_count(tx, rx) * 4,
        frame_count(tx, rx) * 4 + 36 <= u32::MAX ==> {
            &&& wav_image(rate, tx, rx).subrange(4, 8) == bytes::le32(
                (wav_image(rate, tx, rx).len() - 8) as u32,
            )
            &&& wav_image(rate, tx, rx).subrange(40, 44) == bytes::le32(
                (wav_image(rate, tx, rx).len() - 44) as u32,
            )
        },
{
    let n = frame_count(tx, rx);
    let frames = frames_bytes(tx, rx, n);
    assert(frames.len() == n * 4) by {
        lemma_frames(tx, rx, n);
    }
    lemma_header(rate, n);
    let header = wav_header(rate, n);
    let image = header + frames;
    assert(image.len() == 44 + n * 4);
    assert(image.subrange(4, 8) =~= header.subrange(4, 8));
    assert(image.subrange(40, 44) =~= header.subrange(40, 44));
    if n * 4 + 36 <= u32::MAX {
        assert(data_size(n) == n * 4);
        assert((image.len() - 8) as u32 == (36 + data_size(n)) as u32);
        assert((image.len() - 44) as u32 == data_size(n));
    }
}

/// Frame `i` of the image holds sample `i` of either channel, the shorter one
/// going on in silence.
pub proof fn law_wav_frames_hold_the_samples(rate: u32, tx: Seq<i16>, rx: Seq<i16>, i: int)
    requires
        0 <= i < frame_count(tx, rx),
    ensures
        wav_image(rate, tx, rx).subrange(44 + i * 4, 48 + i * 4) == bytes::le16(
            sample_bits(sample_at(tx, i)),
        ) + bytes::le16(sample_bits(sample_at(rx, i))),
{
    let n = frame_count(tx, rx);
    lemma_frames(tx, rx, n);
    lemma_header(rate, n);
    let part = frames_bytes(tx, rx, n).subrange(i * 4, i * 4 + 4);
    assert(wav_image(rate, tx, rx).subrange(44 + i * 4, 48 + i * 4) =~= part);
}

/// Whether `all` is `held` with `samples` behind it.
pub open spec fn joined(held: Seq<i16>, samples: Seq<i16>, all: Seq<i16>) -> bool {
    &&& all.len() == held.len() + samples.len()
    &&& forall|i: int| 0 <= i < held.len() ==> #[trigger] all[i] == held[i]
    &&& forall|i: int| 0 <= i < samples.len() ==> all[held.len() + i] == #[trigger] samples[i]
}

/// While recording is on, samples join what their channel holds, behind it; the
/// other channel and everything else stay as they are. While it is off nothing
/// changes.
pub proof fn law_samples_join_their_channel(r: Recording, channel: Channel, samples: Seq<i16>)
    ensures
        ({
            let after = with_samples(r, channel, samples);
            &&& r.active && channel == Channel::Tx ==> joined(r.tx, samples, after.tx) && after.rx
                == r.rx
            &&& r.active && channel == Channel::Rx ==> joined(r.rx, samples, after.rx) && after.tx
                == r.tx
            &&& after.active == r.active && after.path == r.path && after.rate == r.rate
            &&& !r.active ==> after == r
        }),
{
}

/// It does not matter how the samples of a channel were cut up.
pub proof fn law_cuts_do_not_matter(r: Recording, channel: Channel, a: Seq<i16>, b: Seq<i16>)
    ensures
        with_samples(with_samples(r, channel, a), channel, b) == with_samples(r, channel, a + b),
{
    assert(r.tx + a + b =~= r.tx + (a + b));
    assert(r.rx + a + b =~= r.rx + (a + b));
}

/// The two channels do not touch each other.
pub proof fn law_channels_are_independent(r: Recording, tx: Seq<i16>, rx: Seq<i16>)
    ensures
        with_samples(with_samples(r, Channel::Tx, tx), Channel::Rx, rx) == with_samples(
            with_samples(r, Channel::Rx, rx),
            Channel::Tx,
            tx,
        ),
{
}

/// The recording once all of `frames` have been offered to a channel.
pub open spec fn with_frames(r: Recording, channel: Channel, frames: Seq<Seq<i16>>) -> Recording
    decreases frames.len(),
{
    if frames.len() == 0 {
        r
    } else {
        with_samples(with_frames(r, channel, frames.drop_last()), channel, frames.last())
    }
}

/// Of a whole call every frame is kept, in order: a channel holds what it held and
/// then all frames, end to end.
pub proof fn law_every_frame_is_kept(r: Recording, channel: Channel, frames: Seq<Seq<i16>>)
    requires
        r.active,
    ensures
        ({
            let after = with_frames(r, channel, frames);
            &&& after.active
            &&& channel == Channel::Tx ==> after.tx == r.tx + frames.flatten() && after.rx == r.rx
            &&& channel == Channel::Rx ==> after.rx == r.rx + frames.flatten() && after.tx == r.tx
        }),
    decreases frames.len(),
{
    if frames.len() == 0 {
        assert(frames =~= Seq::empty());
        assert(r.tx + frames.flatten() =~= r.tx);
        assert(r.rx + frames.flatten() =~= r.rx);
    } else {
        let before = frames.drop_last();
        law_every_frame_is_kept(r, channel, before);
        let mid = with_frames(r, channel, before);
        law_samples_join_their_channel(mid, channel, frames.last());
        let after = with_samples(mid, channel, frames.last());
        match channel {
            Channel::Tx => {
                assert(after.tx =~= mid.tx + frames.last());
            },
            Channel::Rx => {
                assert(after.rx =~= mid.rx + frames.last());
            },
        }
        assert(frames =~= before.push(frames.last()));
        frames.lemma_flatten_and_flatten_alt_are_equivalent();
        before.lemma_flatten_and_flatten_alt_are_equivalent();
        assert(frames.flatten() =~= before.flatten() + frames.last());
        assert(r.tx + before.flatten() + frames.last() =~= r.tx + frames.flatten());
        assert(r.rx + before.flatten() + frames.last() =~= r.rx + frames.flatten());
    }
}

/// The header of the file, field by field: RIFF and WAVE, a format chunk for
/// uncompressed 16-bit stereo at the sample rate, and the data chunk.
pub proof fn law_wav_header_field_by_field(rate: u32, tx: Seq<i16>, rx: Seq<i16>)
    requires
        rate * 4 <= u32::MAX,
    ensures
        ({
            let h = wav_image(rate, tx, rx);
            &&& h.len() >= 44
            &&& h[0] == 0x52 && h[1] == 0x49 && h[2] == 0x46 && h[3] == 0x46
            &&& h[8] == 0x57 && h[9] == 0x41 && h[10] == 0x56 && h[11] == 0x45
            &&& h[12] == 0x66 && h[13] == 0x6d && h[14] == 0x74 && h[15] == 0x20
            &&& h[16] == 16 && h[17] == 0 && h[18] == 0 && h[19] == 0
            &&& h[20] == 1 && h[21] == 0
            &&& h[22] == 2 && h[23] == 0
            &&& h[24] + h[25] * 0x100 + h[26] * 0x1_0000 + h[27] * 0x100_0000 == rate
            &&& h[28] + h[29] * 0x100 + h[30] * 0x1_0000 + h[31] * 0x100_0000 == rate * 4
            &&& h[32] == 4 && h[33] == 0
            &&& h[34] == 16 && h[35] == 0
            &&& h[36] == 0x64 && h[37] == 0x61 && h[38] == 0x74 && h[39] == 0x61
        }),
{
    let h = wav_image(rate, tx, rx);
    let r = bytes::le32(rate);
    let b = bytes::le32((rate * 4) as u32);
    bytes::law_little_endian(0, rate);
    bytes::law_little_endian(0, (rate * 4) as u32);
    assert(h[24] == r[0] && h[25] == r[1] && h[26] == r[2] && h[27] == r[3]);
    assert(h[28] == b[0] && h[29] == b[1] && h[30] == b[2] && h[31] == b[3]);
}

/// The sizes in the header, where they fit their fields: of the file behind the
/// first eight bytes, and of the samples.
pub proof fn law_wav_sizes_in_the_header(rate: u32, tx: Seq<i16>, rx: Seq<i16>)
    requires
        tx.len() * 4 + 36 <= u32::MAX,
        rx.len() * 4 + 36 <= u32::MAX,
    ensures
        ({
            let h = wav_image(rate, tx, rx);
            let frames = if tx.len() > rx.len() {
                tx.len()
            } else {
                rx.len()
            };
            &&& h.len() == 44 + frames * 4
            &&& h[4] + h[5] * 0x100 + h[6] * 0x1_0000 + h[7] * 0x100_0000 == h.len() - 8
            &&& h[40] + h[41] * 0x100 + h[42] * 0x1_0000 + h[43] * 0x100_0000 == frames * 4
        }),
{
    law_wav_sizes_are_those_of_the_file(rate, tx, rx);
    let h = wav_image(rate, tx, rx);
    let a = (h.len() - 8) as u32;
    let b = (h.len() - 44) as u32;
    bytes::law_little_endian(0, a);
    bytes::law_little_endian(0, b);
    assert(forall|j: int| 0 <= j < 4 ==> h[4 + j] == #[trigger] h.subrange(4, 8)[j]);
    assert(forall|j: int| 0 <= j < 4 ==> h[40 + j] == #[trigger] h.subrange(40, 44)[j]);
    assert(h.subrange(4, 8)[0] == h[4] && h.subrange(4, 8)[1] == h[5] && h.subrange(4, 8)[2] == h[6]
        && h.subrange(4, 8)[3] == h[7]);
    assert(h.subrange(40, 44)[0] == h[40] && h.subrange(40, 44)[1] == h[41] && h.subrange(
        40,
        44,
    )[2] == h[42] && h.subrange(40, 44)[3] == h[43]);
}

/// Frame `i` of the file is the left sample, which was transmitted, and the right
/// one, which was received, each in two bytes, least significant first; the shorter
/// channel goes on with zeros.
pub proof fn law_wav_left_is_transmitted_right_is_received(
    rate: u32,
    tx: Seq<i16>,
    rx: Seq<i16>,
    i: int,
)
    requires
        0 <= i,
        i < tx.len() || i < rx.len(),
    ensures
        ({
            let h = wav_image(rate, tx, rx);
            let left = h[44 + i * 4] + h[45 + i * 4] * 256;
            let right = h[46 + i * 4] + h[47 + i * 4] * 256;
            &&& h.len() >= 48 + i * 4
            &&& i < tx.len() ==> left == tx[i] || left == tx[i] + 0x1_0000
            &&& i >= tx.len() ==> left == 0
            &&& i < rx.len() ==> right == rx[i] || right == rx[i] + 0x1_0000
            &&& i >= rx.len() ==> right == 0
        }),
{
    law_wav_frames_hold_the_samples(rate, tx, rx, i);
    law_wav_sizes_are_those_of_the_file(rate, tx, rx);
    let h = wav_image(rate, tx, rx);
    let frame = h.subrange(44 + i * 4, 48 + i * 4);
    let l = bytes::le16(sample_bits(sample_at(tx, i)));
    let r = bytes::le16(sample_bits(sample_at(rx, i)));
    bytes::law_little_endian(sample_bits(sample_at(tx, i)), 0);
    bytes::law_little_endian(sample_bits(sample_at(rx, i)), 0);
    assert(frame[0] == l[0] && frame[1] == l[1] && frame[2] == r[0] && frame[3] == r[1]);
    assert(frame[0] == h[44 + i * 4] && frame[1] == h[45 + i * 4]);
    assert(frame[2] == h[46 + i * 4] && frame[3] == h[47 + i * 4]);
}

/// A call id goes into a file name with its first twenty characters: letters and
/// digits as they are, an underscore for any other.
pub proof fn law_call_ids_in_file_names(call_id: Seq<char>, i: int)
    ensures
        call_id.len() <= 20 ==> safe_id(call_id).len() == call_id.len(),
        call_id.len() > 20 ==> safe_id(call_id).len() == 20,
        0 <= i < safe_id(call_id).len() && alphanumeric(call_id[i]) ==> safe_id(call_id)[i]
            == call_id[i],
        0 <= i < safe_id(call_id).len() && !alphanumeric(call_id[i]) ==> safe_id(call_id)[i] == '_',
{
}

/// A recording can be written where the numbers of its header fit their fields: four
/// times the rate, and the size of the file, counted as its field does.
pub proof fn law_what_can_be_written(r: Recording)
    ensures
        ({
            let frames = if r.tx.len() > r.rx.len() {
                r.tx.len()
            } else {
                r.rx.len()
            };
            &&& header_fits(r) ==> r.rate * 4 <= u32::MAX && frames * 4 <= usize::MAX
            &&& r.rate * 4 <= u32::MAX && frames * 4 + 36 <= u32::MAX ==> header_fits(r)
            &&& header_fits(r) <==> r.rate * 4 <= u32::MAX && frames * 4 <= usize::MAX && frames * 4
                % 0x1_0000_0000 + 36 <= u32::MAX
        }),
{
}

} // verus!
