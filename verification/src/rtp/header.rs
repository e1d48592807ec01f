//! RTP header structures and parsing.

use vstd::prelude::*;

use crate::bytes;

verus! {

/// RTP packet header (RFC 3550).
#[derive(Debug, Clone, PartialEq, Eq)]
pub struct RtpHeader {
    /// RTP version (always 2).
    pub version: u8,
    /// Padding flag.
    pub padding: bool,
    /// Extension flag.
    pub extension: bool,
    /// CSRC count.
    pub csrc_count: u8,
    /// Marker bit.
    pub marker: bool,
    /// Payload type (0-127).
    pub payload_type: u8,
    /// Sequence number (wraps at 65535).
    pub sequence: u16,
    /// Timestamp in clock rate units.
    pub timestamp: u32,
    /// Synchronization source identifier.
    pub ssrc: u32,
    /// Contributing source identifiers (0-15 entries).
    pub csrc: Vec<u32>,
    /// Header extension data (if extension flag is set).
    pub extension_data: Option<Vec<u8>>,
}

/// What an RTP header says.
pub struct HeaderFields {
    /// RTP version.
    pub version: u8,
    /// Padding flag.
    pub padding: bool,
    /// Extension flag.
    pub extension: bool,
    /// CSRC count.
    pub csrc_count: u8,
    /// Marker bit.
    pub marker: bool,
    /// Payload type.
    pub payload_type: u8,
    /// Sequence number.
    pub sequence: u16,
    /// Timestamp.
    pub timestamp: u32,
    /// Synchronization source.
    pub ssrc: u32,
    /// Contributing sources.
    pub csrc: Seq<u32>,
    /// Header extension, its own header included.
    pub extension_data: Option<Seq<u8>>,
}

impl View for RtpHeader {
    type V = HeaderFields;

    open spec fn view(&self) -> HeaderFields {
        HeaderFields {
            version: self.version,
            padding: self.padding,
            extension: self.extension,
            csrc_count: self.csrc_count,
            marker: self.marker,
            payload_type: self.payload_type,
            sequence: self.sequence,
            timestamp: self.timestamp,
            ssrc: self.ssrc,
            csrc: self.csrc@,
            extension_data: match self.extension_data {
                Some(data) => Some(data@),
                None => None,
            },
        }
    }
}

/// A header with the given numbers and nothing else set.
pub open spec fn plain_header(
    payload_type: u8,
    sequence: u16,
    timestamp: u32,
    ssrc: u32,
) -> HeaderFields {
    HeaderFields {
        version: 2,
        padding: false,
        extension: false,
        csrc_count: 0,
        marker: false,
        payload_type,
        sequence,
        timestamp,
        ssrc,
        csrc: Seq::empty(),
        extension_data: None,
    }
}

/// The position behind the contributing sources of a packet.
pub open spec fn csrc_end(data: Seq<u8>) -> int {
    12 + data[0] % 16 * 4
}

/// The position behind the header extension of a packet that has one: its
/// length in words is in its own header.
pub open spec fn extension_end(data: Seq<u8>) -> int {
    csrc_end(data) + 4 + bytes::be16_at(data, csrc_end(data) + 2) * 4
}

/// Whether the extension flag of a packet is set.
pub open spec fn has_extension(data: Seq<u8>) -> bool {
    data[0] / 16 % 2 == 1
}

/// Whether a version 2 header stands at the beginning of `data`, whole.
pub open spec fn holds_header(data: Seq<u8>) -> bool {
    &&& data.len() >= 12
    &&& data[0] / 64 == 2
    &&& data.len() >= csrc_end(data)
    &&& has_extension(data) ==> data.len() >= csrc_end(data) + 4 && data.len() >= extension_end(
        data,
    )
}

/// The header at the beginning of `data`.
pub open spec fn header_fields(data: Seq<u8>) -> HeaderFields {
    HeaderFields {
        version: data[0] / 64,
        padding: data[0] / 32 % 2 == 1,
        extension: has_extension(data),
        csrc_count: data[0] % 16,
        marker: data[1] / 128 == 1,
        payload_type: data[1] % 128,
        sequence: bytes::be16_at(data, 2),
        timestamp: bytes::be32_at(data, 4),
        ssrc: bytes::be32_at(data, 8),
        csrc: Seq::new((data[0] % 16) as nat, |i: int| bytes::be32_at(data, 12 + i * 4)),
        extension_data: if has_extension(data) {
            Some(data.subrange(csrc_end(data), extension_end(data)))
        } else {
            None
        },
    }
}

/// The position behind the header of `data`.
pub open spec fn payload_start(data: Seq<u8>) -> int {
    if has_extension(data) {
        extension_end(data)
    } else {
        csrc_end(data)
    }
}

/// The number of payload bytes in a packet: none where there is no whole header.
pub open spec fn payload_len(data: Seq<u8>) -> int {
    if holds_header(data) {
        data.len() - payload_start(data)
    } else {
        0
    }
}

/// The bytes of a list of sources.
pub open spec fn sources_bytes(sources: Seq<u32>) -> Seq<u8>
    decreases sources.len(),
{
    if sources.len() == 0 {
        Seq::empty()
    } else {
        sources_bytes(sources.drop_last()) + bytes::be32(sources.last())
    }
}

/// The first byte of a header: version, padding, extension, number of sources.
pub open spec fn first_byte(h: HeaderFields) -> u8 {
    (h.version % 4 * 64 + (if h.padding {
        32int
    } else {
        0
    }) + (if h.extension {
        16int
    } else {
        0
    }) + h.csrc.len() % 16) as u8
}

/// The second byte of a header: marker and payload type.
pub open spec fn second_byte(h: HeaderFields) -> u8 {
    ((if h.marker {
        128int
    } else {
        0
    }) + h.payload_type % 128) as u8
}

/// The header on the wire.
pub open spec fn header_bytes(h: HeaderFields) -> Seq<u8> {
    seq![first_byte(h), second_byte(h)] + bytes::be16(h.sequence) + bytes::be32(h.timestamp)
        + bytes::be32(h.ssrc) + sources_bytes(h.csrc) + match h.extension_data {
        Some(data) => data,
        None => Seq::empty(),
    }
}

/// Length of the header on the wire.
pub open spec fn header_len(h: HeaderFields) -> nat {
    12 + h.csrc.len() * 4 + match h.extension_data {
        Some(data) => data.len(),
        None => 0,
    }
}

impl RtpHeader {
    /// Creates a new RTP header with default values.
    pub fn new(payload_type: u8, sequence: u16, timestamp: u32, ssrc: u32) -> (header: Self)
        ensures
            header@ == plain_header(payload_type, sequence, timestamp, ssrc),
    {
        RtpHeader {
            version: 2,
            padding: false,
            extension: false,
            csrc_count: 0,
            marker: false,
            payload_type,
            sequence,
            timestamp,
            ssrc,
            csrc: Vec::new(),
            extension_data: None,
        }
    }

    /// The header with the marker bit set (e.g., for the first packet of a talkspurt).
    pub fn with_marker(self) -> (header: Self)
        ensures
            header@ == (HeaderFields { marker: true, ..self@ }),
    {
        let mut header = self;
        header.marker = true;
        header
    }

    /// Parses an RTP header from raw bytes.
    pub fn parse(data: &[u8]) -> (header: Option<Self>)
        ensures
            match header {
                Some(h) => holds_header(data@) && h@ == header_fields(data@),
                None => !holds_header(data@),
            },
    {
        if data.len() < 12 {
            return None;
        }
        let version = data[0] / 64;
        if version != 2 {
            return None;
        }
        let padding = data[0] / 32 % 2 == 1;
        let extension = data[0] / 16 % 2 == 1;
        let csrc_count = data[0] % 16;
        let marker = data[1] / 128 == 1;
        let payload_type = data[1] % 128;
        let sequence = bytes::read_be16(data, 2);
        let timestamp = bytes::read_be32(data, 4);
        let ssrc = bytes::read_be32(data, 8);
        let csrc_end: usize = 12 + csrc_count as usize * 4;
        if data.len() < csrc_end {
            return None;
        }
        let mut csrc: Vec<u32> = Vec::new();
        for i in 0..csrc_count as usize
            invariant
                csrc_count == data@[0] % 16,
                data@.len() >= 12 + csrc_count * 4,
                csrc@.len() == i,
                forall|j: int| 0 <= j < i ==> csrc@[j] == bytes::be32_at(data@, 12 + j * 4),
        {
            csrc.push(bytes::read_be32(data, 12 + i * 4));
        }
        let mut extension_data: Option<Vec<u8>> = None;
        if extension {
            if data.len() < csrc_end + 4 {
                return None;
            }
            let ext_len: usize = bytes::read_be16(data, csrc_end + 2) as usize * 4;
            let ext_end: usize = csrc_end + 4 + ext_len;
            if data.len() < ext_end {
                return None;
            }
            extension_data = Some(bytes::copy_range(data, csrc_end, ext_end));
        }
        assert(csrc@ =~= header_fields(data@).csrc);
        Some(
            RtpHeader {
                version,
                padding,
                extension,
                csrc_count,
                marker,
                payload_type,
                sequence,
                timestamp,
                ssrc,
                csrc,
                extension_data,
            },
        )
    }

    /// Serializes the header to bytes.
    pub fn to_bytes(&self) -> (out: Vec<u8>)
        ensures
            out@ == header_bytes(self@),
    {
        let mut out: Vec<u8> = Vec::new();
        let padding: u8 = if self.padding {
            32
        } else {
            0
        };
        let extension: u8 = if self.extension {
            16
        } else {
            0
        };
        let marker: u8 = if self.marker {
            128
        } else {
            0
        };
        out.push(self.version % 4 * 64 + padding + extension + (self.csrc.len() % 16) as u8);
        out.push(marker + self.payload_type % 128);
        bytes::push_be16(&mut out, self.sequence);
        bytes::push_be32(&mut out, self.timestamp);
        bytes::push_be32(&mut out, self.ssrc);
        let ghost fixed = out@;
        assert(self.csrc@.take(0) =~= Seq::empty());
        assert(out@ =~= fixed + sources_bytes(self.csrc@.take(0)));
        for i in 0..self.csrc.len()
            invariant
                out@ == fixed + sources_bytes(self.csrc@.take(i as int)),
        {
            bytes::push_be32(&mut out, self.csrc[i]);
            assert(self.csrc@.take(i + 1).drop_last() =~= self.csrc@.take(i as int));
            assert(out@ =~= fixed + sources_bytes(self.csrc@.take(i + 1)));
        }
        assert(self.csrc@.take(self.csrc@.len() as int) =~= self.csrc@);
        match &self.extension_data {
            Some(data) => {
                bytes::append_bytes(&mut out, data.as_slice());
            },
            None => {},
        }
        assert(out@ =~= header_bytes(self@));
        out
    }

    /// The total header length in bytes.
    pub fn header_length(&self) -> (len: usize)
        requires
            header_len(self@) <= usize::MAX,
        ensures
            len == header_len(self@),
    {
        let base: usize = 12 + self.csrc.len() * 4;
        match &self.extension_data {
            Some(data) => base + data.len(),
            None => base,
        }
    }
}

impl Default for RtpHeader {
    fn default() -> (header: Self)
        ensures
            header@ == plain_header(0, 0, 0, 0),
    {
        RtpHeader::new(0, 0, 0, 0)
    }
}

/// A complete RTP packet (header and payload).
#[derive(Debug, Clone)]
pub struct RtpPacket {
    /// The RTP header.
    pub header: RtpHeader,
    /// The payload data.
    pub payload: Vec<u8>,
}

impl RtpPacket {
    /// Creates a new RTP packet.
    pub fn new(header: RtpHeader, payload: Vec<u8>) -> (packet: Self)
        ensures
            packet == (RtpPacket { header, payload }),
    {
        RtpPacket { header, payload }
    }

    /// Creates a packet with just the essential fields.
    pub fn simple(
        payload_type: u8,
        sequence: u16,
        timestamp: u32,
        ssrc: u32,
        payload: Vec<u8>,
    ) -> (packet: Self)
        ensures
            packet.header@ == plain_header(payload_type, sequence, timestamp, ssrc),
            packet.payload == payload,
    {
        RtpPacket { header: RtpHeader::new(payload_type, sequence, timestamp, ssrc), payload }
    }

    /// Parses an RTP packet from raw bytes.
    pub fn parse(data: &[u8]) -> (packet: Option<Self>)
        ensures
            match packet {
                Some(p) => {
                    &&& holds_header(data@)
                    &&& p.header@ == header_fields(data@)
                    &&& p.payload@ == data@.skip(payload_start(data@))
                },
                None => !holds_header(data@),
            },
    {
        let header = match RtpHeader::parse(data) {
            Some(header) => header,
            None => {
                return None;
            },
        };
        let offset = header.header_length();
        let payload = bytes::copy_range(data, offset, data.len());
        assert(payload@ =~= data@.skip(payload_start(data@)));
        Some(RtpPacket { header, payload })
    }

    /// Serializes the packet to bytes.
    pub fn to_bytes(&self) -> (out: Vec<u8>)
        ensures
            out@ == header_bytes(self.header@) + self.payload@,
    {
        let mut out = self.header.to_bytes();
        bytes::append_bytes(&mut out, self.payload.as_slice());
        out
    }
}

proof fn lemma_sources_bytes(sources: Seq<u32>)
    ensures
        sources_bytes(sources).len() == sources.len() * 4,
        forall|i: int|
            0 <= i < sources.len() ==> (#[trigger] sources_bytes(sources).subrange(i * 4, i * 4 + 4))
                == bytes::be32(sources[i]),
    decreases sources.len(),
{
    if sources.len() > 0 {
        let init = sources.drop_last();
        lemma_sources_bytes(init);
        let all = sources_bytes(sources);
        assert forall|i: int| 0 <= i < sources.len() implies (#[trigger] all.subrange(
            i * 4,
            i * 4 + 4,
        )) == bytes::be32(sources[i]) by {
            if i < init.len() {
                assert(all.subrange(i * 4, i * 4 + 4) =~= sources_bytes(init).subrange(
                    i * 4,
                    i * 4 + 4,
                ));
            } else {
                assert(all.subrange(i * 4, i * 4 + 4) =~= bytes::be32(sources.last()));
            }
        }
    }
}

/// The announced length is that of the bytes.
pub proof fn law_header_length_is_of_bytes(h: HeaderFields)
    ensures
        header_bytes(h).len() == header_len(h),
{
    lemma_sources_bytes(h.csrc);
}

/// Whether a header can be told from its bytes: as many sources as four bits can
/// count, and extension data where the flag says so, with its length in it.
pub open spec fn readable(h: HeaderFields) -> bool {
    &&& h.version % 4 == 2
    &&& h.csrc.len() <= 15
    &&& match h.extension_data {
        Some(data) => h.extension && data.len() >= 4 && data.len() == 4 + bytes::be16_at(data, 2)
            * 4,
        None => !h.extension,
    }
}

proof fn lemma_flag_bytes(h: HeaderFields)
    requires
        h.version % 4 == 2,
        h.csrc.len() <= 15,
    ensures
        first_byte(h) / 64 == 2,
        (first_byte(h) / 32 % 2 == 1) == h.padding,
        (first_byte(h) / 16 % 2 == 1) == h.extension,
        first_byte(h) % 16 == h.csrc.len(),
        (second_byte(h) / 128 == 1) == h.marker,
        second_byte(h) % 128 == h.payload_type % 128,
{
}

proof fn lemma_fixed_fields(h: HeaderFields, payload: Seq<u8>)
    ensures
        ({
            let data = header_bytes(h) + payload;
            &&& data.len() >= 12
            &&& data[0] == first_byte(h)
            &&& data[1] == second_byte(h)
            &&& bytes::be16_at(data, 2) == h.sequence
            &&& bytes::be32_at(data, 4) == h.timestamp
            &&& bytes::be32_at(data, 8) == h.ssrc
        }),
{
    let data = header_bytes(h) + payload;
    assert(data.subrange(2, 4) =~= bytes::be16(h.sequence));
    bytes::law_be16_round_trip(h.sequence, data, 2);
    assert(data.subrange(4, 8) =~= bytes::be32(h.timestamp));
    bytes::law_be32_round_trip(h.timestamp, data, 4);
    assert(data.subrange(8, 12) =~= bytes::be32(h.ssrc));
    bytes::law_be32_round_trip(h.ssrc, data, 8);
}

/// Parsing what was serialized gives the header back, with its source count
/// and with the bits of version and payload type that go on the wire, and the
/// payload begins where the header ends.
pub proof fn law_parse_undoes_serialize(h: HeaderFields, payload: Seq<u8>)
    requires
        readable(h),
    ensures
        holds_header(header_bytes(h) + payload),
        header_fields(header_bytes(h) + payload) == (HeaderFields {
            version: 2,
            csrc_count: h.csrc.len() as u8,
            payload_type: h.payload_type % 128,
            ..h
        }),
        (header_bytes(h) + payload).skip(payload_start(header_bytes(h) + payload)) == payload,
{
    let data = header_bytes(h) + payload;
    let n = h.csrc.len() as int;
    lemma_sources_bytes(h.csrc);
    law_header_length_is_of_bytes(h);
    lemma_fixed_fields(h, payload);
    lemma_flag_bytes(h);
    assert(data.subrange(12, 12 + n * 4) =~= sources_bytes(h.csrc));
    assert forall|i: int| 0 <= i < n implies bytes::be32_at(data, 12 + i * 4) == h.csrc[i] by {
        let part = sources_bytes(h.csrc).subrange(i * 4, i * 4 + 4);
        assert(part == bytes::be32(h.csrc[i]));
        assert(data.subrange(12 + i * 4, 12 + i * 4 + 4) =~= part);
        bytes::law_be32_round_trip(h.csrc[i], data, 12 + i * 4);
    }
    let fields = header_fields(data);
    assert(fields.csrc =~= h.csrc);
    match h.extension_data {
        Some(ext) => {
            let end = 12 + n * 4;
            assert(data.subrange(end, end + ext.len()) =~= ext);
            assert(data[end + 2] == ext[2] && data[end + 3] == ext[3]);
            assert(fields.extension_data =~= Some(ext));
        },
        None => {},
    }
    assert(data.skip(payload_start(data)) =~= payload);
}

/// Serializing what was parsed gives the bytes back.
pub proof fn law_serialize_undoes_parse(data: Seq<u8>)
    requires
        holds_header(data),
    ensures
        header_bytes(header_fields(data)) == data.take(payload_start(data)),
        header_bytes(header_fields(data)) + data.skip(payload_start(data)) == data,
        readable(header_fields(data)),
{
    let h = header_fields(data);
    let n = h.csrc.len() as int;
    lemma_sources_bytes(h.csrc);
    assert(first_byte(h) == data[0]);
    assert(second_byte(h) == data[1]);
    bytes::law_be16_bytes_of_read(data, 2);
    bytes::law_be32_bytes_of_read(data, 4);
    bytes::law_be32_bytes_of_read(data, 8);
    assert forall|k: int| 0 <= k < n * 4 implies #[trigger] sources_bytes(h.csrc)[k] == data[12
        + k] by {
        let i = k / 4;
        let part = sources_bytes(h.csrc).subrange(i * 4, i * 4 + 4);
        assert(part == bytes::be32(h.csrc[i]));
        bytes::law_be32_bytes_of_read(data, 12 + i * 4);
        assert(part[k - i * 4] == sources_bytes(h.csrc)[k]);
        assert(data.subrange(12 + i * 4, 12 + i * 4 + 4)[k - i * 4] == data[12 + k]);
    }
    let start = payload_start(data);
    let out = header_bytes(h);
    law_header_length_is_of_bytes(h);
    assert(out.len() == start);
    assert forall|k: int| 0 <= k < start implies #[trigger] out[k] == data[k] by {
        if 2 <= k < 4 {
            assert(data.subrange(2, 4)[k - 2] == data[k]);
        } else if 4 <= k < 8 {
            assert(data.subrange(4, 8)[k - 4] == data[k]);
        } else if 8 <= k < 12 {
            assert(data.subrange(8, 12)[k - 8] == data[k]);
        } else if 12 <= k < 12 + n * 4 {
            assert(out[k] == sources_bytes(h.csrc)[k - 12]);
        }
    }
    assert(out =~= data.take(start));
    assert(out + data.skip(start) =~= data);
    if has_extension(data) {
        let ext = data.subrange(csrc_end(data), extension_end(data));
        assert(ext[2] == data[csrc_end(data) + 2] && ext[3] == data[csrc_end(data) + 3]);
    }
}

proof fn lemma_flags(h: HeaderFields)
    requires
        h.csrc.len() <= 15,
    ensures
        first_byte(h) / 64 == h.version % 4,
        (first_byte(h) / 32) % 2 == 1 <==> h.padding,
        (first_byte(h) / 16) % 2 == 1 <==> h.extension,
        first_byte(h) % 16 == h.csrc.len(),
        second_byte(h) >= 128 <==> h.marker,
        second_byte(h) % 128 == h.payload_type % 128,
{
}

proof fn lemma_behind_fixed_fields(h: HeaderFields, i: int)
    ensures
        0 <= i < h.csrc.len() ==> bytes::be32_at(header_bytes(h), 12 + i * 4) == h.csrc[i],
        h.extension_data matches Some(data) ==> (0 <= i < data.len() ==> header_bytes(h)[12
            + h.csrc.len() * 4 + i] == data[i]),
{
    let b = header_bytes(h);
    law_header_length_is_of_bytes(h);
    lemma_sources_bytes(h.csrc);
    if 0 <= i < h.csrc.len() {
        let part = sources_bytes(h.csrc).subrange(i * 4, i * 4 + 4);
        assert(part == bytes::be32(h.csrc[i]));
        assert(b.subrange(12 + i * 4, 16 + i * 4) =~= part);
        bytes::law_be32_round_trip(h.csrc[i], b, 12 + i * 4);
    }
}

/// A header on the wire, byte by byte (RFC 3550, section 5.1).
#[verifier::spinoff_prover]
#[verifier::rlimit(40)]
pub proof fn law_header_byte_by_byte(h: HeaderFields, i: int)
    requires
        h.csrc.len() <= 15,
    ensures
        ({
            let b = header_bytes(h);
            &&& b.len() == 12 + h.csrc.len() * 4 + match h.extension_data {
                Some(data) => data.len(),
                None => 0,
            }
            &&& b[0] / 64 == h.version % 4
            &&& (b[0] / 32) % 2 == 1 <==> h.padding
            &&& (b[0] / 16) % 2 == 1 <==> h.extension
            &&& b[0] % 16 == h.csrc.len()
            &&& b[1] >= 128 <==> h.marker
            &&& b[1] % 128 == h.payload_type % 128
            &&& b[2] * 256 + b[3] == h.sequence
            &&& b[4] * 0x100_0000 + b[5] * 0x1_0000 + b[6] * 0x100 + b[7] == h.timestamp
            &&& b[8] * 0x100_0000 + b[9] * 0x1_0000 + b[10] * 0x100 + b[11] == h.ssrc
            &&& 0 <= i < h.csrc.len() ==> b[12 + i * 4] * 0x100_0000 + b[13 + i * 4] * 0x1_0000 + b[
            14 + i * 4] * 0x100 + b[15 + i * 4] == h.csrc[i]
            &&& h.extension_data matches Some(data) ==> (0 <= i < data.len() ==> b[12
                + h.csrc.len() * 4 + i] == data[i])
        }),
{
    let b = header_bytes(h);
    law_header_length_is_of_bytes(h);
    assert(b + Seq::<u8>::empty() =~= b);
    lemma_fixed_fields(h, Seq::empty());
    lemma_flags(h);
    lemma_behind_fixed_fields(h, i);
}

/// The header read from bytes, field by field.
pub proof fn law_fields_of_bytes(data: Seq<u8>, i: int)
    requires
        holds_header(data),
    ensures
        ({
            let h = header_fields(data);
            let sources = data[0] % 16;
            &&& h.version == 2
            &&& h.padding <==> (data[0] / 32) % 2 == 1
            &&& h.extension <==> (data[0] / 16) % 2 == 1
            &&& h.csrc_count == sources
            &&& h.marker <==> data[1] >= 128
            &&& h.payload_type == data[1] % 128
            &&& h.sequence == data[2] * 256 + data[3]
            &&& h.timestamp == data[4] * 0x100_0000 + data[5] * 0x1_0000 + data[6] * 0x100
                + data[7]
            &&& h.ssrc == data[8] * 0x100_0000 + data[9] * 0x1_0000 + data[10] * 0x100 + data[11]
            &&& h.csrc.len() == sources
            &&& 0 <= i < sources ==> h.csrc[i] == data[12 + i * 4] * 0x100_0000 + data[13 + i * 4]
                * 0x1_0000 + data[14 + i * 4] * 0x100 + data[15 + i * 4]
            &&& h.extension_data is Some <==> h.extension
            &&& h.extension ==> {
                let from = 12 + sources * 4;
                let words = data[from + 2] * 256 + data[from + 3];
                h.extension_data == Some(data.subrange(from, from + 4 + words * 4))
            }
        }),
{
}

/// Which bytes hold a header: version 2, twelve bytes, four for each source, and
/// where the flag is set the extension, with as many words as it announces. The
/// payload begins behind all of that.
pub proof fn law_headers_are_recognized(data: Seq<u8>)
    ensures
        ({
            let sources = data[0] % 16 * 4;
            let flag = (data[0] / 16) % 2 == 1;
            let words = data[sources + 14] * 256 + data[sources + 15];
            &&& holds_header(data) <==> {
                &&& data.len() >= 12 + sources
                &&& 128 <= data[0] < 192
                &&& flag ==> data.len() >= 16 + sources && data.len() >= 16 + sources + words * 4
            }
            &&& !flag ==> payload_start(data) == 12 + sources
            &&& flag ==> payload_start(data) == 16 + sources + words * 4
            &&& holds_header(data) ==> payload_len(data) == data.len() - payload_start(data)
            &&& !holds_header(data) ==> payload_len(data) == 0
        }),
{
}

/// A plain header is version 2 with the given numbers and nothing else.
pub proof fn law_plain_header_has_no_extras(pt: u8, seq: u16, timestamp: u32, ssrc: u32)
    ensures
        ({
            let h = plain_header(pt, seq, timestamp, ssrc);
            &&& h.version == 2
            &&& !h.padding && !h.extension && !h.marker
            &&& h.csrc_count == 0 && h.csrc.len() == 0
            &&& h.extension_data is None
            &&& h.payload_type == pt && h.sequence == seq
            &&& h.timestamp == timestamp && h.ssrc == ssrc
        }),
{
}

} // verus!
