//! RTP (Real-time Transport Protocol): packet construction and parsing, RTCP and
//! statistics, according to RFC 3550.

pub mod header;
pub mod rtcp;
pub mod stats;

pub use header::{RtpHeader, RtpPacket};
pub use rtcp::{build_rtcp_bye, build_rtcp_rr, build_rtcp_sr, RtcpPacket};
pub use stats::{RtpCounters, RtpStats};

use vstd::prelude::*;

use crate::bytes;

verus! {

/// Parses an RTP packet; returns its header and its payload, or nothing where the
/// packet is too short or malformed.
pub fn parse_rtp(data: &[u8]) -> (parsed: Option<(RtpHeader, &[u8])>)
    ensures
        match parsed {
            Some((h, payload)) => {
                &&& header::holds_header(data@)
                &&& h@ == header::header_fields(data@)
                &&& payload@ == data@.skip(header::payload_start(data@))
            },
            None => !header::holds_header(data@),
        },
{
    let h = match RtpHeader::parse(data) {
        Some(h) => h,
        None => {
            return None;
        },
    };
    let offset = h.header_length();
    let payload = vstd::slice::slice_subrange(data, offset, data.len());
    assert(payload@ =~= data@.skip(header::payload_start(data@)));
    Some((h, payload))
}

/// Parses just the payload type from an RTP packet.
pub fn parse_payload_type(data: &[u8]) -> (payload_type: Option<u8>)
    ensures
        payload_type == if data@.len() >= 2 {
            Some((data@[1] % 128) as u8)
        } else {
            None
        },
{
    if data.len() < 2 {
        return None;
    }
    Some(data[1] % 128)
}

/// Parses the sequence number from an RTP packet.
pub fn parse_sequence(data: &[u8]) -> (sequence: Option<u16>)
    ensures
        sequence == if data@.len() >= 4 {
            Some(bytes::be16_at(data@, 2))
        } else {
            None
        },
{
    if data.len() < 4 {
        return None;
    }
    Some(bytes::read_be16(data, 2))
}

/// Parses the timestamp from an RTP packet.
pub fn parse_timestamp(data: &[u8]) -> (timestamp: Option<u32>)
    ensures
        timestamp == if data@.len() >= 8 {
            Some(bytes::be32_at(data@, 4))
        } else {
            None
        },
{
    if data.len() < 8 {
        return None;
    }
    Some(bytes::read_be32(data, 4))
}

/// Parses the SSRC from an RTP packet.
pub fn parse_ssrc(data: &[u8]) -> (ssrc: Option<u32>)
    ensures
        ssrc == if data@.len() >= 12 {
            Some(bytes::be32_at(data@, 8))
        } else {
            None
        },
{
    if data.len() < 12 {
        return None;
    }
    Some(bytes::read_be32(data, 8))
}

} // verus!
