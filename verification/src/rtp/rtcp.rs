//! RTCP (RTP Control Protocol): Sender Reports (SR), Receiver Reports (RR) and
//! BYE per RFC 3550.

use std::time::SystemTime;

use vstd::prelude::*;

use crate::bytes;
use crate::clock;

verus! {

/// RTCP packet types.
#[derive(Debug, Clone, Copy, PartialEq, Eq, Structural)]
pub enum RtcpType {
    /// Sender Report
    SenderReport,
    /// Receiver Report
    ReceiverReport,
    /// Source Description
    SourceDescription,
    /// Goodbye
    Goodbye,
    /// Application-defined
    ApplicationDefined,
}

impl RtcpType {
    /// The number of the type on the wire.
    pub open spec fn number(self) -> u8 {
        match self {
            RtcpType::SenderReport => 200,
            RtcpType::ReceiverReport => 201,
            RtcpType::SourceDescription => 202,
            RtcpType::Goodbye => 203,
            RtcpType::ApplicationDefined => 204,
        }
    }

    /// Parses an RTCP type from a byte.
    pub fn from_byte(b: u8) -> (kind: Option<Self>)
        ensures
            match kind {
                Some(k) => k.number() == b,
                None => !(200 <= b <= 204),
            },
    {
        match b {
            200 => Some(RtcpType::SenderReport),
            201 => Some(RtcpType::ReceiverReport),
            202 => Some(RtcpType::SourceDescription),
            203 => Some(RtcpType::Goodbye),
            204 => Some(RtcpType::ApplicationDefined),
            _ => None,
        }
    }

    /// The number of the type on the wire.
    pub fn to_byte(&self) -> (b: u8)
        ensures
            b == self.number(),
    {
        match self {
            RtcpType::SenderReport => 200,
            RtcpType::ReceiverReport => 201,
            RtcpType::SourceDescription => 202,
            RtcpType::Goodbye => 203,
            RtcpType::ApplicationDefined => 204,
        }
    }
}

/// A parsed RTCP packet.
#[derive(Debug, Clone)]
pub struct RtcpPacket {
    /// Packet type.
    pub packet_type: RtcpType,
    /// SSRC of the sender.
    pub ssrc: u32,
    /// Raw packet data.
    pub data: Vec<u8>,
}

/// Whether `data` begins as an RTCP packet of a known type.
pub open spec fn is_rtcp(data: Seq<u8>) -> bool {
    data.len() >= 8 && data[0] / 64 == 2 && 200 <= data[1] <= 204
}

impl RtcpPacket {
    /// Parses an RTCP packet from raw bytes.
    pub fn parse(data: &[u8]) -> (packet: Option<Self>)
        ensures
            match packet {
                Some(p) => {
                    &&& is_rtcp(data@)
                    &&& p.packet_type.number() == data@[1]
                    &&& p.ssrc == bytes::be32_at(data@, 4)
                    &&& p.data@ == data@
                },
                None => !is_rtcp(data@),
            },
    {
        if data.len() < 8 {
            return None;
        }
        if data[0] / 64 != 2 {
            return None;
        }
        let packet_type = match RtcpType::from_byte(data[1]) {
            Some(packet_type) => packet_type,
            None => {
                return None;
            },
        };
        let copy = bytes::copy_range(data, 0, data.len());
        assert(copy@ =~= data@);
        Some(RtcpPacket { packet_type, ssrc: bytes::read_be32(data, 4), data: copy })
    }
}

/// The seconds of an NTP timestamp, which count from 1900.
pub open spec fn ntp_seconds(unix_secs: u64) -> u32 {
    ((unix_secs + 2_208_988_800) % 0x1_0000_0000) as u32
}

/// The fraction of an NTP timestamp, in units of 2 to the power of -32 seconds.
pub open spec fn ntp_fraction(nanos: u32) -> u32 {
    (nanos * 0x1_0000_0000 / 1_000_000_000) as u32
}

/// The RTP timestamp for a time: an 8 kHz clock that runs from the Unix epoch.
pub open spec fn rtp_clock(unix_secs: u64, nanos: u32) -> u32 {
    ((unix_secs * 1000 + nanos / 1_000_000) * 8 % 0x1_0000_0000) as u32
}

/// A Sender Report without report blocks.
pub open spec fn sender_report(
    ssrc: u32,
    packets: u32,
    octets: u32,
    unix_secs: u64,
    nanos: u32,
) -> Seq<u8> {
    seq![0x80u8, 200u8] + bytes::be16(6) + bytes::be32(ssrc) + bytes::be32(ntp_seconds(unix_secs))
        + bytes::be32(ntp_fraction(nanos)) + bytes::be32(rtp_clock(unix_secs, nanos)) + bytes::be32(
        packets,
    ) + bytes::be32(octets)
}

/// A Receiver Report with one report block.
pub open spec fn receiver_report(
    ssrc: u32,
    remote_ssrc: u32,
    loss_fraction: u8,
    cumulative_lost: u32,
    highest_seq: u32,
    jitter: u32,
) -> Seq<u8> {
    seq![0x81u8, 201u8] + bytes::be16(7) + bytes::be32(ssrc) + bytes::be32(remote_ssrc)
        + bytes::be32((loss_fraction * 0x100_0000 + cumulative_lost % 0x100_0000) as u32)
        + bytes::be32(highest_seq) + bytes::be32(jitter) + bytes::be32(0) + bytes::be32(0)
}

/// A BYE packet for one source.
pub open spec fn bye(ssrc: u32) -> Seq<u8> {
    seq![0x81u8, 203u8] + bytes::be16(1) + bytes::be32(ssrc)
}

/// Builds an RTCP Sender Report (SR) packet for a given time since the Unix epoch.
pub fn build_rtcp_sr_at(
    ssrc: u32,
    packets_sent: u32,
    octets_sent: u32,
    unix_secs: u64,
    nanos: u32,
) -> (out: Vec<u8>)
    requires
        nanos < 1_000_000_000,
    ensures
        out@ == sender_report(ssrc, packets_sent, octets_sent, unix_secs, nanos),
{
    let mut out: Vec<u8> = Vec::new();
    out.push(0x80);
    out.push(200);
    bytes::push_be16(&mut out, 6);
    bytes::push_be32(&mut out, ssrc);
    let ntp_sec: u32 = ((unix_secs as u128 + 2_208_988_800) % 0x1_0000_0000) as u32;
    let ntp_frac: u32 = (nanos as u64 * 0x1_0000_0000 / 1_000_000_000) as u32;
    bytes::push_be32(&mut out, ntp_sec);
    bytes::push_be32(&mut out, ntp_frac);
    let millis: u128 = unix_secs as u128 * 1000 + (nanos / 1_000_000) as u128;
    let rtp_ts: u32 = (millis * 8 % 0x1_0000_0000) as u32;
    bytes::push_be32(&mut out, rtp_ts);
    bytes::push_be32(&mut out, packets_sent);
    bytes::push_be32(&mut out, octets_sent);
    assert(out@ =~= sender_report(ssrc, packets_sent, octets_sent, unix_secs, nanos));
    out
}

/// Builds an RTCP Sender Report (SR) packet for now. A clock before the Unix
/// epoch counts as the epoch.
pub fn build_rtcp_sr(ssrc: u32, packets_sent: u32, octets_sent: u32) -> (out: Vec<u8>)
    ensures
        exists|at: SystemTime|
            {
                let (unix_secs, nanos) = #[trigger] clock::report_time(at);
                &&& nanos < 1_000_000_000
                &&& out@ == sender_report(ssrc, packets_sent, octets_sent, unix_secs, nanos)
            },
{
    let now = SystemTime::now();
    let (unix_secs, nanos): (u64, u32) = match clock::since_unix_epoch(&now) {
        Some(elapsed) => elapsed,
        None => (0, 0),
    };
    assert(clock::report_time(now) == (unix_secs, nanos));
    build_rtcp_sr_at(ssrc, packets_sent, octets_sent, unix_secs, nanos)
}

/// Builds an RTCP Receiver Report (RR) packet.
pub fn build_rtcp_rr(
    ssrc: u32,
    remote_ssrc: u32,
    loss_fraction: u8,
    cumulative_lost: u32,
    highest_seq: u32,
    jitter: u32,
) -> (out: Vec<u8>)
    ensures
        out@ == receiver_report(
            ssrc,
            remote_ssrc,
            loss_fraction,
            cumulative_lost,
            highest_seq,
            jitter,
        ),
{
    let mut out: Vec<u8> = Vec::new();
    out.push(0x81);
    out.push(201);
    bytes::push_be16(&mut out, 7);
    bytes::push_be32(&mut out, ssrc);
    bytes::push_be32(&mut out, remote_ssrc);
    bytes::push_be32(&mut out, loss_fraction as u32 * 0x100_0000 + cumulative_lost % 0x100_0000);
    bytes::push_be32(&mut out, highest_seq);
    bytes::push_be32(&mut out, jitter);
    bytes::push_be32(&mut out, 0);
    bytes::push_be32(&mut out, 0);
    assert(out@ =~= receiver_report(
        ssrc,
        remote_ssrc,
        loss_fraction,
        cumulative_lost,
        highest_seq,
        jitter,
    ));
    out
}

/// Builds an RTCP BYE packet.
pub fn build_rtcp_bye(ssrc: u32) -> (out: Vec<u8>)
    ensures
        out@ == bye(ssrc),
{
    let mut out: Vec<u8> = Vec::new();
    out.push(0x81);
    out.push(203);
    bytes::push_be16(&mut out, 1);
    bytes::push_be32(&mut out, ssrc);
    assert(out@ =~= bye(ssrc));
    out
}

/// A Sender Report parses as one, from its sender, and holds the two counts; its
/// length field counts its words, less one.
pub proof fn law_sender_report_parses(
    ssrc: u32,
    packets: u32,
    octets: u32,
    unix_secs: u64,
    nanos: u32,
)
    ensures
        ({
            let sr = sender_report(ssrc, packets, octets, unix_secs, nanos);
            &&& is_rtcp(sr)
            &&& sr[1] == RtcpType::SenderReport.number()
            &&& bytes::be32_at(sr, 4) == ssrc
            &&& bytes::be32_at(sr, 20) == packets
            &&& bytes::be32_at(sr, 24) == octets
            &&& sr.len() == 28
            &&& (bytes::be16_at(sr, 2) + 1) * 4 == sr.len()
        }),
{
    let sr = sender_report(ssrc, packets, octets, unix_secs, nanos);
    assert(sr.subrange(2, 4) =~= bytes::be16(6));
    bytes::law_be16_round_trip(6, sr, 2);
    assert(sr.subrange(4, 8) =~= bytes::be32(ssrc));
    bytes::law_be32_round_trip(ssrc, sr, 4);
    assert(sr.subrange(20, 24) =~= bytes::be32(packets));
    bytes::law_be32_round_trip(packets, sr, 20);
    assert(sr.subrange(24, 28) =~= bytes::be32(octets));
    bytes::law_be32_round_trip(octets, sr, 24);
}

/// A Receiver Report parses as one, from its sender, and holds what it reports:
/// of the packets lost, the lower 24 bits.
pub proof fn law_receiver_report_parses(
    ssrc: u32,
    remote_ssrc: u32,
    loss_fraction: u8,
    cumulative_lost: u32,
    highest_seq: u32,
    jitter: u32,
)
    ensures
        ({
            let rr = receiver_report(
                ssrc,
                remote_ssrc,
                loss_fraction,
                cumulative_lost,
                highest_seq,
                jitter,
            );
            &&& is_rtcp(rr)
            &&& rr[1] == RtcpType::ReceiverReport.number()
            &&& bytes::be32_at(rr, 4) == ssrc
            &&& bytes::be32_at(rr, 8) == remote_ssrc
            &&& rr[12] == loss_fraction
            &&& bytes::be32_at(rr, 12) % 0x100_0000 == cumulative_lost % 0x100_0000
            &&& bytes::be32_at(rr, 16) == highest_seq
            &&& bytes::be32_at(rr, 20) == jitter
            &&& rr.len() == 32
            &&& (bytes::be16_at(rr, 2) + 1) * 4 == rr.len()
        }),
{
    let rr = receiver_report(
        ssrc,
        remote_ssrc,
        loss_fraction,
        cumulative_lost,
        highest_seq,
        jitter,
    );
    let lost = (loss_fraction * 0x100_0000 + cumulative_lost % 0x100_0000) as u32;
    assert(rr.subrange(2, 4) =~= bytes::be16(7));
    bytes::law_be16_round_trip(7, rr, 2);
    assert(rr.subrange(4, 8) =~= bytes::be32(ssrc));
    bytes::law_be32_round_trip(ssrc, rr, 4);
    assert(rr.subrange(8, 12) =~= bytes::be32(remote_ssrc));
    bytes::law_be32_round_trip(remote_ssrc, rr, 8);
    assert(rr.subrange(12, 16) =~= bytes::be32(lost));
    bytes::law_be32_round_trip(lost, rr, 12);
    assert(rr[12] == rr.subrange(12, 16)[0]);
    assert(rr.subrange(16, 20) =~= bytes::be32(highest_seq));
    bytes::law_be32_round_trip(highest_seq, rr, 16);
    assert(rr.subrange(20, 24) =~= bytes::be32(jitter));
    bytes::law_be32_round_trip(jitter, rr, 20);
}

/// A BYE parses as one, from the source that leaves.
pub proof fn law_bye_parses(ssrc: u32)
    ensures
        is_rtcp(bye(ssrc)),
        bye(ssrc)[1] == RtcpType::Goodbye.number(),
        bytes::be32_at(bye(ssrc), 4) == ssrc,
        (bytes::be16_at(bye(ssrc), 2) + 1) * 4 == bye(ssrc).len(),
{
    assert(bye(ssrc).subrange(2, 4) =~= bytes::be16(1));
    bytes::law_be16_round_trip(1, bye(ssrc), 2);
    assert(bye(ssrc).subrange(4, 8) =~= bytes::be32(ssrc));
    bytes::law_be32_round_trip(ssrc, bye(ssrc), 4);
}

proof fn lemma_time_fields(unix_secs: u64, nanos: u32)
    requires
        nanos < 1_000_000_000,
    ensures
        (ntp_seconds(unix_secs) - unix_secs - 2_208_988_800) % 0x1_0000_0000 == 0,
        ntp_fraction(nanos) * 1_000_000_000 <= nanos * 0x1_0000_0000,
        nanos * 0x1_0000_0000 < (ntp_fraction(nanos) + 1) * 1_000_000_000,
        (rtp_clock(unix_secs, nanos) - (unix_secs * 8000 + nanos / 1_000_000 * 8)) % 0x1_0000_0000
            == 0,
{
    assert(nanos * 0x1_0000_0000 / 1_000_000_000 <= u32::MAX);
    let ticks = (unix_secs * 1000 + nanos / 1_000_000) * 8;
    assert(ticks == unix_secs * 8000 + nanos / 1_000_000 * 8);
    assert((ticks % 0x1_0000_0000 - ticks) % 0x1_0000_0000 == 0);
    let secs = unix_secs + 2_208_988_800;
    assert((secs % 0x1_0000_0000 - secs) % 0x1_0000_0000 == 0);
}

/// A Sender Report names no blocks and tells the time twice: as an NTP timestamp,
/// whose seconds count from 1900 and whose fraction is the nearest below, and on an
/// 8 kHz clock that runs from the Unix epoch.
#[verifier::spinoff_prover]
#[verifier::rlimit(40)]
pub proof fn law_sender_report_tells_the_time(
    ssrc: u32,
    packets: u32,
    octets: u32,
    unix_secs: u64,
    nanos: u32,
)
    requires
        nanos < 1_000_000_000,
    ensures
        ({
            let sr = sender_report(ssrc, packets, octets, unix_secs, nanos);
            let fraction = bytes::be32_at(sr, 12);
            &&& sr[0] == 0x80
            &&& sr[1] == 200
            &&& sr[2] == 0 && sr[3] == 6
            &&& (bytes::be32_at(sr, 8) - unix_secs - 2_208_988_800) % 0x1_0000_0000 == 0
            &&& fraction * 1_000_000_000 <= nanos * 0x1_0000_0000
            &&& nanos * 0x1_0000_0000 < (fraction + 1) * 1_000_000_000
            &&& (bytes::be32_at(sr, 16) - (unix_secs * 8000 + nanos / 1_000_000 * 8))
                % 0x1_0000_0000 == 0
        }),
{
    let sr = sender_report(ssrc, packets, octets, unix_secs, nanos);
    let (s, f, c) = (ntp_seconds(unix_secs), ntp_fraction(nanos), rtp_clock(unix_secs, nanos));
    lemma_time_fields(unix_secs, nanos);
    assert(sr.subrange(8, 12) =~= bytes::be32(s));
    bytes::law_be32_round_trip(s, sr, 8);
    assert(sr.subrange(12, 16) =~= bytes::be32(f));
    bytes::law_be32_round_trip(f, sr, 12);
    assert(sr.subrange(16, 20) =~= bytes::be32(c));
    bytes::law_be32_round_trip(c, sr, 16);
    assert(sr[2] == bytes::be16(6)[0] && sr[3] == bytes::be16(6)[1]);
}

/// A Receiver Report names one block, and no Sender Report that it answers. A BYE
/// names one source.
pub proof fn law_report_headers(
    ssrc: u32,
    remote_ssrc: u32,
    loss_fraction: u8,
    cumulative_lost: u32,
    highest_seq: u32,
    jitter: u32,
)
    ensures
        ({
            let rr = receiver_report(
                ssrc,
                remote_ssrc,
                loss_fraction,
                cumulative_lost,
                highest_seq,
                jitter,
            );
            &&& rr[0] == 0x81
            &&& rr[1] == 201
            &&& rr[2] == 0 && rr[3] == 7
            &&& rr[13] * 0x1_0000 + rr[14] * 0x100 + rr[15] == cumulative_lost % 0x100_0000
            &&& forall|i: int| 24 <= i < 32 ==> #[trigger] rr[i] == 0
        }),
        bye(ssrc)[0] == 0x81,
        bye(ssrc)[1] == 203,
        bye(ssrc)[2] == 0 && bye(ssrc)[3] == 1,
        bye(ssrc).len() == 8,
{
    let rr = receiver_report(
        ssrc,
        remote_ssrc,
        loss_fraction,
        cumulative_lost,
        highest_seq,
        jitter,
    );
    law_receiver_report_parses(
        ssrc,
        remote_ssrc,
        loss_fraction,
        cumulative_lost,
        highest_seq,
        jitter,
    );
    assert(rr[2] == bytes::be16(7)[0] && rr[3] == bytes::be16(7)[1]);
    assert(bye(ssrc)[2] == bytes::be16(1)[0] && bye(ssrc)[3] == bytes::be16(1)[1]);
    assert forall|i: int| 24 <= i < 32 implies #[trigger] rr[i] == 0 by {
        assert(rr[i] == bytes::be32(0)[(i - 24) % 4]);
    }
}

/// What counts as RTCP: eight bytes at least, version 2, and a type from 200 to 204,
/// of which each names its own kind of packet.
pub proof fn law_rtcp_is_recognized(data: Seq<u8>)
    ensures
        is_rtcp(data) <==> data.len() >= 8 && 128 <= data[0] < 192 && 200 <= data[1] <= 204,
        RtcpType::SenderReport.number() == 200,
        RtcpType::ReceiverReport.number() == 201,
        RtcpType::SourceDescription.number() == 202,
        RtcpType::Goodbye.number() == 203,
        RtcpType::ApplicationDefined.number() == 204,
{
}

} // verus!
