//! RTCP reports of a session.

use std::time::SystemTime;

use vstd::prelude::*;

use super::link::{self, LinkState};
use super::{MediaSession, SessionState};
use crate::bytes;
use crate::clock;
use crate::rtp::rtcp;
use crate::rtp::RtpCounters;
use crate::srtp;

verus! {

/// Seconds between reports.
pub const REPORT_INTERVAL_SECS: u64 = 5;

/// Makes the reports of a session, and reads those of the other side.
#[derive(Debug, Clone, Copy, PartialEq, Eq, Structural)]
pub struct RtcpReporter {
    /// The source that the session sends as.
    pub ssrc: u32,
    /// The source on the other side, 0 while it is not known.
    pub remote_ssrc: u32,
}

/// The lost packets as a fraction of the expected ones, in 256ths, of which the
/// lower 8 bits.
pub open spec fn loss_fraction(lost: u64, expected: u64) -> u8 {
    if expected > 0 {
        ((lost * 256 / expected as int) % 256) as u8
    } else {
        0
    }
}

/// The sender report on a session.
pub open spec fn own_report(ssrc: u32, counters: RtpCounters, unix_secs: u64, nanos: u32) -> Seq<
    u8,
> {
    rtcp::sender_report(
        ssrc,
        (counters.packets_sent % 0x1_0000_0000) as u32,
        (counters.bytes_sent % 0x1_0000_0000) as u32,
        unix_secs,
        nanos,
    )
}

/// The receiver report on a session. Its jitter is in units of the codec's clock.
pub open spec fn peer_report(ssrc: u32, remote_ssrc: u32, counters: RtpCounters) -> Seq<u8> {
    rtcp::receiver_report(
        ssrc,
        remote_ssrc,
        loss_fraction(counters.lost(), counters.expected_packets),
        (counters.lost() % 0x1_0000_0000) as u32,
        counters.highest_seq,
        ((counters.jitter_us / 125) % 0x1_0000_0000) as u32,
    )
}

/// The source that a report names; nothing where it is no report.
pub open spec fn reported_source(packet: Seq<u8>) -> Option<u32> {
    if packet.len() >= 8 && (packet[1] == 200 || packet[1] == 201) {
        Some(bytes::be32_at(packet, 4))
    } else {
        None
    }
}

/// The datagrams that report on a session: its own report, and one on the other
/// side where that is known.
pub open spec fn reports(
    reporter: RtcpReporter,
    state: SessionState,
    unix_secs: u64,
    nanos: u32,
) -> Seq<Seq<u8>> {
    let own = link::rtcp_on_wire(
        state.link,
        own_report(reporter.ssrc, state.counters, unix_secs, nanos),
    );
    if reporter.remote_ssrc == 0 {
        seq![own]
    } else {
        seq![
            own,
            link::rtcp_on_wire(
                link::after_rtcp_sent(state.link),
                peer_report(reporter.ssrc, reporter.remote_ssrc, state.counters),
            ),
        ]
    }
}

/// A session once its reports have been made.
pub open spec fn after_reports(reporter: RtcpReporter, state: SessionState) -> SessionState {
    SessionState {
        counters: RtpCounters { packets_lost: state.counters.lost(), ..state.counters },
        link: if reporter.remote_ssrc == 0 {
            link::after_rtcp_sent(state.link)
        } else {
            link::after_rtcp_sent(link::after_rtcp_sent(state.link))
        },
        ..state
    }
}

/// The bytes of datagrams.
pub open spec fn views(datagrams: Seq<Vec<u8>>) -> Seq<Seq<u8>> {
    datagrams.map_values(|d: Vec<u8>| d@)
}

impl RtcpReporter {
    /// A reporter that does not know the other side yet.
    pub fn new(ssrc: u32) -> (reporter: Self)
        ensures
            reporter == (RtcpReporter { ssrc, remote_ssrc: 0 }),
    {
        RtcpReporter { ssrc, remote_ssrc: 0 }
    }

    /// The reports at a time.
    #[verifier::spinoff_prover]
    #[verifier::rlimit(40)]
    pub fn report_at(&self, session: &mut MediaSession, unix_secs: u64, nanos: u32) -> (out: Vec<
        Vec<u8>,
    >)
        requires
            nanos < 1_000_000_000,
        ensures
            views(out@) == reports(*self, old(session)@, unix_secs, nanos),
            final(session)@ == after_reports(*self, old(session)@),
    {
        let taken = session.counters.snapshot();
        let own = rtcp::build_rtcp_sr_at(
            self.ssrc,
            (taken.packets_sent % 0x1_0000_0000) as u32,
            (taken.bytes_sent % 0x1_0000_0000) as u32,
            unix_secs,
            nanos,
        );
        let mut out: Vec<Vec<u8>> = Vec::new();
        out.push(session.link.protect_rtcp(own));
        if self.remote_ssrc != 0 {
            let expected = session.counters.expected_packets;
            let lost = expected.saturating_sub(taken.packets_received);
            let fraction: u8 = if expected > 0 {
                ((lost as u128 * 256 / expected as u128) % 256) as u8
            } else {
                0
            };
            let peer = rtcp::build_rtcp_rr(
                self.ssrc,
                self.remote_ssrc,
                fraction,
                (lost % 0x1_0000_0000) as u32,
                session.counters.highest_seq,
                ((session.counters.jitter_us / 125) % 0x1_0000_0000) as u32,
            );
            out.push(session.link.protect_rtcp(peer));
        }
        assert(views(out@) =~= reports(*self, old(session)@, unix_secs, nanos));
        out
    }

    /// The reports now.
    pub fn report(&self, session: &mut MediaSession) -> (out: Vec<Vec<u8>>)
        ensures
            exists|at: SystemTime|
                {
                    let (unix_secs, nanos) = #[trigger] clock::report_time(at);
                    &&& nanos < 1_000_000_000
                    &&& views(out@) == reports(*self, old(session)@, unix_secs, nanos)
                },
            final(session)@ == after_reports(*self, old(session)@),
    {
        let now = SystemTime::now();
        let (unix_secs, nanos): (u64, u32) = match clock::since_unix_epoch(&now) {
            Some(elapsed) => elapsed,
            None => (0, 0),
        };
        assert(clock::report_time(now) == (unix_secs, nanos));
        self.report_at(session, unix_secs, nanos)
    }

    /// Takes a datagram: a report tells which source is on the other side.
    pub fn receive(&mut self, session: &mut MediaSession, data: &[u8])
        ensures
            *final(self) == (RtcpReporter {
                remote_ssrc: match reported_source(link::rtcp_opened(old(session)@.link, data@)) {
                    Some(source) => source,
                    None => old(self).remote_ssrc,
                },
                ..*old(self)
            }),
            final(session)@ == old(session)@,
    {
        let packet = session.link.unprotect_rtcp(data);
        if packet.len() >= 8 && (packet[1] == 200 || packet[1] == 201) {
            self.remote_ssrc = bytes::read_be32(packet.as_slice(), 4);
        }
    }
}

/// The fraction of lost packets is exact to one part in 256, unless all are lost:
/// then it is 256 parts, which the field shows as none.
pub proof fn law_loss_fraction_is_exact(lost: u64, expected: u64)
    requires
        lost <= expected,
        expected > 0,
    ensures
        lost < expected ==> loss_fraction(lost, expected) * expected <= lost * 256 < (
        loss_fraction(lost, expected) + 1) * expected,
        lost == expected ==> loss_fraction(lost, expected) == 0,
{
    let n = lost * 256;
    let d = expected as int;
    vstd::arithmetic::div_mod::lemma_fundamental_div_mod(n, d);
    vstd::arithmetic::mul::lemma_mul_is_commutative(d, n / d);
    assert((n / d + 1) * d == (n / d) * d + d) by (nonlinear_arith);
    if lost < expected {
        assert(0 <= n / d < 256) by (nonlinear_arith)
            requires
                0 <= n < 256 * d,
                d > 0,
        ;
    } else {
        assert(n / d == 256) by (nonlinear_arith)
            requires
                n == 256 * d,
                d > 0,
        ;
    }
}

/// A session that gets another's own report learns from it which source that
/// sends as, protected or not, when both have the same keys.
pub proof fn law_report_names_its_source(
    ssrc: u32,
    counters: RtpCounters,
    unix_secs: u64,
    nanos: u32,
    link: LinkState,
    peer: LinkState,
)
    requires
        match (link.tx(), peer.rx()) {
            (Some(tx), Some(rx)) => tx.rtcp == rx.rtcp && tx.srtcp_index < 0x8000_0000,
            (None, None) => true,
            _ => false,
        },
    ensures
        reported_source(
            link::rtcp_opened(
                peer,
                link::rtcp_on_wire(link, own_report(ssrc, counters, unix_secs, nanos)),
            ),
        ) == Some(ssrc),
{
    let packet = own_report(ssrc, counters, unix_secs, nanos);
    assert(packet.len() == 28);
    assert(packet[1] == 200);
    assert(packet.subrange(4, 8) =~= bytes::be32(ssrc));
    bytes::law_be32_round_trip(ssrc, packet, 4);
    if link.tx() is Some {
        let tx = link.tx()->0;
        srtp::laws::law_rtcp_round_trip(tx.rtcp, tx.srtcp_index, packet);
    }
}

/// The bytes of a receiver report: who reports, on whom, and on that the share and
/// number of lost packets, the highest sequence number, and the jitter in units of
/// the 8 kHz clock, rounded down.
pub proof fn law_receiver_report_tells_loss_and_jitter(
    ssrc: u32,
    remote_ssrc: u32,
    counters: RtpCounters,
)
    requires
        counters.packets_received <= counters.expected_packets,
        counters.jitter_us < 125 * 0x1_0000_0000,
        counters.expected_packets > 0,
        counters.packets_received > 0,
    ensures
        ({
            let report = peer_report(ssrc, remote_ssrc, counters);
            let jitter = bytes::be32_at(report, 20);
            let lost = counters.expected_packets - counters.packets_received;
            &&& report.len() == 32
            &&& report[1] == 201
            &&& bytes::be32_at(report, 4) == ssrc
            &&& bytes::be32_at(report, 8) == remote_ssrc
            &&& report[12] * counters.expected_packets <= lost * 256
            &&& lost * 256 < (report[12] + 1) * counters.expected_packets
            &&& lost < 0x100_0000 ==> report[13] * 0x1_0000 + report[14] * 0x100 + report[15]
                == lost
            &&& bytes::be32_at(report, 16) == counters.highest_seq
            &&& jitter * 125 <= counters.jitter_us < (jitter + 1) * 125
        }),
{
    let lost = (counters.expected_packets - counters.packets_received) as u64;
    assert(counters.lost() == lost);
    let fraction = loss_fraction(lost, counters.expected_packets);
    let (cumulative, jitter) = (
        (lost % 0x1_0000_0000) as u32,
        ((counters.jitter_us / 125) % 0x1_0000_0000) as u32,
    );
    rtcp::law_receiver_report_parses(
        ssrc,
        remote_ssrc,
        fraction,
        cumulative,
        counters.highest_seq,
        jitter,
    );
    rtcp::law_report_headers(
        ssrc,
        remote_ssrc,
        fraction,
        cumulative,
        counters.highest_seq,
        jitter,
    );
    law_loss_fraction_is_exact(lost, counters.expected_packets);
}

/// The bytes of a sender report: who sends, how many packets, and how many bytes of
/// payload.
#[verifier::spinoff_prover]
#[verifier::rlimit(40)]
pub proof fn law_sender_report_tells_what_was_sent(
    ssrc: u32,
    counters: RtpCounters,
    unix_secs: u64,
    nanos: u32,
)
    requires
        counters.packets_sent <= u32::MAX,
        counters.bytes_sent <= u32::MAX,
    ensures
        ({
            let report = own_report(ssrc, counters, unix_secs, nanos);
            &&& report.len() == 28
            &&& report[1] == 200
            &&& bytes::be32_at(report, 4) == ssrc
            &&& bytes::be32_at(report, 20) == counters.packets_sent
            &&& bytes::be32_at(report, 24) == counters.bytes_sent
            &&& report == rtcp::sender_report(
                ssrc,
                counters.packets_sent as u32,
                counters.bytes_sent as u32,
                unix_secs,
                nanos,
            )
        }),
{
    let (packets, octets) = (counters.packets_sent as u32, counters.bytes_sent as u32);
    assert((counters.packets_sent % 0x1_0000_0000) as u32 == packets);
    assert((counters.bytes_sent % 0x1_0000_0000) as u32 == octets);
    rtcp::law_sender_report_parses(ssrc, packets, octets, unix_secs, nanos);
}

/// A session reports on itself every time, and behind that on the other side as
/// soon as its source is known. On a plain link the reports go as they are.
pub proof fn law_both_reports_are_made(
    reporter: RtcpReporter,
    state: SessionState,
    unix_secs: u64,
    nanos: u32,
)
    ensures
        ({
            let out = reports(reporter, state, unix_secs, nanos);
            &&& reporter.remote_ssrc == 0 ==> out.len() == 1
            &&& reporter.remote_ssrc != 0 ==> out.len() == 2
            &&& state.link is Plain ==> out[0] == own_report(
                reporter.ssrc,
                state.counters,
                unix_secs,
                nanos,
            )
            &&& state.link is Plain && reporter.remote_ssrc != 0 ==> out[1] == peer_report(
                reporter.ssrc,
                reporter.remote_ssrc,
                state.counters,
            )
        }),
        after_reports(reporter, state).counters.packets_lost == state.counters.lost(),
        after_reports(reporter, state).counters.packets_sent == state.counters.packets_sent,
        after_reports(reporter, state).counters.bytes_sent == state.counters.bytes_sent,
        after_reports(reporter, state).counters.packets_received
            == state.counters.packets_received,
        after_reports(reporter, state).learned_remote == state.learned_remote,
        after_reports(reporter, state).recording == state.recording,
        after_reports(reporter, state).running == state.running,
{
}

/// The other side opens both reports, when it has the same keys, and finds in them
/// what was reported.
pub proof fn law_both_reports_are_opened(
    reporter: RtcpReporter,
    state: SessionState,
    unix_secs: u64,
    nanos: u32,
    peer: LinkState,
)
    requires
        reporter.remote_ssrc != 0,
        match (state.link.tx(), peer.rx()) {
            (Some(tx), Some(rx)) => tx.rtcp == rx.rtcp && tx.srtcp_index < 0x8000_0000,
            (None, None) => true,
            _ => false,
        },
    ensures
        ({
            let out = reports(reporter, state, unix_secs, nanos);
            &&& link::rtcp_opened(peer, out[0]) == own_report(
                reporter.ssrc,
                state.counters,
                unix_secs,
                nanos,
            )
            &&& link::rtcp_opened(peer, out[1]) == peer_report(
                reporter.ssrc,
                reporter.remote_ssrc,
                state.counters,
            )
        }),
{
    let own = own_report(reporter.ssrc, state.counters, unix_secs, nanos);
    let theirs = peer_report(reporter.ssrc, reporter.remote_ssrc, state.counters);
    assert(own.len() == 28);
    assert(theirs.len() == 32);
    if state.link.tx() is Some {
        let tx = state.link.tx()->0;
        srtp::laws::law_rtcp_round_trip(tx.rtcp, tx.srtcp_index, own);
        let next = srtp::after_sending_rtcp(tx);
        srtp::laws::law_rtcp_round_trip(next.rtcp, next.srtcp_index, theirs);
    }
}

/// A report names the source that made it; nothing else names one.
pub proof fn law_only_reports_name_a_source(packet: Seq<u8>)
    ensures
        packet.len() >= 8 && (packet[1] == 200 || packet[1] == 201) ==> reported_source(packet)
            == Some(
            (packet[4] * 0x100_0000 + packet[5] * 0x1_0000 + packet[6] * 0x100 + packet[7]) as u32,
        ),
        packet.len() < 8 ==> reported_source(packet) is None,
        packet.len() >= 8 && packet[1] != 200 && packet[1] != 201 ==> reported_source(
            packet,
        ) is None,
{
}

/// Every report that is made moves the sending context on by one, and nothing else of
/// the contexts.
pub proof fn law_reports_use_up_indices(reporter: RtcpReporter, state: SessionState)
    requires
        state.link.tx() matches Some(tx) ==> tx.srtcp_index < 0x7fff_fffe,
    ensures
        ({
            let after = after_reports(reporter, state).link;
            &&& state.link.tx() is None ==> after == state.link
            &&& state.link.tx() matches Some(tx) ==> {
                &&& after.tx() matches Some(now)
                &&& now.srtcp_index == tx.srtcp_index + if reporter.remote_ssrc == 0 {
                    1int
                } else {
                    2
                }
                &&& now.rtp == tx.rtp && now.rtcp == tx.rtcp
                &&& now.sent_roc == tx.sent_roc && now.last_sent == tx.last_sent
            }
            &&& state.link is Separate ==> after.rx() == state.link.rx()
        }),
{
}

} // verus!
