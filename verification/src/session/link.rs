//! How packets are protected on their way: not at all, with one SRTP context for
//! both directions, or with one for each.

use vstd::prelude::*;

use crate::bytes;
use crate::error::Error;
use crate::srtp::{self, SrtpContext, SrtpState};

verus! {

/// The SRTP contexts of a session.
pub enum SrtpLink {
    /// Plain RTP.
    Plain,
    /// One context for both directions.
    Shared(SrtpContext),
    /// A context for what is sent, and one for what is received.
    Separate {
        /// For what is sent.
        tx: SrtpContext,
        /// For what is received.
        rx: SrtpContext,
    },
}

/// The states of the contexts of a session.
pub enum LinkState {
    /// Plain RTP.
    Plain,
    /// One context for both directions.
    Shared(SrtpState),
    /// A context for what is sent, and one for what is received.
    Separate(SrtpState, SrtpState),
}

impl View for SrtpLink {
    type V = LinkState;

    open spec fn view(&self) -> LinkState {
        match self {
            SrtpLink::Plain => LinkState::Plain,
            SrtpLink::Shared(both) => LinkState::Shared(both@),
            SrtpLink::Separate { tx, rx } => LinkState::Separate(tx@, rx@),
        }
    }
}

impl LinkState {
    /// The context for what is sent.
    pub open spec fn tx(self) -> Option<SrtpState> {
        match self {
            LinkState::Plain => None,
            LinkState::Shared(both) => Some(both),
            LinkState::Separate(tx, _) => Some(tx),
        }
    }

    /// The context for what is received.
    pub open spec fn rx(self) -> Option<SrtpState> {
        match self {
            LinkState::Plain => None,
            LinkState::Shared(both) => Some(both),
            LinkState::Separate(_, rx) => Some(rx),
        }
    }

    /// The link with another context for what is sent.
    pub open spec fn with_tx(self, state: SrtpState) -> LinkState {
        match self {
            LinkState::Plain => self,
            LinkState::Shared(_) => LinkState::Shared(state),
            LinkState::Separate(_, rx) => LinkState::Separate(state, rx),
        }
    }

    /// The link with another context for what is received.
    pub open spec fn with_rx(self, state: SrtpState) -> LinkState {
        match self {
            LinkState::Plain => self,
            LinkState::Shared(_) => LinkState::Shared(state),
            LinkState::Separate(tx, _) => LinkState::Separate(tx, state),
        }
    }
}

/// The link for the contexts that a session was given: with the sending one alone
/// it serves both directions, without it nothing is protected.
pub open spec fn of_contexts(tx: Option<SrtpContext>, rx: Option<SrtpContext>) -> LinkState {
    match (tx, rx) {
        (Some(t), Some(r)) => LinkState::Separate(t@, r@),
        (Some(t), None) => LinkState::Shared(t@),
        _ => LinkState::Plain,
    }
}

/// A whole RTP packet on the wire.
pub open spec fn rtp_on_wire(link: LinkState, packet: Seq<u8>) -> Seq<u8> {
    match link.tx() {
        Some(tx) => srtp::rtp_protected(
            tx.rtp,
            srtp::sending_roc(tx, bytes::be16_at(packet, 2)),
            packet,
        ),
        None => packet,
    }
}

/// The link once a whole RTP packet has been sent.
pub open spec fn after_rtp_sent(link: LinkState, packet: Seq<u8>) -> LinkState {
    match link.tx() {
        Some(tx) => link.with_tx(srtp::after_sending(tx, bytes::be16_at(packet, 2))),
        None => link,
    }
}

/// Whether a datagram is accepted as RTP: always, on a plain link.
pub open spec fn rtp_accepted(link: LinkState, data: Seq<u8>) -> bool {
    link.rx() matches Some(rx) ==> {
        &&& srtp::holds_rtp_header(data, 10)
        &&& srtp::rtp_authentic(rx.rtp, srtp::receiving_roc(rx, bytes::be16_at(data, 2)), data)
    }
}

/// The RTP packet in an accepted datagram.
pub open spec fn rtp_opened(link: LinkState, data: Seq<u8>) -> Seq<u8> {
    match link.rx() {
        Some(rx) => srtp::rtp_ciphered(
            rx.rtp,
            srtp::receiving_roc(rx, bytes::be16_at(data, 2)),
            srtp::untagged(data),
        ),
        None => data,
    }
}

/// The link once a datagram has been accepted.
pub open spec fn after_rtp_received(link: LinkState, data: Seq<u8>) -> LinkState {
    match link.rx() {
        Some(rx) => link.with_rx(srtp::after_receiving(rx, bytes::be16_at(data, 2))),
        None => link,
    }
}

/// An RTCP packet of at least 8 bytes on the wire.
pub open spec fn rtcp_on_wire(link: LinkState, packet: Seq<u8>) -> Seq<u8> {
    match link.tx() {
        Some(tx) => srtp::rtcp_protected(tx.rtcp, tx.srtcp_index, packet),
        None => packet,
    }
}

/// The link once an RTCP packet has been sent.
pub open spec fn after_rtcp_sent(link: LinkState) -> LinkState {
    match link.tx() {
        Some(tx) => link.with_tx(srtp::after_sending_rtcp(tx)),
        None => link,
    }
}

/// The RTCP packet in a datagram; the datagram itself where it does not
/// authenticate.
pub open spec fn rtcp_opened(link: LinkState, data: Seq<u8>) -> Seq<u8> {
    match link.rx() {
        Some(rx) => if data.len() >= 22 && srtp::rtcp_authentic(rx.rtcp, data) {
            srtp::rtcp_unprotected(rx.rtcp, data)
        } else {
            data
        },
        None => data,
    }
}

impl SrtpLink {
    /// The link for the contexts that a session was given.
    pub fn new(tx: Option<SrtpContext>, rx: Option<SrtpContext>) -> (link: Self)
        ensures
            link@ == of_contexts(tx, rx),
    {
        match tx {
            Some(tx) => match rx {
                Some(rx) => SrtpLink::Separate { tx, rx },
                None => SrtpLink::Shared(tx),
            },
            None => SrtpLink::Plain,
        }
    }

    /// Protects a whole RTP packet for sending.
    pub fn protect_rtp(&mut self, packet: Vec<u8>) -> (out: Result<Vec<u8>, Error>)
        ensures
            srtp::holds_rtp_header(packet@, 0) ==> {
                &&& out matches Ok(o) && o@ == rtp_on_wire(old(self)@, packet@)
                &&& final(self)@ == after_rtp_sent(old(self)@, packet@)
            },
            !srtp::holds_rtp_header(packet@, 0) ==> {
                &&& out is Err <==> !(old(self)@ is Plain)
                &&& out matches Ok(o) ==> o@ == packet@
                &&& final(self)@ == old(self)@
            },
    {
        match self {
            SrtpLink::Plain => Ok(packet),
            SrtpLink::Shared(both) => both.protect_rtp(packet.as_slice()),
            SrtpLink::Separate { tx, .. } => tx.protect_rtp(packet.as_slice()),
        }
    }

    /// Opens a datagram as RTP; nothing where it is refused.
    pub fn unprotect_rtp(&mut self, data: &[u8]) -> (out: Option<Vec<u8>>)
        ensures
            match out {
                Some(o) => {
                    &&& rtp_accepted(old(self)@, data@)
                    &&& o@ == rtp_opened(old(self)@, data@)
                    &&& final(self)@ == after_rtp_received(old(self)@, data@)
                },
                None => !rtp_accepted(old(self)@, data@) && final(self)@ == old(self)@,
            },
    {
        let result = match self {
            SrtpLink::Plain => {
                let copy = bytes::copy_range(data, 0, data.len());
                assert(copy@ =~= data@);
                Ok(copy)
            },
            SrtpLink::Shared(both) => both.unprotect_rtp(data),
            SrtpLink::Separate { rx, .. } => rx.unprotect_rtp(data),
        };
        match result {
            Ok(out) => Some(out),
            Err(_) => None,
        }
    }

    /// Protects an RTCP packet for sending; one that is too short is sent as it
    /// is.
    pub fn protect_rtcp(&mut self, packet: Vec<u8>) -> (out: Vec<u8>)
        ensures
            packet@.len() >= 8 ==> {
                &&& out@ == rtcp_on_wire(old(self)@, packet@)
                &&& final(self)@ == after_rtcp_sent(old(self)@)
            },
            packet@.len() < 8 ==> out@ == packet@ && final(self)@ == old(self)@,
    {
        let result = match self {
            SrtpLink::Plain => {
                return packet;
            },
            SrtpLink::Shared(both) => both.protect_rtcp(packet.as_slice()),
            SrtpLink::Separate { tx, .. } => tx.protect_rtcp(packet.as_slice()),
        };
        match result {
            Ok(out) => out,
            Err(_) => packet,
        }
    }

    /// Opens a datagram as RTCP; one that does not authenticate is taken as it is.
    pub fn unprotect_rtcp(&mut self, data: &[u8]) -> (out: Vec<u8>)
        ensures
            out@ == rtcp_opened(old(self)@, data@),
            final(self)@ == old(self)@,
    {
        let copy = bytes::copy_range(data, 0, data.len());
        assert(copy@ =~= data@);
        let result = match self {
            SrtpLink::Plain => {
                return copy;
            },
            SrtpLink::Shared(both) => both.unprotect_rtcp(data),
            SrtpLink::Separate { rx, .. } => rx.unprotect_rtcp(data),
        };
        match result {
            Ok(out) => out,
            Err(_) => copy,
        }
    }
}

/// Without contexts packets go and come as they are, and every datagram is accepted.
pub proof fn law_plain_links_change_nothing(packet: Seq<u8>)
    ensures
        rtp_on_wire(LinkState::Plain, packet) == packet,
        after_rtp_sent(LinkState::Plain, packet) == LinkState::Plain,
        rtp_accepted(LinkState::Plain, packet),
        rtp_opened(LinkState::Plain, packet) == packet,
        after_rtp_received(LinkState::Plain, packet) == LinkState::Plain,
        rtcp_on_wire(LinkState::Plain, packet) == packet,
        after_rtcp_sent(LinkState::Plain) == LinkState::Plain,
        rtcp_opened(LinkState::Plain, packet) == packet,
{
}

/// The contexts of a session: both of those that it was given, the sending one for both
/// directions where it is the only one, and none without it.
pub proof fn law_contexts_serve_their_directions(
    tx: Option<SrtpContext>,
    rx: Option<SrtpContext>,
)
    ensures
        tx matches Some(t) ==> of_contexts(tx, rx).tx() == Some(t@),
        tx is Some && rx is Some ==> of_contexts(tx, rx).rx() == Some(rx->0@),
        tx is Some && rx is None ==> of_contexts(tx, rx).rx() == Some(tx->0@),
        tx is None ==> of_contexts(tx, rx).tx() is None && of_contexts(tx, rx).rx() is None,
{
}

/// What is sent moves the sending context on, what is received the receiving one; with
/// a context for each, the other one stays.
pub proof fn law_links_keep_their_directions(
    sending: SrtpState,
    receiving: SrtpState,
    packet: Seq<u8>,
)
    ensures
        ({
            let link = LinkState::Separate(sending, receiving);
            let seq = bytes::be16_at(packet, 2);
            &&& after_rtp_sent(link, packet).rx() == Some(receiving)
            &&& after_rtp_sent(link, packet).tx() == Some(srtp::after_sending(sending, seq))
            &&& after_rtp_received(link, packet).tx() == Some(sending)
            &&& after_rtp_received(link, packet).rx() == Some(
                srtp::after_receiving(receiving, seq),
            )
            &&& after_rtcp_sent(link).rx() == Some(receiving)
            &&& after_rtcp_sent(link).tx() == Some(srtp::after_sending_rtcp(sending))
        }),
        ({
            let link = LinkState::Shared(sending);
            let seq = bytes::be16_at(packet, 2);
            &&& after_rtp_sent(link, packet) == LinkState::Shared(srtp::after_sending(sending, seq))
            &&& after_rtp_received(link, packet) == LinkState::Shared(
                srtp::after_receiving(sending, seq),
            )
            &&& after_rtcp_sent(link) == LinkState::Shared(srtp::after_sending_rtcp(sending))
        }),
{
}

/// On a link with contexts a packet goes out protected under the rollover counter of
/// its number, and a datagram is accepted only where it authenticates under that of its
/// own; a report that does not authenticate is taken as it is.
pub proof fn law_protected_links_protect(tx: SrtpState, rx: SrtpState, packet: Seq<u8>)
    ensures
        ({
            let link = LinkState::Separate(tx, rx);
            let seq = bytes::be16_at(packet, 2);
            &&& rtp_on_wire(link, packet) == srtp::rtp_protected(
                tx.rtp,
                srtp::sending_roc(tx, seq),
                packet,
            )
            &&& rtp_accepted(link, packet) ==> packet.len() >= 22 && srtp::rtp_authentic(
                rx.rtp,
                srtp::receiving_roc(rx, seq),
                packet,
            )
            &&& rtp_opened(link, packet) == srtp::rtp_ciphered(
                rx.rtp,
                srtp::receiving_roc(rx, seq),
                packet.take(packet.len() - 10),
            )
            &&& rtcp_on_wire(link, packet) == srtp::rtcp_protected(
                tx.rtcp,
                tx.srtcp_index,
                packet,
            )
            &&& packet.len() >= 22 && srtp::rtcp_authentic(rx.rtcp, packet) ==> rtcp_opened(
                link,
                packet,
            ) == srtp::rtcp_unprotected(rx.rtcp, packet)
            &&& packet.len() < 22 || !srtp::rtcp_authentic(rx.rtcp, packet) ==> rtcp_opened(
                link,
                packet,
            ) == packet
        }),
{
}

} // verus!
