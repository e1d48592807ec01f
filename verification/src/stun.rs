//! STUN client for NAT traversal.
//!
//! The messages of RFC 5389 (Session Traversal Utilities for NAT) that discover
//! the public IP address and port as a STUN server sees them, and the order in
//! which servers are asked. Sockets are the caller's.

use vstd::prelude::*;

use crate::bytes;
use crate::crypto;
use crate::error::Error;
use crate::net::{IpAddr, SocketAddr};
use crate::text;

verus! {

/// Default STUN servers (Google's public STUN servers).
pub const DEFAULT_STUN_SERVERS: [&'static str; 5] = [
    "stun.l.google.com:19302",
    "stun1.l.google.com:19302",
    "stun2.l.google.com:19302",
    "stun3.l.google.com:19302",
    "stun4.l.google.com:19302",
];

/// How long a server has to reply, in milliseconds.
pub const STUN_TIMEOUT_MS: u64 = 3000;

const STUN_BINDING_REQUEST: u16 = 0x0001;

const STUN_BINDING_RESPONSE: u16 = 0x0101;

const STUN_MAGIC_COOKIE: u32 = 0x2112_A442;

const ATTR_MAPPED_ADDRESS: u16 = 0x0001;

const ATTR_XOR_MAPPED_ADDRESS: u16 = 0x0020;

/// Result of a STUN binding request.
#[derive(Debug, Clone, Copy, PartialEq, Eq, Structural)]
pub struct StunResult {
    /// The public IP address as seen by the STUN server.
    pub public_ip: IpAddr,
    /// The public port as seen by the STUN server.
    pub public_port: u16,
    /// The local IP address used.
    pub local_ip: IpAddr,
    /// The local port used.
    pub local_port: u16,
}

impl StunResult {
    /// The result for a public and a local address.
    pub fn new(public: SocketAddr, local: SocketAddr) -> (result: Self)
        ensures
            result.public_ip == public.ip,
            result.public_port == public.port,
            result.local_ip == local.ip,
            result.local_port == local.port,
    {
        StunResult {
            public_ip: public.ip,
            public_port: public.port,
            local_ip: local.ip,
            local_port: local.port,
        }
    }

    /// The public socket address.
    pub fn public_addr(&self) -> (addr: SocketAddr)
        ensures
            addr == (SocketAddr { ip: self.public_ip, port: self.public_port }),
    {
        SocketAddr { ip: self.public_ip, port: self.public_port }
    }

    /// The local socket address.
    pub fn local_addr(&self) -> (addr: SocketAddr)
        ensures
            addr == (SocketAddr { ip: self.local_ip, port: self.local_port }),
    {
        SocketAddr { ip: self.local_ip, port: self.local_port }
    }

    /// Whether we are behind NAT (public and local address differ).
    pub fn is_natted(&self) -> (natted: bool)
        ensures
            natted == !(self.public_ip == self.local_ip && self.public_port == self.local_port),
    {
        self.public_ip != self.local_ip || self.public_port != self.local_port
    }
}

// ---- messages ----
/// A binding request: no attributes, so its length is zero.
pub open spec fn binding_request(transaction_id: Seq<u8>) -> Seq<u8> {
    bytes::be16(0x0001) + bytes::be16(0) + bytes::be32(0x2112_A442) + transaction_id
}

/// The address in a XOR-MAPPED-ADDRESS attribute, or what is wrong with it.
pub open spec fn xor_mapped_address(data: Seq<u8>) -> Result<SocketAddr, Seq<char>> {
    if data.len() < 8 {
        Err("XOR-MAPPED-ADDRESS too short"@)
    } else if data[1] == 1 {
        Ok(
            SocketAddr {
                ip: IpAddr::V4(bytes::be32_at(data, 4) ^ 0x2112_A442),
                port: bytes::be16_at(data, 2) ^ 0x2112,
            },
        )
    } else if data[1] == 2 {
        if data.len() < 20 {
            Err("XOR-MAPPED-ADDRESS IPv6 too short"@)
        } else {
            Err("IPv6 STUN not yet supported"@)
        }
    } else {
        Err("Unknown address family: "@ + text::decimal(data[1] as nat))
    }
}

/// The address in a MAPPED-ADDRESS attribute, or what is wrong with it.
pub open spec fn mapped_address(data: Seq<u8>) -> Result<SocketAddr, Seq<char>> {
    if data.len() < 8 {
        Err("MAPPED-ADDRESS too short"@)
    } else if data[1] == 1 {
        Ok(
            SocketAddr {
                ip: IpAddr::V4(bytes::be32_at(data, 4)),
                port: bytes::be16_at(data, 2),
            },
        )
    } else if data[1] == 2 {
        Err("IPv6 STUN not yet supported"@)
    } else {
        Err("Unknown address family: "@ + text::decimal(data[1] as nat))
    }
}

/// `len` rounded up to a multiple of four.
pub open spec fn padded(len: int) -> int {
    (len + 3) / 4 * 4
}

/// The address in the first address attribute at or after `offset`, in a message
/// whose attributes end at `end`.
pub open spec fn first_address(data: Seq<u8>, offset: int, end: int) -> Result<
    SocketAddr,
    Seq<char>,
>
    decreases data.len() + 4 - offset,
{
    let kind = bytes::be16_at(data, offset);
    let len = bytes::be16_at(data, offset + 2);
    let start = offset + 4;
    if start > end || start + len > data.len() {
        Err("No mapped address in response"@)
    } else if kind == 0x0020 {
        xor_mapped_address(data.subrange(start, start + len))
    } else if kind == 0x0001 {
        mapped_address(data.subrange(start, start + len))
    } else {
        first_address(data, start + padded(len as int), end)
    }
}

/// The public address in the reply to a binding request, or what is wrong with
/// the reply.
pub open spec fn bound_address(data: Seq<u8>, transaction_id: Seq<u8>) -> Result<
    SocketAddr,
    Seq<char>,
> {
    if data.len() < 20 {
        Err("Response too short"@)
    } else if bytes::be16_at(data, 0) != 0x0101 {
        Err("Unexpected message type: 0x"@ + text::hex4(bytes::be16_at(data, 0)))
    } else if bytes::be32_at(data, 4) != 0x2112_A442 {
        Err("Invalid magic cookie"@)
    } else if data.subrange(8, 20) != transaction_id {
        Err("Transaction ID mismatch"@)
    } else if data.len() < 20 + bytes::be16_at(data, 2) {
        Err("Truncated message"@)
    } else {
        first_address(data, 20, 20 + bytes::be16_at(data, 2))
    }
}

/// Whether `result` is what `expected` says: the address, or a STUN error with
/// the text.
pub open spec fn agrees(
    result: Result<SocketAddr, Error>,
    expected: Result<SocketAddr, Seq<char>>,
) -> bool {
    match (result, expected) {
        (Ok(address), Ok(wanted)) => address == wanted,
        (Err(Error::Stun(m)), Err(wanted)) => m@ == wanted,
        _ => false,
    }
}

/// Builds a STUN binding request message.
pub fn build_binding_request(transaction_id: &[u8; 12]) -> (msg: Vec<u8>)
    ensures
        msg@ == binding_request(transaction_id@),
{
    let mut msg: Vec<u8> = Vec::new();
    bytes::push_be16(&mut msg, STUN_BINDING_REQUEST);
    bytes::push_be16(&mut msg, 0);
    bytes::push_be32(&mut msg, STUN_MAGIC_COOKIE);
    bytes::append_bytes(&mut msg, transaction_id.as_slice());
    assert(msg@ =~= binding_request(transaction_id@));
    msg
}

/// A binding request with a random transaction id, and the id.
pub fn new_binding_request() -> (request: ([u8; 12], Vec<u8>))
    ensures
        request.1@ == binding_request(request.0@),
{
    let transaction_id = crypto::random_bytes::<12>();
    let msg = build_binding_request(&transaction_id);
    (transaction_id, msg)
}

fn unknown_family(family: u8) -> (e: Error)
    ensures
        e matches Error::Stun(m) && m@ == "Unknown address family: "@ + text::decimal(
            family as nat,
        ),
{
    let mut message = "Unknown address family: ".to_string();
    text::push_decimal(&mut message, family as u64);
    Error::Stun(message)
}

/// Parses a XOR-MAPPED-ADDRESS attribute.
pub fn parse_xor_mapped_address(data: &[u8]) -> (result: Result<SocketAddr, Error>)
    ensures
        agrees(result, xor_mapped_address(data@)),
{
    if data.len() < 8 {
        return Err(Error::stun("XOR-MAPPED-ADDRESS too short"));
    }
    let family = data[1];
    let port: u16 = bytes::read_be16(data, 2) ^ 0x2112;
    match family {
        0x01 => {
            let addr: u32 = bytes::read_be32(data, 4) ^ STUN_MAGIC_COOKIE;
            Ok(SocketAddr { ip: IpAddr::V4(addr), port })
        },
        0x02 => {
            if data.len() < 20 {
                return Err(Error::stun("XOR-MAPPED-ADDRESS IPv6 too short"));
            }
            Err(Error::stun("IPv6 STUN not yet supported"))
        },
        _ => Err(unknown_family(family)),
    }
}

/// Parses a MAPPED-ADDRESS attribute (legacy, not XOR-ed).
pub fn parse_mapped_address(data: &[u8]) -> (result: Result<SocketAddr, Error>)
    ensures
        agrees(result, mapped_address(data@)),
{
    if data.len() < 8 {
        return Err(Error::stun("MAPPED-ADDRESS too short"));
    }
    let family = data[1];
    let port = bytes::read_be16(data, 2);
    match family {
        0x01 => Ok(SocketAddr { ip: IpAddr::V4(bytes::read_be32(data, 4)), port }),
        0x02 => Err(Error::stun("IPv6 STUN not yet supported")),
        _ => Err(unknown_family(family)),
    }
}

/// Parses a STUN binding response to extract the mapped address.
pub fn parse_binding_response(data: &[u8], expected_txn_id: &[u8; 12]) -> (result: Result<
    SocketAddr,
    Error,
>)
    ensures
        agrees(result, bound_address(data@, expected_txn_id@)),
{
    if data.len() < 20 {
        return Err(Error::stun("Response too short"));
    }
    let msg_type = bytes::read_be16(data, 0);
    if msg_type != STUN_BINDING_RESPONSE {
        let mut message = "Unexpected message type: 0x".to_string();
        text::push_hex4(&mut message, msg_type);
        return Err(Error::Stun(message));
    }
    if bytes::read_be32(data, 4) != STUN_MAGIC_COOKIE {
        return Err(Error::stun("Invalid magic cookie"));
    }
    for i in 0..12usize
        invariant
            data@.len() >= 20,
            bytes::be16_at(data@, 0) == 0x0101,
            bytes::be32_at(data@, 4) == 0x2112_A442,
            forall|j: int| 0 <= j < i ==> data@[8 + j] == expected_txn_id@[j],
    {
        if data[8 + i] != expected_txn_id[i] {
            assert(data@.subrange(8, 20)[i as int] != expected_txn_id@[i as int]);
            return Err(Error::stun("Transaction ID mismatch"));
        }
    }
    assert(data@.subrange(8, 20) =~= expected_txn_id@);
    let msg_len: usize = bytes::read_be16(data, 2) as usize;
    if data.len() < 20 + msg_len {
        return Err(Error::stun("Truncated message"));
    }
    let end: usize = 20 + msg_len;
    let mut offset: usize = 20;
    while offset + 4 <= end
        invariant_except_break
            first_address(data@, 20, end as int) == first_address(data@, offset as int, end as int),
        invariant
            end <= data@.len(),
            end <= 20 + 0xffff,
            offset <= 20 + 3 * 0xffff,
            bound_address(data@, expected_txn_id@) == first_address(data@, 20, end as int),
        ensures
            bound_address(data@, expected_txn_id@) == Err::<SocketAddr, Seq<char>>(
                "No mapped address in response"@,
            ),
        decreases data@.len() + 4 - offset,
    {
        let attr_type = bytes::read_be16(data, offset);
        let attr_len: usize = bytes::read_be16(data, offset + 2) as usize;
        let start: usize = offset + 4;
        if start + attr_len > data.len() {
            break;
        }
        if attr_type == ATTR_XOR_MAPPED_ADDRESS {
            return parse_xor_mapped_address(
                vstd::slice::slice_subrange(data, start, start + attr_len),
            );
        }
        if attr_type == ATTR_MAPPED_ADDRESS {
            return parse_mapped_address(vstd::slice::slice_subrange(data, start, start + attr_len));
        }
        offset = start + (attr_len + 3) / 4 * 4;
    }
    Err(Error::stun("No mapped address in response"))
}

// ---- asking the servers ----
/// What came of asking one server.
#[derive(Debug)]
pub enum StunReply {
    /// The server's name has no address.
    Unresolved,
    /// Nothing came in time.
    TimedOut,
    /// Sending or receiving failed.
    Failed(std::io::Error),
    /// A datagram came.
    Received(Vec<u8>),
}

/// The public address that a reply tells, or the error that it amounts to.
pub fn conclude(server: &str, transaction_id: &[u8; 12], reply: StunReply) -> (result: Result<
    SocketAddr,
    Error,
>)
    ensures
        match reply {
            StunReply::Unresolved => result matches Err(Error::Stun(m)) && m@
                == "Could not resolve STUN server: "@ + server@,
            StunReply::TimedOut => result matches Err(Error::Stun(m)) && m@
                == "STUN request timed out"@,
            StunReply::Failed(e) => result == Err::<SocketAddr, Error>(Error::Network(e)),
            StunReply::Received(data) => agrees(result, bound_address(data@, transaction_id@)),
        },
{
    match reply {
        StunReply::Unresolved => {
            let mut message = "Could not resolve STUN server: ".to_string();
            message.append(server);
            Err(Error::Stun(message))
        },
        StunReply::TimedOut => Err(Error::stun("STUN request timed out")),
        StunReply::Failed(e) => Err(Error::Network(e)),
        StunReply::Received(data) => parse_binding_response(data.as_slice(), transaction_id),
    }
}

/// The servers asked so far, one after the other, and how the last one failed.
#[derive(Debug)]
pub struct Discovery {
    tried: usize,
    last_error: Option<Error>,
}

impl Discovery {
    /// How many servers have failed.
    pub closed spec fn failures(&self) -> int {
        self.tried as int
    }

    /// How the last server failed.
    pub closed spec fn last(&self) -> Option<Error> {
        self.last_error
    }

    /// Whether the counts go together.
    pub open spec fn wf(&self) -> bool {
        0 <= self.failures() <= 5 && (self.last() is None <==> self.failures() == 0)
    }

    /// Before the first server.
    pub fn new() -> (d: Self)
        ensures
            d.wf(),
            d.failures() == 0,
    {
        Discovery { tried: 0, last_error: None }
    }

    /// The server to ask now; none once all have failed.
    pub fn server(&self) -> (server: Option<&'static str>)
        requires
            self.wf(),
        ensures
            match server {
                Some(s) => self.failures() < 5 && s == DEFAULT_STUN_SERVERS[self.failures()],
                None => self.failures() == 5,
            },
    {
        if self.tried < 5 {
            let servers: [&'static str; 5] = DEFAULT_STUN_SERVERS;
            Some(servers[self.tried])
        } else {
            None
        }
    }

    /// The server failed: the next one is to be asked.
    pub fn failed(&mut self, e: Error)
        requires
            old(self).wf(),
            old(self).failures() < 5,
        ensures
            final(self).wf(),
            final(self).failures() == old(self).failures() + 1,
            final(self).last() == Some(e),
    {
        self.tried = self.tried + 1;
        self.last_error = Some(e);
    }

    /// What to report once no server is left: how the last one failed.
    pub fn into_error(self) -> (e: Error)
        requires
            self.wf(),
        ensures
            match self.last() {
                Some(last) => e == last,
                None => e matches Error::Stun(m) && m@ == "All STUN servers failed"@,
            },
    {
        match self.last_error {
            Some(e) => e,
            None => Error::stun("All STUN servers failed"),
        }
    }
}

// ---- what holds of the messages ----
/// The value of a XOR-MAPPED-ADDRESS attribute for an IPv4 address.
pub open spec fn xor_mapped_value(ip: u32, port: u16) -> Seq<u8> {
    seq![0u8, 1u8] + bytes::be16(port ^ 0x2112) + bytes::be32(ip ^ 0x2112_A442)
}

/// The response that a server sends to a binding request.
pub open spec fn binding_response(transaction_id: Seq<u8>, ip: u32, port: u16) -> Seq<u8> {
    response_with(transaction_id, xor_mapped_value(ip, port))
}

/// A response with one attribute, a XOR-MAPPED-ADDRESS of eight bytes.
pub open spec fn response_with(transaction_id: Seq<u8>, value: Seq<u8>) -> Seq<u8> {
    bytes::be16(0x0101) + bytes::be16(12) + bytes::be32(0x2112_A442) + transaction_id
        + bytes::be16(0x0020) + bytes::be16(8) + value
}

proof fn lemma_response_layout(transaction_id: Seq<u8>, value: Seq<u8>)
    requires
        transaction_id.len() == 12,
        value.len() == 8,
    ensures
        ({
            let data = response_with(transaction_id, value);
            &&& data.len() == 32
            &&& bytes::be16_at(data, 0) == 0x0101
            &&& bytes::be16_at(data, 2) == 12
            &&& bytes::be32_at(data, 4) == 0x2112_A442
            &&& data.subrange(8, 20) == transaction_id
            &&& bytes::be16_at(data, 20) == 0x0020
            &&& bytes::be16_at(data, 22) == 8
            &&& data.subrange(24, 32) == value
        }),
{
    let data = response_with(transaction_id, value);
    assert(data.subrange(0, 2) =~= bytes::be16(0x0101));
    bytes::law_be16_round_trip(0x0101, data, 0);
    assert(data.subrange(2, 4) =~= bytes::be16(12));
    bytes::law_be16_round_trip(12, data, 2);
    assert(data.subrange(4, 8) =~= bytes::be32(0x2112_A442));
    bytes::law_be32_round_trip(0x2112_A442, data, 4);
    assert(data.subrange(8, 20) =~= transaction_id);
    assert(data.subrange(20, 22) =~= bytes::be16(0x0020));
    bytes::law_be16_round_trip(0x0020, data, 20);
    assert(data.subrange(22, 24) =~= bytes::be16(8));
    bytes::law_be16_round_trip(8, data, 22);
    assert(data.subrange(24, 32) =~= value);
}

/// The address that a server masked is the address that the client reads.
pub proof fn law_masked_address_is_read(ip: u32, port: u16)
    ensures
        xor_mapped_address(xor_mapped_value(ip, port)) == Ok::<SocketAddr, Seq<char>>(
            SocketAddr { ip: IpAddr::V4(ip), port },
        ),
{
    let value = xor_mapped_value(ip, port);
    assert(value.subrange(2, 4) =~= bytes::be16(port ^ 0x2112));
    bytes::law_be16_round_trip(port ^ 0x2112, value, 2);
    assert(value.subrange(4, 8) =~= bytes::be32(ip ^ 0x2112_A442));
    bytes::law_be32_round_trip(ip ^ 0x2112_A442, value, 4);
    assert((port ^ 0x2112) ^ 0x2112 == port) by (bit_vector);
    assert((ip ^ 0x2112_A442) ^ 0x2112_A442 == ip) by (bit_vector);
}

/// A client reads from the response to its request the address that the server
/// saw, and refuses the response to any other request.
pub proof fn law_response_tells_the_address(
    transaction_id: Seq<u8>,
    other: Seq<u8>,
    ip: u32,
    port: u16,
)
    requires
        transaction_id.len() == 12,
        other.len() == 12,
    ensures
        bound_address(binding_response(transaction_id, ip, port), transaction_id) == Ok::<
            SocketAddr,
            Seq<char>,
        >(SocketAddr { ip: IpAddr::V4(ip), port }),
        other != transaction_id ==> bound_address(
            binding_response(transaction_id, ip, port),
            other,
        ) is Err,
{
    let data = binding_response(transaction_id, ip, port);
    let value = xor_mapped_value(ip, port);
    lemma_response_layout(transaction_id, value);
    assert(first_address(data, 20, 32) == xor_mapped_address(value));
    law_masked_address_is_read(ip, port);
}

/// An attribute of a message.
pub struct Attribute {
    /// Its type.
    pub kind: u16,
    /// Its value.
    pub value: Seq<u8>,
    /// The bytes that fill it up to a multiple of four.
    pub padding: Seq<u8>,
}

/// Whether an attribute can stand in a message: its length fits its field, and it is
/// filled up to a multiple of four.
pub open spec fn well_formed(a: Attribute) -> bool {
    &&& a.value.len() <= 0xffff
    &&& a.padding.len() < 4
    &&& (a.value.len() + a.padding.len()) % 4 == 0
}

/// Whether an attribute tells an address: MAPPED-ADDRESS or XOR-MAPPED-ADDRESS.
pub open spec fn tells_address(a: Attribute) -> bool {
    a.kind == 0x0001 || a.kind == 0x0020
}

/// An attribute on the wire: type, length, value and filling.
pub open spec fn attribute_bytes(a: Attribute) -> Seq<u8> {
    seq![
        (a.kind / 256) as u8,
        (a.kind % 256) as u8,
        (a.value.len() / 256) as u8,
        (a.value.len() % 256) as u8,
    ] + a.value + a.padding
}

/// Attributes on the wire, one behind the other.
pub open spec fn attributes_bytes(list: Seq<Attribute>) -> Seq<u8>
    decreases list.len(),
{
    if list.len() == 0 {
        Seq::empty()
    } else {
        attribute_bytes(list[0]) + attributes_bytes(list.skip(1))
    }
}

/// A response to the request with `transaction_id`: type, length of the attributes,
/// magic cookie, transaction id, attributes.
pub open spec fn response_to(transaction_id: Seq<u8>, body: Seq<u8>) -> Seq<u8> {
    seq![
        0x01u8,
        0x01u8,
        (body.len() / 256) as u8,
        (body.len() % 256) as u8,
        0x21u8,
        0x12u8,
        0xa4u8,
        0x42u8,
    ] + transaction_id + body
}

/// The value of a MAPPED-ADDRESS attribute for an IPv4 address.
pub open spec fn mapped_value(ip: u32, port: u16) -> Seq<u8> {
    seq![0u8, 1u8] + bytes::be16(port) + bytes::be32(ip)
}

/// The address of a legacy attribute is read as it stands.
pub proof fn law_plain_address_is_read(ip: u32, port: u16)
    ensures
        mapped_address(mapped_value(ip, port)) == Ok::<SocketAddr, Seq<char>>(
            SocketAddr { ip: IpAddr::V4(ip), port },
        ),
{
    let value = mapped_value(ip, port);
    assert(value.subrange(2, 4) =~= bytes::be16(port));
    bytes::law_be16_round_trip(port, value, 2);
    assert(value.subrange(4, 8) =~= bytes::be32(ip));
    bytes::law_be32_round_trip(ip, value, 4);
}

proof fn lemma_attribute_layout(a: Attribute, data: Seq<u8>, offset: int)
    requires
        well_formed(a),
        0 <= offset,
        offset + attribute_bytes(a).len() <= data.len(),
        data.subrange(offset, offset + attribute_bytes(a).len()) == attribute_bytes(a),
    ensures
        attribute_bytes(a).len() == 4 + padded(a.value.len() as int),
        bytes::be16_at(data, offset) == a.kind,
        bytes::be16_at(data, offset + 2) == a.value.len(),
        data.subrange(offset + 4, offset + 4 + a.value.len()) == a.value,
{
    let w = attribute_bytes(a);
    let part = data.subrange(offset, offset + w.len());
    assert(part[0] == data[offset] && part[1] == data[offset + 1] && part[2] == data[offset + 2]
        && part[3] == data[offset + 3]);
    assert(w[0] == (a.kind / 256) as u8 && w[1] == (a.kind % 256) as u8);
    assert(w[2] == (a.value.len() / 256) as u8 && w[3] == (a.value.len() % 256) as u8);
    assert forall|i: int| 0 <= i < a.value.len() implies data[offset + 4 + i] == a.value[i] by {
        assert(part[4 + i] == data[offset + 4 + i]);
        assert(w[4 + i] == a.value[i]);
    }
    assert(data.subrange(offset + 4, offset + 4 + a.value.len()) =~= a.value);
}

proof fn lemma_first_address(
    data: Seq<u8>,
    offset: int,
    end: int,
    before: Seq<Attribute>,
    rest: Seq<u8>,
)
    requires
        0 <= offset,
        end <= data.len(),
        forall|i: int|
            0 <= i < before.len() ==> well_formed(#[trigger] before[i]) && !tells_address(before[i]),
        offset + attributes_bytes(before).len() + rest.len() == end,
        data.subrange(offset, end) == attributes_bytes(before) + rest,
    ensures
        first_address(data, offset, end) == first_address(
            data,
            offset + attributes_bytes(before).len(),
            end,
        ),
        data.subrange(offset + attributes_bytes(before).len(), end) == rest,
    decreases before.len(),
{
    let whole = data.subrange(offset, end);
    if before.len() > 0 {
        let a = before[0];
        let w = attribute_bytes(a);
        let others = attributes_bytes(before.skip(1));
        assert(attributes_bytes(before) == w + others);
        assert(data.subrange(offset, offset + w.len()) =~= whole.take(w.len() as int));
        assert(whole.take(w.len() as int) =~= w);
        lemma_attribute_layout(a, data, offset);
        assert(data.subrange(offset + w.len(), end) =~= whole.skip(w.len() as int));
        assert(whole.skip(w.len() as int) =~= others + rest);
        lemma_first_address(data, offset + w.len(), end, before.skip(1), rest);
        assert(first_address(data, offset, end) == first_address(data, offset + w.len(), end));
    } else {
        assert(attributes_bytes(before) =~= Seq::<u8>::empty());
        assert(whole =~= rest);
    }
}

proof fn lemma_response_header(transaction_id: Seq<u8>, body: Seq<u8>)
    requires
        transaction_id.len() == 12,
        body.len() <= 0xffff,
    ensures
        ({
            let data = response_to(transaction_id, body);
            &&& data.len() == 20 + body.len()
            &&& data.subrange(20, 20 + body.len() as int) == body
            &&& bound_address(data, transaction_id) == first_address(
                data,
                20,
                20 + body.len() as int,
            )
        }),
{
    let data = response_to(transaction_id, body);
    assert(data.subrange(8, 20) =~= transaction_id);
    assert(data.subrange(20, 20 + body.len() as int) =~= body);
    assert(bytes::be16_at(data, 0) == 0x0101);
    assert(bytes::be16_at(data, 2) == body.len());
    assert(bytes::be32_at(data, 4) == 0x2112_A442);
}

proof fn lemma_address_at(data: Seq<u8>, at: int, end: int, address: Attribute, after: Seq<u8>)
    requires
        0 <= at,
        end <= data.len(),
        well_formed(address),
        tells_address(address),
        at + attribute_bytes(address).len() + after.len() == end,
        data.subrange(at, end) == attribute_bytes(address) + after,
    ensures
        first_address(data, at, end) == if address.kind == 0x0020 {
            xor_mapped_address(address.value)
        } else {
            mapped_address(address.value)
        },
{
    let w = attribute_bytes(address);
    let n = w.len() as int;
    assert(data.subrange(at, at + n) =~= data.subrange(at, end).take(n));
    assert((w + after).take(n) =~= w);
    lemma_attribute_layout(address, data, at);
}

proof fn lemma_address_behind(
    data: Seq<u8>,
    end: int,
    before: Seq<Attribute>,
    address: Attribute,
    after: Seq<u8>,
)
    requires
        end <= data.len(),
        forall|i: int|
            0 <= i < before.len() ==> well_formed(#[trigger] before[i]) && !tells_address(before[i]),
        well_formed(address),
        tells_address(address),
        20 + attributes_bytes(before).len() + attribute_bytes(address).len() + after.len() == end,
        data.subrange(20, end) == attributes_bytes(before) + attribute_bytes(address) + after,
    ensures
        first_address(data, 20, end) == if address.kind == 0x0020 {
            xor_mapped_address(address.value)
        } else {
            mapped_address(address.value)
        },
{
    let rest = attribute_bytes(address) + after;
    let at = 20 + attributes_bytes(before).len() as int;
    assert(data.subrange(20, end) =~= attributes_bytes(before) + rest);
    lemma_first_address(data, 20, end, before, rest);
    lemma_address_at(data, at, end, address, after);
}

/// A response to our request tells the address of its first address attribute,
/// masked or plain, whatever other attributes stand before it, and whatever stands
/// behind it.
#[verifier::spinoff_prover]
pub proof fn law_first_address_is_found(
    transaction_id: Seq<u8>,
    before: Seq<Attribute>,
    address: Attribute,
    ip: u32,
    port: u16,
    after: Seq<u8>,
)
    requires
        transaction_id.len() == 12,
        forall|i: int|
            0 <= i < before.len() ==> well_formed(#[trigger] before[i]) && !tells_address(before[i]),
        address.padding.len() == 0,
        address.kind == 0x0020 && address.value == xor_mapped_value(ip, port) || address.kind
            == 0x0001 && address.value == mapped_value(ip, port),
        attributes_bytes(before).len() + attribute_bytes(address).len() + after.len() <= 0xffff,
    ensures
        bound_address(
            response_to(
                transaction_id,
                attributes_bytes(before) + attribute_bytes(address) + after,
            ),
            transaction_id,
        ) == Ok::<SocketAddr, Seq<char>>(SocketAddr { ip: IpAddr::V4(ip), port }),
{
    let body = attributes_bytes(before) + attribute_bytes(address) + after;
    let data = response_to(transaction_id, body);
    assert(address.value.len() == 8);
    assert(bound_address(data, transaction_id) == first_address(data, 20, 20 + body.len() as int)
        && data.len() == 20 + body.len() && data.subrange(20, 20 + body.len() as int) == body) by {
        lemma_response_header(transaction_id, body);
    }
    lemma_address_behind(data, 20 + body.len() as int, before, address, after);
    if address.kind == 0x0020 {
        law_masked_address_is_read(ip, port);
    } else {
        law_plain_address_is_read(ip, port);
    }
}

/// A response without an address attribute tells none.
pub proof fn law_no_address_is_made_up(transaction_id: Seq<u8>, list: Seq<Attribute>)
    requires
        transaction_id.len() == 12,
        forall|i: int|
            0 <= i < list.len() ==> well_formed(#[trigger] list[i]) && !tells_address(list[i]),
        attributes_bytes(list).len() <= 0xffff,
    ensures
        bound_address(response_to(transaction_id, attributes_bytes(list)), transaction_id) == Err::<
            SocketAddr,
            Seq<char>,
        >("No mapped address in response"@),
{
    let body = attributes_bytes(list);
    let data = response_to(transaction_id, body);
    lemma_response_header(transaction_id, body);
    assert(body =~= body + Seq::<u8>::empty());
    lemma_first_address(data, 20, 20 + body.len() as int, list, Seq::empty());
}

/// An address is read only from the response to our own request: a binding response
/// with the magic cookie and our transaction id, which holds as much as it announces.
pub proof fn law_only_our_response_is_read(data: Seq<u8>, transaction_id: Seq<u8>)
    requires
        transaction_id.len() == 12,
        bound_address(data, transaction_id) is Ok,
    ensures
        data.len() >= 20 + data[2] * 256 + data[3],
        data[0] == 0x01 && data[1] == 0x01,
        data[4] == 0x21 && data[5] == 0x12 && data[6] == 0xa4 && data[7] == 0x42,
        forall|i: int| 0 <= i < 12 ==> data[8 + i] == #[trigger] transaction_id[i],
{
    assert forall|i: int| 0 <= i < 12 implies data[8 + i] == #[trigger] transaction_id[i] by {
        assert(data.subrange(8, 20)[i] == data[8 + i]);
    }
}

/// A reply that is refused says why: it is too short, of another type, without the
/// cookie, to another request, or cut off, in this order.
pub proof fn law_refused_responses_say_why(data: Seq<u8>, transaction_id: Seq<u8>)
    ensures
        ({
            let result = bound_address(data, transaction_id);
            let response = data.len() >= 20 && data[0] == 0x01 && data[1] == 0x01;
            let cookie = data[4] == 0x21 && data[5] == 0x12 && data[6] == 0xa4 && data[7] == 0x42;
            let ours = data.subrange(8, 20) == transaction_id;
            let whole = data.len() >= 20 + data[2] * 256 + data[3];
            &&& data.len() < 20 ==> result == Err::<SocketAddr, Seq<char>>("Response too short"@)
            &&& data.len() >= 20 && !response ==> result is Err
            &&& response && !cookie ==> result == Err::<SocketAddr, Seq<char>>(
                "Invalid magic cookie"@,
            )
            &&& response && cookie && !ours ==> result == Err::<SocketAddr, Seq<char>>(
                "Transaction ID mismatch"@,
            )
            &&& response && cookie && ours && !whole ==> result == Err::<SocketAddr, Seq<char>>(
                "Truncated message"@,
            )
        }),
{
}

/// Only an IPv4 address is read from an attribute, and only from one of eight bytes
/// at least.
pub proof fn law_only_ipv4_is_read(data: Seq<u8>)
    ensures
        xor_mapped_address(data) is Ok <==> data.len() >= 8 && data[1] == 1,
        mapped_address(data) is Ok <==> data.len() >= 8 && data[1] == 1,
        data.len() >= 8 && data[1] == 2 ==> (xor_mapped_address(data) == Err::<
            SocketAddr,
            Seq<char>,
        >(
            if data.len() < 20 {
                "XOR-MAPPED-ADDRESS IPv6 too short"@
            } else {
                "IPv6 STUN not yet supported"@
            },
        )),
{
}

/// A binding request is twenty bytes: its type, no attributes, the magic cookie and
/// the transaction id.
pub proof fn law_binding_request_byte_by_byte(transaction_id: Seq<u8>)
    requires
        transaction_id.len() == 12,
    ensures
        ({
            let m = binding_request(transaction_id);
            &&& m.len() == 20
            &&& m[0] == 0 && m[1] == 1 && m[2] == 0 && m[3] == 0
            &&& m[4] == 0x21 && m[5] == 0x12 && m[6] == 0xa4 && m[7] == 0x42
            &&& forall|i: int| 8 <= i < 20 ==> #[trigger] m[i] == transaction_id[i - 8]
        }),
{
}

/// A result agrees with what was expected where it is the same address, or a STUN error
/// with the same text, and nowhere else.
pub proof fn law_results_agree_exactly(a: SocketAddr, b: SocketAddr, text: String, m: Seq<char>)
    ensures
        agrees(Ok(a), Ok(b)) <==> a == b,
        agrees(Err(Error::Stun(text)), Err(m)) <==> text@ == m,
        !agrees(Ok(a), Err(m)),
        !agrees(Err(Error::Stun(text)), Ok(b)),
        !agrees(Err(Error::Rtp(text)), Err(m)),
{
}

} // verus!
