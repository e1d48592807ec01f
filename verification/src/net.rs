//! Network addresses.

use vstd::prelude::*;

use crate::bytes;

verus! {

/// An IP address, as the number that its bytes write in network order.
#[derive(Debug, Clone, Copy, PartialEq, Eq, Structural)]
pub enum IpAddr {
    /// IPv4.
    V4(u32),
    /// IPv6.
    V6(u128),
}

impl IpAddr {
    /// The IPv4 address `a.b.c.d`.
    pub fn v4(a: u8, b: u8, c: u8, d: u8) -> (ip: Self)
        ensures
            ip == IpAddr::V4(bytes::be32_at(seq![a, b, c, d], 0)),
    {
        let octets: [u8; 4] = [a, b, c, d];
        assert(octets@ =~= seq![a, b, c, d]);
        IpAddr::V4(bytes::read_be32(octets.as_slice(), 0))
    }
}

/// An IP address and a port.
#[derive(Debug, Clone, Copy, PartialEq, Eq, Structural)]
pub struct SocketAddr {
    /// The address.
    pub ip: IpAddr,
    /// The port.
    pub port: u16,
}

} // verus!
