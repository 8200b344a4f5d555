//! Addresses of hosts and of sockets.

use vstd::prelude::*;

use crate::bytes::{be_bytes, push_be};

verus! {

/// The address of a host, as its bits.
#[derive(Debug, Clone, Copy, PartialEq, Eq, Structural, Hash)]
pub enum IpAddr {
    V4(u32),
    V6(u128),
}

/// The address of a socket.
#[derive(Debug, Clone, Copy, PartialEq, Eq, Structural, Hash)]
#[allow(inconsistent_fields)]
pub enum SocketAddr {
    V4 { ip: u32, port: u16 },
    V6 { ip: u128, port: u16, flowinfo: u32, scope_id: u32 },
}

impl IpAddr {
    /// The bytes of the address, from the highest.
    pub open spec fn spec_octets(self) -> Seq<u8> {
        match self {
            IpAddr::V4(bits) => be_bytes(bits as nat, 4),
            IpAddr::V6(bits) => be_bytes(bits as nat, 16),
        }
    }

    /// The IPv4 address with these four bytes.
    pub fn v4(a: u8, b: u8, c: u8, d: u8) -> (ip: Self)
        ensures
            ip == IpAddr::V4((a * 0x100_0000 + b * 0x1_0000 + c * 0x100 + d) as u32),
    {
        IpAddr::V4(
            a as u32 * 0x100_0000 + b as u32 * 0x1_0000 + c as u32 * 0x100 + d as u32,
        )
    }

    /// The bytes of the address, from the highest.
    pub fn octets(self) -> (bytes: Vec<u8>)
        ensures
            bytes@ == self.spec_octets(),
    {
        let mut bytes: Vec<u8> = Vec::new();
        match self {
            IpAddr::V4(bits) => push_be(&mut bytes, bits as u128, 4),
            IpAddr::V6(bits) => push_be(&mut bytes, bits, 16),
        }
        assert(bytes@ =~= self.spec_octets());
        bytes
    }

    /// Whether the address stands for no host.
    pub open spec fn spec_is_unspecified(self) -> bool {
        self == IpAddr::V4(0) || self == IpAddr::V6(0)
    }

    /// Whether the address stands for no host.
    pub fn is_unspecified(self) -> (yes: bool)
        ensures
            yes <==> self.spec_is_unspecified(),
    {
        match self {
            IpAddr::V4(bits) => bits == 0,
            IpAddr::V6(bits) => bits == 0,
        }
    }

    /// Whether the address is that of the host itself: 127.0.0.0/8 or ::1.
    pub open spec fn spec_is_loopback(self) -> bool {
        match self {
            IpAddr::V4(bits) => bits / 0x100_0000 == 127,
            IpAddr::V6(bits) => bits == 1,
        }
    }

    /// Whether the address is that of the host itself.
    pub fn is_loopback(self) -> (yes: bool)
        ensures
            yes <==> self.spec_is_loopback(),
    {
        match self {
            IpAddr::V4(bits) => bits / 0x100_0000 == 127,
            IpAddr::V6(bits) => bits == 1,
        }
    }

    /// Whether the address names a group of hosts: 224.0.0.0/4 or ff00::/8.
    pub open spec fn spec_is_multicast(self) -> bool {
        match self {
            IpAddr::V4(bits) => bits / 0x1000_0000 == 0xe,
            IpAddr::V6(bits) => bits / 0x100_0000_0000_0000_0000_0000_0000_0000 == 0xff,
        }
    }

    /// Whether the address names a group of hosts.
    pub fn is_multicast(self) -> (yes: bool)
        ensures
            yes <==> self.spec_is_multicast(),
    {
        match self {
            IpAddr::V4(bits) => bits / 0x1000_0000 == 0xe,
            IpAddr::V6(bits) => bits / 0x100_0000_0000_0000_0000_0000_0000_0000 == 0xff,
        }
    }
}

impl SocketAddr {
    /// The socket at a host and a port.
    pub open spec fn spec_new(ip: IpAddr, port: u16) -> Self {
        match ip {
            IpAddr::V4(ip) => SocketAddr::V4 { ip, port },
            IpAddr::V6(ip) => SocketAddr::V6 { ip, port, flowinfo: 0, scope_id: 0 },
        }
    }

    /// The socket at a host and a port.
    pub fn new(ip: IpAddr, port: u16) -> (address: Self)
        ensures
            address == Self::spec_new(ip, port),
    {
        match ip {
            IpAddr::V4(ip) => SocketAddr::V4 { ip, port },
            IpAddr::V6(ip) => SocketAddr::V6 { ip, port, flowinfo: 0, scope_id: 0 },
        }
    }

    /// The host.
    pub open spec fn spec_ip(self) -> IpAddr {
        match self {
            SocketAddr::V4 { ip, .. } => IpAddr::V4(ip),
            SocketAddr::V6 { ip, .. } => IpAddr::V6(ip),
        }
    }

    /// The host.
    pub fn ip(self) -> (ip: IpAddr)
        ensures
            ip == self.spec_ip(),
    {
        match self {
            SocketAddr::V4 { ip, .. } => IpAddr::V4(ip),
            SocketAddr::V6 { ip, .. } => IpAddr::V6(ip),
        }
    }

    /// The port.
    pub open spec fn spec_port(self) -> u16 {
        match self {
            SocketAddr::V4 { port, .. } => port,
            SocketAddr::V6 { port, .. } => port,
        }
    }

    /// The port.
    pub fn port(self) -> (port: u16)
        ensures
            port == self.spec_port(),
    {
        match self {
            SocketAddr::V4 { port, .. } => port,
            SocketAddr::V6 { port, .. } => port,
        }
    }
}

/// The bytes of an address as they are signed and hashed.
pub open spec fn address_bytes(peer: SocketAddr) -> Seq<u8> {
    match peer {
        SocketAddr::V4 { ip, port } => seq![4u8] + be_bytes(ip as nat, 4) + be_bytes(port as nat, 2),
        SocketAddr::V6 { ip, port, flowinfo, scope_id } => seq![6u8] + be_bytes(ip as nat, 16)
            + be_bytes(port as nat, 2) + be_bytes(flowinfo as nat, 4) + be_bytes(
            scope_id as nat,
            4,
        ),
    }
}

/// Appends the bytes of an address.
pub fn encode_addr(message: &mut Vec<u8>, peer: SocketAddr)
    ensures
        final(message)@ == old(message)@ + address_bytes(peer),
{
    match peer {
        SocketAddr::V4 { ip, port } => {
            message.push(4);
            push_be(message, ip as u128, 4);
            push_be(message, port as u128, 2);
        },
        SocketAddr::V6 { ip, port, flowinfo, scope_id } => {
            message.push(6);
            push_be(message, ip, 16);
            push_be(message, port as u128, 2);
            push_be(message, flowinfo as u128, 4);
            push_be(message, scope_id as u128, 4);
        },
    }
    assert(message@ =~= old(message)@ + address_bytes(peer));
}

/// Whether an address stands before another one in the order of addresses.
pub open spec fn address_before(left: SocketAddr, right: SocketAddr) -> bool {
    match (left, right) {
        (SocketAddr::V4 { ip: a, port: p }, SocketAddr::V4 { ip: b, port: q }) => a < b || (a == b
            && p < q),
        (SocketAddr::V4 { .. }, SocketAddr::V6 { .. }) => true,
        (SocketAddr::V6 { .. }, SocketAddr::V4 { .. }) => false,
        (
            SocketAddr::V6 { ip: a, port: p, flowinfo: f, scope_id: s },
            SocketAddr::V6 { ip: b, port: q, flowinfo: g, scope_id: t },
        ) => a < b || (a == b && (p < q || (p == q && (f < g || (f == g && s < t))))),
    }
}

/// Whether an address stands before another one; none stands before any.
pub open spec fn optional_before(left: Option<SocketAddr>, right: Option<SocketAddr>) -> bool {
    match (left, right) {
        (None, Some(_)) => true,
        (Some(left), Some(right)) => address_before(left, right),
        _ => false,
    }
}

/// Whether an address stands before another one.
pub fn is_before(left: SocketAddr, right: SocketAddr) -> (before: bool)
    ensures
        before == address_before(left, right),
{
    match (left, right) {
        (SocketAddr::V4 { ip: a, port: p }, SocketAddr::V4 { ip: b, port: q }) => a < b || (a == b
            && p < q),
        (SocketAddr::V4 { .. }, SocketAddr::V6 { .. }) => true,
        (SocketAddr::V6 { .. }, SocketAddr::V4 { .. }) => false,
        (
            SocketAddr::V6 { ip: a, port: p, flowinfo: f, scope_id: s },
            SocketAddr::V6 { ip: b, port: q, flowinfo: g, scope_id: t },
        ) => a < b || (a == b && (p < q || (p == q && (f < g || (f == g && s < t))))),
    }
}

/// Whether an address stands before another one; none stands before any.
pub fn is_optional_before(left: Option<SocketAddr>, right: Option<SocketAddr>) -> (before: bool)
    ensures
        before == optional_before(left, right),
{
    match (left, right) {
        (None, Some(_)) => true,
        (Some(left), Some(right)) => is_before(left, right),
        _ => false,
    }
}

} // verus!
