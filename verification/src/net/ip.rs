//! Addresses and probe targets as plain values.

use vstd::prelude::*;

verus! {

/// An IP address of either family, held as the number that its octets
/// spell in network order: `127.0.0.1` is `0x7f00_0001`.
#[derive(Debug, Clone, Copy, PartialEq, Eq, Hash, Structural)]
pub enum IpAddress {
    V4(u32),
    V6(u128),
}

impl IpAddress {
    /// The four octets of an IPv4 address as one number.
    pub open spec fn v4_number(a: u8, b: u8, c: u8, d: u8) -> int {
        a * 0x100_0000 + b * 0x1_0000 + c * 0x100 + d
    }

    /// The IPv4 address `a.b.c.d`.
    pub fn from_octets(a: u8, b: u8, c: u8, d: u8) -> (ip: Self)
        ensures
            ip == IpAddress::V4(Self::v4_number(a, b, c, d) as u32),
            Self::v4_number(a, b, c, d) <= u32::MAX,
    {
        let high: u32 = (a as u32) * 0x100_0000 + (b as u32) * 0x1_0000;
        let low: u32 = (c as u32) * 0x100 + (d as u32);
        IpAddress::V4(high + low)
    }

    /// Whether the address is of the IPv4 family.
    pub open spec fn spec_is_ipv4(&self) -> bool {
        *self is V4
    }

    /// Whether the address is of the IPv4 family.
    #[verifier::when_used_as_spec(spec_is_ipv4)]
    pub fn is_ipv4(&self) -> (v4: bool)
        ensures
            v4 == self.spec_is_ipv4(),
    {
        match self {
            IpAddress::V4(_) => true,
            IpAddress::V6(_) => false,
        }
    }

    /// The order of addresses: every IPv4 address stands before every IPv6
    /// address, and inside a family the smaller number stands first.
    pub open spec fn spec_precedes(&self, other: &Self) -> bool {
        match (*self, *other) {
            (IpAddress::V4(a), IpAddress::V4(b)) => a < b,
            (IpAddress::V4(_), IpAddress::V6(_)) => true,
            (IpAddress::V6(_), IpAddress::V4(_)) => false,
            (IpAddress::V6(a), IpAddress::V6(b)) => a < b,
        }
    }

    /// Whether this address stands before `other` in the order of
    /// addresses.
    #[verifier::when_used_as_spec(spec_precedes)]
    pub fn precedes(&self, other: &Self) -> (before: bool)
        ensures
            before == self.spec_precedes(other),
    {
        match (self, other) {
            (IpAddress::V4(a), IpAddress::V4(b)) => *a < *b,
            (IpAddress::V4(_), IpAddress::V6(_)) => true,
            (IpAddress::V6(_), IpAddress::V4(_)) => false,
            (IpAddress::V6(a), IpAddress::V6(b)) => *a < *b,
        }
    }

    /// The address of the same family that stands for "any local address":
    /// `0.0.0.0` or `::`.
    pub fn unspecified(&self) -> (any: Self)
        ensures
            any == (if self.spec_is_ipv4() {
                IpAddress::V4(0)
            } else {
                IpAddress::V6(0)
            }),
    {
        match self {
            IpAddress::V4(_) => IpAddress::V4(0),
            IpAddress::V6(_) => IpAddress::V6(0),
        }
    }
}

/// The order of addresses is a strict total order: of two addresses exactly
/// one stands before the other unless they are equal, and it is transitive.
pub proof fn lemma_address_order(a: IpAddress, b: IpAddress, c: IpAddress)
    ensures
        !a.spec_precedes(&a),
        a != b ==> (a.spec_precedes(&b) <==> !b.spec_precedes(&a)),
        a.spec_precedes(&b) && b.spec_precedes(&c) ==> a.spec_precedes(&c),
{
}

/// One target of a probe: an address and a port on it.
#[derive(Debug, Clone, Copy, PartialEq, Eq, Hash, Structural)]
pub struct Socket {
    pub ip: IpAddress,
    pub port: u16,
}

impl Socket {
    /// The target at `port` on `ip`.
    pub fn new(ip: IpAddress, port: u16) -> (socket: Self)
        ensures
            socket == (Socket { ip, port }),
    {
        Socket { ip, port }
    }

    /// The address of the target.
    pub fn ip(&self) -> (ip: IpAddress)
        ensures
            ip == self.ip,
    {
        self.ip
    }

    /// The port of the target.
    pub fn port(&self) -> (port: u16)
        ensures
            port == self.port,
    {
        self.port
    }

    /// The local end to bind for a probe of this target over UDP: any
    /// address of the target's family, with a port that the system picks.
    pub fn local_end(&self) -> (local: Self)
        ensures
            local.port == 0,
            local.ip == (if self.ip.spec_is_ipv4() {
                IpAddress::V4(0)
            } else {
                IpAddress::V6(0)
            }),
    {
        Socket { ip: self.ip.unspecified(), port: 0 }
    }
}

} // verus!
