//! Socket addresses as plain values.
//!
//! The proxy routes by address; the library holds an address as the integers
//! it is made of, so that every rule that reads one can be verified. An IPv4
//! address is its 32-bit value, an IPv6 address its 128-bit value, in network
//! order.

use vstd::prelude::*;

verus! {

/// An IP address: the 32-bit or 128-bit value, most significant octet first.
#[derive(Clone, Copy, Debug, Hash, PartialEq, Eq, Structural)]
pub enum IpAddress {
    V4(u32),
    V6(u128),
}

/// An address-and-port pair, the target of one backend.
#[derive(Clone, Copy, Debug, Hash, PartialEq, Eq, Structural)]
pub struct SocketAddress {
    pub ip: IpAddress,
    pub port: u16,
}

impl IpAddress {
    /// 0 for IPv4, 1 for IPv6: the family ranks first in the address order.
    pub open spec fn family_rank(self) -> int {
        match self {
            IpAddress::V4(_) => 0,
            IpAddress::V6(_) => 1,
        }
    }

    /// The numeric value of the address within its family.
    pub open spec fn value(self) -> int {
        match self {
            IpAddress::V4(v) => v as int,
            IpAddress::V6(v) => v as int,
        }
    }
}

/// The strict order on addresses: IPv4 before IPv6, then numeric address,
/// then port. This is the order the backend snapshot is kept in.
pub open spec fn addr_lt(a: SocketAddress, b: SocketAddress) -> bool {
    ||| a.ip.family_rank() < b.ip.family_rank()
    ||| (a.ip.family_rank() == b.ip.family_rank() && a.ip.value() < b.ip.value())
    ||| (a.ip.family_rank() == b.ip.family_rank() && a.ip.value() == b.ip.value()
         && a.port < b.port)
}

pub proof fn lemma_addr_lt_trichotomy(a: SocketAddress, b: SocketAddress)
    ensures
        addr_lt(a, b) || addr_lt(b, a) || a == b,
        addr_lt(a, b) ==> !addr_lt(b, a),
        addr_lt(a, b) ==> a != b,
{
    if !addr_lt(a, b) && !addr_lt(b, a) {
        assert(a.ip.family_rank() == b.ip.family_rank());
        assert(a.ip.value() == b.ip.value());
        assert(a.port == b.port);
        match a.ip {
            IpAddress::V4(x) => {
                match b.ip {
                    IpAddress::V4(y) => { assert(x == y); }
                    IpAddress::V6(_) => { assert(false); }
                }
            }
            IpAddress::V6(x) => {
                match b.ip {
                    IpAddress::V4(_) => { assert(false); }
                    IpAddress::V6(y) => { assert(x == y); }
                }
            }
        }
    }
}

pub proof fn lemma_addr_lt_transitive(a: SocketAddress, b: SocketAddress, c: SocketAddress)
    ensures
        addr_lt(a, b) && addr_lt(b, c) ==> addr_lt(a, c),
{
}

impl SocketAddress {
    pub fn new(ip: IpAddress, port: u16) -> (r: SocketAddress)
        ensures
            r.ip == ip,
            r.port == port,
    {
        SocketAddress { ip, port }
    }

    /// Decides `addr_lt(self, other)` executably.
    pub fn lt(&self, other: &SocketAddress) -> (r: bool)
        ensures
            r == addr_lt(*self, *other),
    {
        let self_rank: u8 = match self.ip {
            IpAddress::V4(_) => 0,
            IpAddress::V6(_) => 1,
        };
        let other_rank: u8 = match other.ip {
            IpAddress::V4(_) => 0,
            IpAddress::V6(_) => 1,
        };
        if self_rank != other_rank {
            return self_rank < other_rank;
        }
        let self_value: u128 = match self.ip {
            IpAddress::V4(v) => v as u128,
            IpAddress::V6(v) => v,
        };
        let other_value: u128 = match other.ip {
            IpAddress::V4(v) => v as u128,
            IpAddress::V6(v) => v,
        };
        if self_value != other_value {
            self_value < other_value
        } else {
            self.port < other.port
        }
    }
}

} // verus!
