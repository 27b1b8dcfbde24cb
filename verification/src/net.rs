//! Plain-value models of socket addresses.
//!
//! The logic never touches the platform's socket types: an IP address is its
//! integer value, big-endian, and a socket address is an IP with a port. The
//! unverified edge converts between these and the operating system's types.

use vstd::prelude::*;

verus! {

/// An IP address held as its integer value (network byte order folded in).
#[derive(Debug, Clone, Copy, PartialEq, Eq, Structural)]
pub enum IpAddress {
    /// A version-4 address: 4 octets, big-endian.
    V4(u32),
    /// A version-6 address: 16 octets, big-endian.
    V6(u128),
}

/// A socket address: an IP address and a port.
#[derive(Debug, Clone, Copy, PartialEq, Eq, Structural)]
pub struct SocketAddress {
    pub ip: IpAddress,
    pub port: u16,
}

impl IpAddress {
    /// True when both addresses are of the same IP version.
    pub fn same_family(&self, other: &IpAddress) -> (r: bool)
        ensures
            r == (*self is V4 <==> *other is V4),
    {
        match (self, other) {
            (IpAddress::V4(_), IpAddress::V4(_)) => true,
            (IpAddress::V6(_), IpAddress::V6(_)) => true,
            _ => false,
        }
    }
}

} // verus!
