//! IP addresses as the updater sees them: an IPv4 address as its 32 bits, an
//! IPv6 address as its 128 bits, both in network order.

use vstd::prelude::*;

verus! {

/// An IPv4 or IPv6 address.
#[derive(Debug, Clone, Copy, PartialEq, Eq, Structural)]
pub enum IpAddress {
    V4(u32),
    V6(u128),
}

impl IpAddress {
    pub fn is_ipv4(&self) -> (b: bool)
        ensures
            b == (*self is V4),
    {
        match self {
            IpAddress::V4(_) => true,
            IpAddress::V6(_) => false,
        }
    }
}

} // verus!
