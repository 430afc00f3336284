//! IP addresses as plain numbers.
use vstd::prelude::*;

verus! {

/// An IPv4 address (as the big-endian number of its four octets) or an
/// IPv6 address (as the big-endian number of its sixteen octets).
#[derive(Clone, Copy, Debug, PartialEq, Eq, Structural, Hash)]
pub enum IpAddress {
    V4(u32),
    V6(u128),
}

/// The unspecified IPv4 address `0.0.0.0`.
pub fn unspecified_v4() -> (r: IpAddress)
    ensures
        r == IpAddress::V4(0),
{
    IpAddress::V4(0)
}

} // verus!
