use vstd::prelude::*;

verus! {

/// An IP address as plain integers: the 32 bits of an IPv4 address or the
/// 128 bits of an IPv6 address, most significant octet first.
#[derive(Clone, Copy, Debug, PartialEq, Eq, Structural, Hash)]
pub enum Address {
    V4(u32),
    V6(u128),
}

} // verus!
