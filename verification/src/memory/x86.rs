//! Addresses on 32-bit `x86` (protected mode).
use vstd::prelude::*;

verus! {

/// A physical (linear) memory address on `x86` is a 32-bit unsigned integer.
#[derive(Clone, Copy, PartialEq, Eq, Structural, PartialOrd, Ord, Debug, Hash)]
pub struct PAddr(u32);

impl View for PAddr {
    type V = u32;

    closed spec fn view(&self) -> u32 {
        self.0
    }
}

impl PAddr {
    /// The address with the given value.
    pub fn from_u32(u: u32) -> (r: Self)
        ensures
            r@ == u,
    {
        PAddr(u)
    }

    /// The address as a `u32`.
    pub fn as_u32(&self) -> (r: u32)
        ensures
            r == self@,
    {
        self.0
    }
}

} // verus!
