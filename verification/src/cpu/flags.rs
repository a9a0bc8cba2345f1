//! The x86 flags register (`rflags`).
use vstd::prelude::*;
use super::PrivilegeLevel;

verus! {

/// Carry flag.
pub const CF: usize = 0x1;
/// Parity flag.
pub const PF: usize = 0x4;
/// Adjust flag.
pub const AF: usize = 0x10;
/// Zero flag.
pub const ZF: usize = 0x40;
/// Sign flag.
pub const SF: usize = 0x80;
/// Trap flag (single step).
pub const TF: usize = 0x100;
/// Interrupt enable flag.
pub const IF: usize = 0x200;
/// Direction flag.
pub const DF: usize = 0x400;
/// Overflow flag.
pub const OF: usize = 0x800;
/// The I/O privilege level field (bits 12 and 13).
pub const IOPL: usize = 0x3000;
/// Nested task flag.
pub const NT: usize = 0x4000;
/// Reserved; always set.
pub const RESERVED: usize = 0x8000;
/// Resume flag.
pub const RF: usize = 0x1_0000;
/// Virtual 8086 mode flag.
pub const VM: usize = 0x2_0000;
/// Alignment check.
pub const AC: usize = 0x4_0000;
/// Virtual interrupt flag.
pub const VIF: usize = 0x8_0000;
/// Virtual interrupt pending.
pub const VIP: usize = 0x10_0000;
/// Whether the `CPUID` instruction can be used.
pub const ID: usize = 0x20_0000;

/// The contents of the flags register.
#[derive(Clone, Copy, PartialEq, Eq, Structural, Debug)]
pub struct RFlags {
    pub bits: usize,
}

impl RFlags {
    /// Whether every bit of `mask` is set.
    pub fn contains(&self, mask: usize) -> (r: bool)
        ensures
            r == (self.bits & mask == mask),
    {
        self.bits & mask == mask
    }

    /// The I/O privilege level: bits 12 and 13 read as a ring number.
    pub fn iopl(&self) -> (r: PrivilegeLevel)
        ensures
            r.spec_number() == (self.bits / 0x1000) % 4,
    {
        let b = self.bits;
        let n = (b & IOPL) >> 12usize;
        assert((b & 0x3000usize) >> 12usize == (b / 0x1000) % 4 && (b & 0x3000usize) >> 12usize
            < 4) by (bit_vector);
        PrivilegeLevel::from_number(n as u8)
    }
}

} // verus!
