//! Exception descriptions and page fault error codes.
use vstd::prelude::*;

verus! {

/// The number of CPU exception vectors at the start of the interrupt
/// descriptor table.
pub const NUM_EXCEPTIONS: usize = 32;

/// A description of a CPU exception.
#[derive(Clone, Copy, Debug)]
pub struct ExceptionInfo {
    /// The name of the exception.
    pub name: &'static str,
    /// The mnemonic code for the exception.
    pub mnemonic: &'static str,
    /// The type of IRQ for this exception.
    pub irq_type: &'static str,
    /// The source triggering the exception.
    pub source: &'static str,
}

/// Set if the fault was caused by a present page.
pub const PF_PRESENT: u32 = 0x1;
/// Set if the fault was caused by a read; clear if by a write.
pub const PF_READ_WRITE: u32 = 0x2;
/// Set if the fault happened during user-mode execution.
pub const PF_USER_MODE: u32 = 0x4;
/// Set if the fault was caused by reserved bits set to one.
pub const PF_RESERVED: u32 = 0x8;
/// Set if the fault happened during an instruction fetch.
pub const PF_INST_FETCH: u32 = 0x10;
/// Set if there was a protection key violation.
pub const PF_PROTECTION: u32 = 0x20;

/// The error code of a page fault.
#[derive(Clone, Copy, PartialEq, Eq, Structural, Debug)]
pub struct PageFaultErrorCode {
    pub bits: u32,
}

/// Whether every bit of `mask` is set in `bits`.
pub open spec fn has_bits(bits: u32, mask: u32) -> bool {
    bits & mask == mask
}

/// The six parts of a page fault's description, to be read into
/// "Caused by {}{}{} during a {}{} executing in {} mode.".
pub open spec fn fault_parts(bits: u32) -> Seq<&'static str> {
    seq![
        if has_bits(bits, PF_PRESENT) { "a present page" } else { "a non-present page" },
        if has_bits(bits, PF_PROTECTION) { " protection-key violation" } else { "" },
        if has_bits(bits, PF_RESERVED) { " reserved bits set to one " } else { "" },
        if has_bits(bits, PF_READ_WRITE) { "read" } else { "write" },
        if has_bits(bits, PF_INST_FETCH) { " in an instruction fetch" } else { "" },
        if has_bits(bits, PF_USER_MODE) { "user" } else { "kernel" },
    ]
}

impl PageFaultErrorCode {
    /// The error code with only the known bits of `bits` kept.
    pub fn from_bits_truncate(bits: u32) -> (r: Self)
        ensures
            r.bits == bits & 0x3f,
    {
        PageFaultErrorCode { bits: bits & 0x3f }
    }

    /// Whether every bit of `mask` is set.
    pub fn contains(&self, mask: u32) -> (r: bool)
        ensures
            r == has_bits(self.bits, mask),
    {
        self.bits & mask == mask
    }

    /// The parts of the fault's description, in order.
    pub fn description_parts(&self) -> (r: Vec<&'static str>)
        ensures
            r@ == fault_parts(self.bits),
    {
        let mut v: Vec<&'static str> = Vec::new();
        v.push(if self.contains(PF_PRESENT) { "a present page" } else { "a non-present page" });
        v.push(if self.contains(PF_PROTECTION) { " protection-key violation" } else { "" });
        v.push(if self.contains(PF_RESERVED) { " reserved bits set to one " } else { "" });
        v.push(if self.contains(PF_READ_WRITE) { "read" } else { "write" });
        v.push(if self.contains(PF_INST_FETCH) { " in an instruction fetch" } else { "" });
        v.push(if self.contains(PF_USER_MODE) { "user" } else { "kernel" });
        assert(v@ =~= fault_parts(self.bits));
        v
    }
}

} // verus!
