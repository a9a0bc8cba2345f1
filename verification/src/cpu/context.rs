//! Saved CPU state: caller-saved registers, interrupt frames and execution
//! contexts.
use vstd::prelude::*;
use crate::memory::VAddr;
use super::flags::RFlags;

verus! {

/// The caller-saved general-purpose registers, in the order an interrupt
/// handler pushes them.
#[derive(Clone, Copy, PartialEq, Eq, Structural, Debug)]
pub struct Registers {
    pub rsi: u64,
    pub rdi: u64,
    pub r11: u64,
    pub r10: u64,
    pub r9: u64,
    pub r8: u64,
    pub rdx: u64,
    pub rcx: u64,
    pub rax: u64,
}

impl Registers {
    /// Registers that all hold zero.
    pub fn empty() -> (r: Self)
        ensures
            r == (Registers {
                rsi: 0,
                rdi: 0,
                r11: 0,
                r10: 0,
                r9: 0,
                r8: 0,
                rdx: 0,
                rcx: 0,
                rax: 0,
            }),
    {
        Registers { rsi: 0, rdi: 0, r11: 0, r10: 0, r9: 0, r8: 0, rdx: 0, rcx: 0, rax: 0 }
    }

    /// The registers in push order.
    pub fn to_array(&self) -> (r: [u64; 9])
        ensures
            r@ == seq![
                self.rsi,
                self.rdi,
                self.r11,
                self.r10,
                self.r9,
                self.r8,
                self.rdx,
                self.rcx,
                self.rax,
            ],
    {
        let r = [
            self.rsi,
            self.rdi,
            self.r11,
            self.r10,
            self.r9,
            self.r8,
            self.rdx,
            self.rcx,
            self.rax,
        ];
        assert(r@ =~= seq![
            self.rsi,
            self.rdi,
            self.r11,
            self.r10,
            self.r9,
            self.r8,
            self.rdx,
            self.rcx,
            self.rax,
        ]);
        r
    }
}

/// What the CPU pushes on an interrupt: the interrupted instruction and
/// stack pointers, the segments, and the flags.
#[derive(Clone, Copy, PartialEq, Eq, Structural, Debug)]
pub struct InterruptFrame {
    /// The instruction pointer (`rip`).
    pub rip: u64,
    /// The code segment selector (`cs`).
    pub cs: u16,
    /// The CPU flags (`rflags`).
    pub rflags: RFlags,
    /// The stack pointer (`rsp`).
    pub rsp: u64,
    /// The stack segment selector (`ss`).
    pub ss: u16,
}

/// An execution context: stack pointer, caller-saved registers and
/// instruction pointer.
#[derive(Clone, Copy, PartialEq, Eq, Structural, Debug)]
pub struct Context {
    /// The stack pointer (`rsp`).
    pub rsp: VAddr,
    /// The caller-saved registers.
    pub registers: Registers,
    /// The instruction pointer (`rip`).
    pub rip: VAddr,
}

impl Context {
    /// A context whose pointers and registers are all zero.
    pub fn empty() -> (r: Self)
        ensures
            r.rsp@ == 0,
            r.rip@ == 0,
            r.registers == Registers::empty_spec(),
    {
        Context { rsp: VAddr::new(0), registers: Registers::empty(), rip: VAddr::new(0) }
    }
}

impl Registers {
    /// The registers `empty` gives.
    pub open spec fn empty_spec() -> Registers {
        Registers { rsi: 0, rdi: 0, r11: 0, r10: 0, r9: 0, r8: 0, rdx: 0, rcx: 0, rax: 0 }
    }
}

} // verus!
