//! x86_64 CPU data structures: saved register state, the task state
//! segment, flag registers, the interrupt descriptor table and the
//! programmable interrupt controllers.
//!
//! Nothing here touches the hardware: port I/O, control registers and the
//! `lidt` instruction are the caller's business. Operations that drive a
//! device return the port writes to perform, in order.
use vstd::prelude::*;

pub mod context;
pub mod task;
pub mod flags;
pub mod idt;
pub mod pics;
pub mod interrupts;

verus! {

/// An x86 privilege ring.
#[derive(Clone, Copy, PartialEq, Eq, Structural, Debug)]
pub enum PrivilegeLevel {
    /// Ring 0, the kernel.
    Ring0,
    /// Ring 1.
    Ring1,
    /// Ring 2.
    Ring2,
    /// Ring 3, user mode.
    Ring3,
}

impl PrivilegeLevel {
    /// The ring's number.
    pub open spec fn spec_number(self) -> u8 {
        match self {
            PrivilegeLevel::Ring0 => 0,
            PrivilegeLevel::Ring1 => 1,
            PrivilegeLevel::Ring2 => 2,
            PrivilegeLevel::Ring3 => 3,
        }
    }

    /// The ring with the given number (taken modulo 4).
    pub open spec fn spec_from_number(n: u8) -> PrivilegeLevel {
        if n % 4 == 0 {
            PrivilegeLevel::Ring0
        } else if n % 4 == 1 {
            PrivilegeLevel::Ring1
        } else if n % 4 == 2 {
            PrivilegeLevel::Ring2
        } else {
            PrivilegeLevel::Ring3
        }
    }

    /// The ring's number.
    pub fn number(&self) -> (r: u8)
        ensures
            r == self.spec_number(),
            r < 4,
    {
        match self {
            PrivilegeLevel::Ring0 => 0,
            PrivilegeLevel::Ring1 => 1,
            PrivilegeLevel::Ring2 => 2,
            PrivilegeLevel::Ring3 => 3,
        }
    }

    /// The ring with the given number, taken modulo 4.
    pub fn from_number(n: u8) -> (r: PrivilegeLevel)
        ensures
            r == Self::spec_from_number(n),
            r.spec_number() == n % 4,
    {
        let m = n % 4;
        if m == 0 {
            PrivilegeLevel::Ring0
        } else if m == 1 {
            PrivilegeLevel::Ring1
        } else if m == 2 {
            PrivilegeLevel::Ring2
        } else {
            PrivilegeLevel::Ring3
        }
    }
}

/// Ring `n` has number `n`, and the ring with a number is the ring of that
/// number modulo 4: the two conversions undo each other.
pub proof fn lemma_privilege_numbering(p: PrivilegeLevel, n: u8)
    ensures
        PrivilegeLevel::Ring0.spec_number() == 0,
        PrivilegeLevel::Ring1.spec_number() == 1,
        PrivilegeLevel::Ring2.spec_number() == 2,
        PrivilegeLevel::Ring3.spec_number() == 3,
        PrivilegeLevel::spec_from_number(p.spec_number()) == p,
        PrivilegeLevel::spec_from_number(n).spec_number() == n % 4,
{
}

/// An I/O port, by number.
#[derive(Clone, Copy, PartialEq, Eq, Structural, Debug)]
pub struct Port {
    pub number: u16,
}

impl Port {
    /// The port with the given number.
    pub fn new(number: u16) -> (r: Port)
        ensures
            r.number == number,
    {
        Port { number }
    }

    /// The write of `data` to this port.
    pub fn write(&self, data: u8) -> (r: PortWrite)
        ensures
            r == (PortWrite { port: self.number, value: data }),
    {
        PortWrite { port: self.number, value: data }
    }
}

/// A byte to write to an I/O port.
#[derive(Clone, Copy, PartialEq, Eq, Structural, Debug)]
pub struct PortWrite {
    pub port: u16,
    pub value: u8,
}

} // verus!
