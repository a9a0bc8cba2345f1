//! The interrupt descriptor table and its gates.
use vstd::prelude::*;
use super::PrivilegeLevel;

verus! {

/// The number of entries in the interrupt descriptor table.
pub const ENTRIES: usize = 256;

/// Set if a gate is present.
pub const PRESENT: u8 = 0b1000_0000;
/// Descriptor privilege level ring 0.
pub const DPL_RING_0: u8 = 0b0000_0000;
/// Descriptor privilege level ring 1.
pub const DPL_RING_1: u8 = 0b0010_0000;
/// Descriptor privilege level ring 2.
pub const DPL_RING_2: u8 = 0b0100_0000;
/// Descriptor privilege level ring 3.
pub const DPL_RING_3: u8 = 0b0110_0000;
/// The descriptor privilege level field.
pub const DPL: u8 = 0b0110_0000;
/// Storage segment flag.
pub const SEGMENT: u8 = 0b0001_0000;
/// Set if a gate points to a 32-bit (or wider) handler.
pub const LONG_MODE: u8 = 0b0000_1000;
/// A 16-bit interrupt gate.
pub const INT_GATE_16: u8 = 0b0000_0110;
/// An interrupt gate to a 32-bit handler.
pub const INT_GATE_32: u8 = 0b0000_1110;
/// A 16-bit trap gate.
pub const TRAP_GATE_16: u8 = 0b0000_0111;
/// A trap gate to a 32-bit handler.
pub const TRAP_GATE_32: u8 = 0b0000_1111;
/// A 32-bit task gate.
pub const TASK_GATE_32: u8 = 0b0000_1101;
/// A call gate.
pub const CALL_GATE: u8 = 0b0000_1100;

/// A gate's type and attribute byte.
#[derive(Clone, Copy, PartialEq, Eq, Structural, Debug)]
pub struct GateFlags {
    pub bits: u8,
}

impl GateFlags {
    /// Flags of a present trap gate.
    pub fn new_trap() -> (r: Self)
        ensures
            r.bits == TRAP_GATE_32 | PRESENT,
            r.bits == 0x8f,
    {
        assert(0b0000_1111u8 | 0b1000_0000u8 == 0x8fu8) by (bit_vector);
        GateFlags { bits: TRAP_GATE_32 | PRESENT }
    }

    /// Flags of a present call gate.
    pub fn new_task() -> (r: Self)
        ensures
            r.bits == CALL_GATE | PRESENT,
            r.bits == 0x8c,
    {
        assert(0b0000_1100u8 | 0b1000_0000u8 == 0x8cu8) by (bit_vector);
        GateFlags { bits: CALL_GATE | PRESENT }
    }

    /// Flags of a present interrupt gate.
    pub fn new_interrupt() -> (r: Self)
        ensures
            r.bits == INT_GATE_32 | PRESENT,
            r.bits == 0x8e,
    {
        assert(0b0000_1110u8 | 0b1000_0000u8 == 0x8eu8) by (bit_vector);
        GateFlags { bits: INT_GATE_32 | PRESENT }
    }

    /// Whether the trap gate bits are all set.
    pub fn is_trap(&self) -> (r: bool)
        ensures
            r == (self.bits & TRAP_GATE_16 == TRAP_GATE_16),
    {
        self.bits & TRAP_GATE_16 == TRAP_GATE_16
    }

    /// Whether the present bit is set.
    pub fn is_present(&self) -> (r: bool)
        ensures
            r == (self.bits & PRESENT == PRESENT),
    {
        self.bits & PRESENT == PRESENT
    }

    /// Sets or clears the present bit, keeping the others.
    pub fn set_present(&mut self, present: bool)
        ensures
            present ==> final(self).bits == old(self).bits | PRESENT,
            !present ==> final(self).bits == old(self).bits & !PRESENT,
    {
        if present {
            self.bits = self.bits | PRESENT;
        } else {
            self.bits = self.bits & !PRESENT;
        }
    }

    /// The descriptor privilege level: bits 5 and 6 read as a ring number.
    pub fn get_dpl(&self) -> (r: PrivilegeLevel)
        ensures
            r.spec_number() == (self.bits & DPL) >> 5u8,
    {
        let b = self.bits;
        assert((b & 0b0110_0000u8) >> 5u8 < 4) by (bit_vector);
        let n = (b & DPL) >> 5u8;
        PrivilegeLevel::from_number(n)
    }

    /// Sets the privilege level field (bits 5 and 6) to `dpl`, keeping the
    /// other bits.
    pub fn set_dpl(&mut self, dpl: PrivilegeLevel)
        ensures
            final(self).bits == (old(self).bits & !DPL) | (dpl.spec_number() << 5u8),
    {
        let n = dpl.number();
        self.bits = (self.bits & !DPL) | (n << 5u8);
    }
}

impl Default for GateFlags {
    fn default() -> (r: Self)
        ensures
            r.bits == 0,
    {
        GateFlags { bits: 0 }
    }
}

/// An entry of the interrupt descriptor table: a handler address split in
/// three parts, a code segment selector and the type and attribute flags.
#[derive(Clone, Copy, PartialEq, Eq, Structural, Debug)]
pub struct Gate {
    /// Bits 0 to 15 of the handler's address.
    pub offset_lower: u16,
    /// The code segment selector.
    pub selector: u16,
    /// Type and attribute flags.
    pub flags: GateFlags,
    /// Bits 16 to 31 of the handler's address.
    pub offset_mid: u16,
    /// Bits 32 to 63 of the handler's address.
    pub offset_upper: u32,
}

/// What `Gate::from` builds for a handler at `addr`.
pub open spec fn gate_for(addr: u64) -> Gate {
    Gate {
        offset_lower: (addr % 0x1_0000) as u16,
        selector: 0,
        flags: GateFlags { bits: 0x8e },
        offset_mid: ((addr / 0x1_0000) % 0x1_0000) as u16,
        offset_upper: (addr / 0x1_0000_0000) as u32,
    }
}

/// The 16 bytes of a gate as the processor reads them, low byte first: the
/// offset's bits 0 to 15, the selector, a zero byte, the flags, the offset's
/// bits 16 to 31, its bits 32 to 63 and four reserved zero bytes.
pub open spec fn gate_image(g: Gate) -> Seq<u8> {
    seq![
        (g.offset_lower % 256) as u8,
        (g.offset_lower / 256) as u8,
        (g.selector % 256) as u8,
        (g.selector / 256) as u8,
        0u8,
        g.flags.bits,
        (g.offset_mid % 256) as u8,
        (g.offset_mid / 256) as u8,
        (g.offset_upper % 256) as u8,
        ((g.offset_upper / 256) % 256) as u8,
        ((g.offset_upper / 0x1_0000) % 256) as u8,
        (g.offset_upper / 0x100_0000) as u8,
        0u8,
        0u8,
        0u8,
        0u8,
    ]
}

/// The address a gate points to.
pub open spec fn gate_address(g: Gate) -> int {
    g.offset_lower + g.offset_mid * 0x1_0000 + g.offset_upper * 0x1_0000_0000
}

impl Gate {
    /// A gate that is not present, with every field zero.
    pub fn absent() -> (r: Self)
        ensures
            r == Self::absent_spec(),
    {
        Gate {
            offset_lower: 0,
            selector: 0,
            flags: GateFlags { bits: 0 },
            offset_mid: 0,
            offset_upper: 0,
        }
    }

    /// What `absent` gives.
    pub open spec fn absent_spec() -> Gate {
        Gate {
            offset_lower: 0,
            selector: 0,
            flags: GateFlags { bits: 0 },
            offset_mid: 0,
            offset_upper: 0,
        }
    }

    /// The 16 bytes the processor reads for this gate in the interrupt
    /// descriptor table.
    pub fn to_bytes(&self) -> (r: [u8; 16])
        ensures
            r@ == gate_image(*self),
    {
        let lo = self.offset_lower;
        let sel = self.selector;
        let mid = self.offset_mid;
        let up = self.offset_upper;
        let r = [
            (lo % 256) as u8,
            (lo / 256) as u8,
            (sel % 256) as u8,
            (sel / 256) as u8,
            0u8,
            self.flags.bits,
            (mid % 256) as u8,
            (mid / 256) as u8,
            (up % 256) as u8,
            ((up / 256) % 256) as u8,
            ((up / 0x1_0000) % 256) as u8,
            (up / 0x100_0000) as u8,
            0u8,
            0u8,
            0u8,
            0u8,
        ];
        assert(r@ =~= gate_image(*self));
        r
    }

    /// A present interrupt gate for the handler at `addr`, with a zero
    /// selector.
    pub fn from(addr: u64) -> (r: Self)
        ensures
            r == gate_for(addr),
            gate_address(r) == addr,
    {
        assert(addr & 0xffffu64 == addr % 0x1_0000 && (addr >> 16u64) & 0xffffu64 == (addr
            / 0x1_0000) % 0x1_0000 && addr >> 32u64 == addr / 0x1_0000_0000 && addr == addr
            % 0x1_0000 + ((addr / 0x1_0000) % 0x1_0000) * 0x1_0000 + (addr / 0x1_0000_0000)
            * 0x1_0000_0000) by (bit_vector);
        let low = (addr & 0xffff) as u16;
        let mid = ((addr >> 16u64) & 0xffff) as u16;
        let high = (addr >> 32u64) as u32;
        Gate {
            offset_lower: low,
            selector: 0,
            flags: GateFlags::new_interrupt(),
            offset_mid: mid,
            offset_upper: high,
        }
    }
}

/// Setting the present bit makes a gate present and clearing it makes it
/// absent; either way the other seven bits stay as they were.
pub proof fn lemma_set_present(bits: u8)
    ensures
        (bits | PRESENT) & PRESENT == PRESENT,
        (bits & !PRESENT) & PRESENT != PRESENT,
        (bits | PRESENT) & 0x7f == bits & 0x7f,
        (bits & !PRESENT) & 0x7f == bits & 0x7f,
{
    assert((bits | 0x80u8) & 0x80u8 == 0x80u8 && (bits & !0x80u8) & 0x80u8 != 0x80u8 && (bits
        | 0x80u8) & 0x7fu8 == bits & 0x7fu8 && (bits & !0x80u8) & 0x7fu8 == bits & 0x7fu8)
        by (bit_vector);
}

/// `get_dpl` reads back the level that `set_dpl` wrote, and `set_dpl`
/// leaves the bits outside the privilege level field as they were.
pub proof fn lemma_dpl_round_trip(bits: u8, dpl: PrivilegeLevel)
    ensures
        ((((bits & !DPL) | (dpl.spec_number() << 5u8)) & DPL) >> 5u8) == dpl.spec_number(),
        ((bits & !DPL) | (dpl.spec_number() << 5u8)) & !DPL == bits & !DPL,
{
    let n = dpl.spec_number();
    assert(n < 4);
    assert(n < 4 ==> (((bits & !0x60u8) | (n << 5u8)) & 0x60u8) >> 5u8 == n && ((bits & !0x60u8)
        | (n << 5u8)) & !0x60u8 == bits & !0x60u8) by (bit_vector);
}

/// The interrupt descriptor table: one gate for each of its 256 entries.
pub struct Idt {
    gates: Vec<Gate>,
}

impl View for Idt {
    type V = Seq<Gate>;

    /// The gates, by entry.
    closed spec fn view(&self) -> Seq<Gate> {
        self.gates@
    }
}

impl Idt {
    /// A table whose 256 gates are all absent.
    pub fn new() -> (r: Self)
        ensures
            r@.len() == ENTRIES,
            forall|i: int| 0 <= i < ENTRIES ==> r@[i] == Gate::absent_spec(),
    {
        let mut gates: Vec<Gate> = Vec::new();
        let mut i: usize = 0;
        while i < ENTRIES
            invariant
                i <= ENTRIES,
                gates@.len() == i,
                forall|j: int| 0 <= j < i ==> gates@[j] == Gate::absent_spec(),
            decreases ENTRIES - i,
        {
            gates.push(Gate::absent());
            i = i + 1;
        }
        Idt { gates }
    }

    /// Entry `idx`.
    pub fn index(&self, idx: usize) -> (r: Gate)
        requires
            idx < self@.len(),
        ensures
            r == self@[idx as int],
    {
        self.gates[idx]
    }

    /// Puts `gate` in entry `idx`.
    pub fn add_gate(&mut self, idx: usize, gate: Gate)
        requires
            idx < old(self)@.len(),
        ensures
            final(self)@ == old(self)@.update(idx as int, gate),
    {
        self.gates.set(idx, gate);
    }

    /// Puts a present interrupt gate for the handler at `addr` in entry
    /// `idx`.
    pub fn add_handler(&mut self, idx: usize, addr: u64)
        requires
            idx < old(self)@.len(),
        ensures
            final(self)@ == old(self)@.update(idx as int, gate_for(addr)),
    {
        self.add_gate(idx, Gate::from(addr));
    }
}

} // verus!
