//! The two cascaded 8259 programmable interrupt controllers.
//!
//! Nothing here performs port I/O: each operation returns the writes to
//! perform, and the port to read where it reads one.
use vstd::prelude::*;
use super::{Port, PortWrite};

verus! {

/// The interrupt number of the leader's first line.
pub const OFFSET: u8 = 0x20;
/// The follower's command port.
pub const FOLLOWER_CMD_PORT: u16 = 0xA0;
/// The leader's command port.
pub const LEADER_CMD_PORT: u16 = 0x20;
/// The port that a write to gives the controllers time to settle.
pub const WAIT_PORT: u16 = 0x80;

/// A command to a controller.
#[derive(Clone, Copy, PartialEq, Eq, Structural, Debug)]
pub enum Command {
    /// Set the controller to 8086 mode.
    Mode8086,
    /// Initialize the controller.
    Init,
    /// End an interrupt request.
    EndIRQ,
    /// Read the interrupt request register.
    ReadIRR,
    /// Read the in-service register.
    ReadISR,
}

impl Command {
    /// The command's byte.
    pub open spec fn spec_byte(self) -> u8 {
        match self {
            Command::Mode8086 => 0x01,
            Command::Init => 0x11,
            Command::EndIRQ => 0x20,
            Command::ReadIRR => 0x0a,
            Command::ReadISR => 0x0b,
        }
    }

    /// The command's byte.
    pub fn byte(&self) -> (r: u8)
        ensures
            r == self.spec_byte(),
    {
        match self {
            Command::Mode8086 => 0x01,
            Command::Init => 0x11,
            Command::EndIRQ => 0x20,
            Command::ReadIRR => 0x0a,
            Command::ReadISR => 0x0b,
        }
    }
}

/// The command bytes of the 8259: 8086 mode 0x01, initialization 0x11, end
/// of interrupt 0x20, read the request register 0x0a, read the in-service
/// register 0x0b; no two commands share a byte.
pub proof fn lemma_command_bytes(a: Command, b: Command)
    ensures
        Command::Mode8086.spec_byte() == 0x01,
        Command::Init.spec_byte() == 0x11,
        Command::EndIRQ.spec_byte() == 0x20,
        Command::ReadIRR.spec_byte() == 0x0a,
        Command::ReadISR.spec_byte() == 0x0b,
        a.spec_byte() == b.spec_byte() ==> a == b,
{
}

/// A hardware interrupt line, by the interrupt number it is mapped to.
#[derive(Clone, Copy, PartialEq, Eq, Structural, Debug)]
pub enum IRQ {
    /// System timer.
    Timer,
    /// PS/2 keyboard controller.
    PS2Keyboard,
    /// Cascade from the follower.
    Cascade,
    /// COM2 serial port.
    COM2,
    /// COM1 serial port.
    COM1,
    /// Line printer 2.
    LPT2,
    /// Floppy disc controller.
    Floppy,
    /// Line printer 1.
    LPT1,
    /// CMOS clock.
    RTCTimer,
    /// PS/2 mouse controller.
    PS2Mouse,
    /// Floating-point coprocessor.
    FPU,
    /// ATA channel 1.
    PrimaryATA,
    /// ATA channel 2.
    SecondaryATA,
}

impl IRQ {
    /// The line's number on the controllers (0 to 15).
    pub open spec fn spec_line(self) -> u8 {
        match self {
            IRQ::Timer => 0,
            IRQ::PS2Keyboard => 1,
            IRQ::Cascade => 2,
            IRQ::COM2 => 3,
            IRQ::COM1 => 4,
            IRQ::LPT2 => 5,
            IRQ::Floppy => 6,
            IRQ::LPT1 => 7,
            IRQ::RTCTimer => 8,
            IRQ::PS2Mouse => 12,
            IRQ::FPU => 13,
            IRQ::PrimaryATA => 14,
            IRQ::SecondaryATA => 15,
        }
    }

    /// The interrupt number the line is mapped to.
    pub open spec fn spec_id(self) -> u8 {
        (OFFSET + self.spec_line()) as u8
    }

    /// The interrupt number the line is mapped to.
    pub fn id(&self) -> (r: u8)
        ensures
            r == self.spec_id(),
    {
        let line: u8 = match self {
            IRQ::Timer => 0,
            IRQ::PS2Keyboard => 1,
            IRQ::Cascade => 2,
            IRQ::COM2 => 3,
            IRQ::COM1 => 4,
            IRQ::LPT2 => 5,
            IRQ::Floppy => 6,
            IRQ::LPT1 => 7,
            IRQ::RTCTimer => 8,
            IRQ::PS2Mouse => 12,
            IRQ::FPU => 13,
            IRQ::PrimaryATA => 14,
            IRQ::SecondaryATA => 15,
        };
        OFFSET + line
    }
}

/// One programmable interrupt controller.
#[derive(Clone, Copy, PartialEq, Eq, Structural, Debug)]
pub struct PIC {
    /// The interrupt number its first line is mapped to.
    pub offset: u8,
    /// The port that takes its commands.
    pub command_port: Port,
    /// The port that sends and receives its data.
    pub data_port: Port,
}

/// Whether a controller whose lines start at `offset` handles interrupt
/// number `id`.
pub open spec fn handles_id(offset: u8, id: u8) -> bool {
    offset <= id && id < offset + 8
}

impl PIC {
    /// The leader controller.
    pub fn leader() -> (r: PIC)
        ensures
            r.offset == OFFSET,
            r.command_port.number == LEADER_CMD_PORT,
            r.data_port.number == LEADER_CMD_PORT + 1,
    {
        PIC {
            offset: OFFSET,
            command_port: Port::new(LEADER_CMD_PORT),
            data_port: Port::new(LEADER_CMD_PORT + 1),
        }
    }

    /// The follower controller.
    pub fn follower() -> (r: PIC)
        ensures
            r.offset == OFFSET + 8,
            r.command_port.number == FOLLOWER_CMD_PORT,
            r.data_port.number == FOLLOWER_CMD_PORT + 1,
    {
        PIC {
            offset: OFFSET + 8,
            command_port: Port::new(FOLLOWER_CMD_PORT),
            data_port: Port::new(FOLLOWER_CMD_PORT + 1),
        }
    }

    /// Whether this is the leader.
    pub fn is_leader(&self) -> (r: bool)
        ensures
            r == (self.offset == OFFSET),
    {
        self.offset == OFFSET
    }

    /// The write that sends `command` to this controller.
    pub fn send_command(&self, command: Command) -> (r: PortWrite)
        ensures
            r == (PortWrite { port: self.command_port.number, value: command.spec_byte() }),
    {
        self.command_port.write(command.byte())
    }

    /// The write that sends `data` to this controller.
    pub fn send_data(&self, data: u8) -> (r: PortWrite)
        ensures
            r == (PortWrite { port: self.data_port.number, value: data }),
    {
        self.data_port.write(data)
    }

    /// The write that starts this controller's initialization.
    pub fn initialize(&self) -> (r: PortWrite)
        ensures
            r == (PortWrite { port: self.command_port.number, value: 0x11 }),
    {
        self.send_command(Command::Init)
    }

    /// Reading the in-service register: the command write, then the port to
    /// read it from (the command port, which answers with the register
    /// chosen by the command).
    pub fn read_isr(&self) -> (r: (PortWrite, u16))
        ensures
            r.0 == (PortWrite { port: self.command_port.number, value: 0x0b }),
            r.1 == self.command_port.number,
    {
        (self.send_command(Command::ReadISR), self.command_port.number)
    }

    /// Reading the interrupt request register: the command write, then the
    /// port to read it from (the command port).
    pub fn read_irr(&self) -> (r: (PortWrite, u16))
        ensures
            r.0 == (PortWrite { port: self.command_port.number, value: 0x0a }),
            r.1 == self.command_port.number,
    {
        (self.send_command(Command::ReadIRR), self.command_port.number)
    }

    /// Whether this controller handles the line `irq`.
    pub fn handles(&self, irq: IRQ) -> (r: bool)
        ensures
            r == handles_id(self.offset, irq.spec_id()),
    {
        let id = irq.id();
        self.offset <= id && (id as u16) < self.offset as u16 + 8
    }

    /// The write that ends an interrupt request on this controller.
    pub fn end_interrupt(&self, irq: IRQ) -> (r: PortWrite)
        ensures
            r == (PortWrite { port: self.command_port.number, value: 0x20 }),
    {
        self.send_command(Command::EndIRQ)
    }
}

/// The leader and the follower.
#[derive(Clone, Copy, PartialEq, Eq, Structural, Debug)]
pub struct BothPICs(pub PIC, pub PIC);

/// The writes that initialize both controllers, each followed by a write of
/// zero to the wait port: the two initialization commands, the offsets, the
/// cascade wiring (4 to the leader, 2 to the follower), 8086 mode, and the
/// saved interrupt masks.
pub open spec fn init_writes(pics: BothPICs, mask1: u8, mask2: u8) -> Seq<PortWrite> {
    let w = PortWrite { port: WAIT_PORT, value: 0 };
    let c0 = pics.0.command_port.number;
    let c1 = pics.1.command_port.number;
    let d0 = pics.0.data_port.number;
    let d1 = pics.1.data_port.number;
    seq![
        PortWrite { port: c0, value: 0x11 }, w,
        PortWrite { port: c1, value: 0x11 }, w,
        PortWrite { port: d0, value: pics.0.offset }, w,
        PortWrite { port: d1, value: pics.1.offset }, w,
        PortWrite { port: d0, value: 0x04 }, w,
        PortWrite { port: d1, value: 0x02 }, w,
        PortWrite { port: d0, value: 0x01 }, w,
        PortWrite { port: d1, value: 0x01 }, w,
        PortWrite { port: d0, value: mask1 }, w,
        PortWrite { port: d1, value: mask2 }, w,
    ]
}

impl BothPICs {
    /// The leader and the follower.
    pub fn new() -> (r: Self)
        ensures
            r.0.offset == OFFSET,
            r.0.command_port.number == LEADER_CMD_PORT,
            r.0.data_port.number == LEADER_CMD_PORT + 1,
            r.1.offset == OFFSET + 8,
            r.1.command_port.number == FOLLOWER_CMD_PORT,
            r.1.data_port.number == FOLLOWER_CMD_PORT + 1,
    {
        BothPICs(PIC::leader(), PIC::follower())
    }

    /// The ports to read the interrupt masks from before initializing: the
    /// leader's data port, then the follower's.
    pub fn mask_ports(&self) -> (r: (u16, u16))
        ensures
            r == (self.0.data_port.number, self.1.data_port.number),
    {
        (self.0.data_port.number, self.1.data_port.number)
    }

    /// The writes that initialize both controllers, given the masks read
    /// from `mask_ports`.
    pub fn initialize(&self, saved_mask1: u8, saved_mask2: u8) -> (r: Vec<PortWrite>)
        ensures
            r@ == init_writes(*self, saved_mask1, saved_mask2),
    {
        let wait = Port::new(WAIT_PORT);
        let mut out: Vec<PortWrite> = Vec::new();
        out.push(self.0.initialize());
        out.push(wait.write(0));
        out.push(self.1.initialize());
        out.push(wait.write(0));
        out.push(self.0.send_data(self.0.offset));
        out.push(wait.write(0));
        out.push(self.1.send_data(self.1.offset));
        out.push(wait.write(0));
        out.push(self.0.send_data(0x04));
        out.push(wait.write(0));
        out.push(self.1.send_data(0x02));
        out.push(wait.write(0));
        out.push(self.0.send_data(Command::Mode8086.byte()));
        out.push(wait.write(0));
        out.push(self.1.send_data(Command::Mode8086.byte()));
        out.push(wait.write(0));
        out.push(self.0.send_data(saved_mask1));
        out.push(wait.write(0));
        out.push(self.1.send_data(saved_mask2));
        out.push(wait.write(0));
        assert(out@ =~= init_writes(*self, saved_mask1, saved_mask2));
        out
    }

    /// Whether either controller handles the line `irq`.
    pub fn handles(&self, irq: IRQ) -> (r: bool)
        ensures
            r == (handles_id(self.0.offset, irq.spec_id()) || handles_id(
                self.1.offset,
                irq.spec_id(),
            )),
    {
        self.0.handles(irq) || self.1.handles(irq)
    }

    /// The writes that end an interrupt request: to the follower first if it
    /// handles the line, then always to the leader.
    pub fn end_interrupt(&self, irq: IRQ) -> (r: Vec<PortWrite>)
        ensures
            handles_id(self.1.offset, irq.spec_id()) ==> r@ == seq![
                PortWrite { port: self.1.command_port.number, value: 0x20u8 },
                PortWrite { port: self.0.command_port.number, value: 0x20u8 },
            ],
            !handles_id(self.1.offset, irq.spec_id()) ==> r@ == seq![
                PortWrite { port: self.0.command_port.number, value: 0x20u8 },
            ],
    {
        let mut out: Vec<PortWrite> = Vec::new();
        if self.1.handles(irq) {
            out.push(self.1.end_interrupt(irq));
        }
        out.push(self.0.end_interrupt(irq));
        proof {
            if handles_id(self.1.offset, irq.spec_id()) {
                assert(out@ =~= seq![
                    PortWrite { port: self.1.command_port.number, value: 0x20u8 },
                    PortWrite { port: self.0.command_port.number, value: 0x20u8 },
                ]);
            } else {
                assert(out@ =~= seq![
                    PortWrite { port: self.0.command_port.number, value: 0x20u8 },
                ]);
            }
        }
        out
    }
}

/// The line mapped to interrupt number `id`, if any.
pub open spec fn irq_of(id: u8) -> Option<IRQ> {
    if id == 0x20 {
        Some(IRQ::Timer)
    } else if id == 0x21 {
        Some(IRQ::PS2Keyboard)
    } else if id == 0x22 {
        Some(IRQ::Cascade)
    } else if id == 0x23 {
        Some(IRQ::COM2)
    } else if id == 0x24 {
        Some(IRQ::COM1)
    } else if id == 0x25 {
        Some(IRQ::LPT2)
    } else if id == 0x26 {
        Some(IRQ::Floppy)
    } else if id == 0x27 {
        Some(IRQ::LPT1)
    } else if id == 0x28 {
        Some(IRQ::RTCTimer)
    } else if id == 0x2c {
        Some(IRQ::PS2Mouse)
    } else if id == 0x2d {
        Some(IRQ::FPU)
    } else if id == 0x2e {
        Some(IRQ::PrimaryATA)
    } else if id == 0x2f {
        Some(IRQ::SecondaryATA)
    } else {
        None
    }
}

impl IRQ {
    /// The line mapped to interrupt number `id`, if any.
    pub fn from_id(id: u8) -> (r: Option<IRQ>)
        ensures
            r == irq_of(id),
            r matches Some(irq) ==> irq.spec_id() == id,
    {
        match id {
            0x20 => Some(IRQ::Timer),
            0x21 => Some(IRQ::PS2Keyboard),
            0x22 => Some(IRQ::Cascade),
            0x23 => Some(IRQ::COM2),
            0x24 => Some(IRQ::COM1),
            0x25 => Some(IRQ::LPT2),
            0x26 => Some(IRQ::Floppy),
            0x27 => Some(IRQ::LPT1),
            0x28 => Some(IRQ::RTCTimer),
            0x2c => Some(IRQ::PS2Mouse),
            0x2d => Some(IRQ::FPU),
            0x2e => Some(IRQ::PrimaryATA),
            0x2f => Some(IRQ::SecondaryATA),
            _ => None,
        }
    }
}

/// Each line sits at its standard 8259 position (timer 0, keyboard 1, cascade
/// 2, COM2 3, COM1 4, LPT2 5, floppy 6, LPT1 7, clock 8, PS/2 mouse 12,
/// coprocessor 13, primary ATA 14, secondary ATA 15), and its interrupt number
/// is the offset 0x20 plus that line.
pub proof fn lemma_irq_numbering(irq: IRQ)
    ensures
        irq.spec_id() == 0x20 + irq.spec_line(),
        irq.spec_line() < 16,
        IRQ::Timer.spec_line() == 0,
        IRQ::PS2Keyboard.spec_line() == 1,
        IRQ::Cascade.spec_line() == 2,
        IRQ::COM2.spec_line() == 3,
        IRQ::COM1.spec_line() == 4,
        IRQ::LPT2.spec_line() == 5,
        IRQ::Floppy.spec_line() == 6,
        IRQ::LPT1.spec_line() == 7,
        IRQ::RTCTimer.spec_line() == 8,
        IRQ::PS2Mouse.spec_line() == 12,
        IRQ::FPU.spec_line() == 13,
        IRQ::PrimaryATA.spec_line() == 14,
        IRQ::SecondaryATA.spec_line() == 15,
        IRQ::Timer.spec_id() == 0x20,
        IRQ::PS2Keyboard.spec_id() == 0x21,
        IRQ::RTCTimer.spec_id() == 0x28,
        IRQ::PS2Mouse.spec_id() == 0x2c,
        IRQ::SecondaryATA.spec_id() == 0x2f,
{
}

/// Looking up a line's interrupt number gives that line back, and the
/// numbers of the lines that no IRQ names (0x29 to 0x2b) and those outside
/// 0x20 to 0x2f give no line.
pub proof fn lemma_irq_round_trip(irq: IRQ, id: u8)
    ensures
        irq_of(irq.spec_id()) == Some(irq),
        irq_of(id) matches Some(i) ==> i.spec_id() == id,
        (id < 0x20 || id > 0x2f || (0x29 <= id <= 0x2b)) ==> irq_of(id) is None,
{
}

/// Distinct lines are mapped to distinct interrupt numbers.
pub proof fn lemma_irq_id_injective(a: IRQ, b: IRQ)
    requires
        a.spec_id() == b.spec_id(),
    ensures
        a == b,
{
}

/// The writes that end interrupt `interrupt_id`: when the follower handles
/// it, an end-of-interrupt command to the follower and then to the leader;
/// when only the leader does, to the leader; otherwise none.
pub fn end_pic_interrupt(pics: &BothPICs, interrupt_id: u8) -> (r: Vec<PortWrite>)
    ensures
        handles_id(pics.1.offset, interrupt_id) ==> r@ == seq![
            PortWrite { port: pics.1.command_port.number, value: 0x20u8 },
            PortWrite { port: pics.0.command_port.number, value: 0x20u8 },
        ],
        !handles_id(pics.1.offset, interrupt_id) && handles_id(pics.0.offset, interrupt_id) ==> r@
            == seq![PortWrite { port: pics.0.command_port.number, value: 0x20u8 }],
        !handles_id(pics.1.offset, interrupt_id) && !handles_id(pics.0.offset, interrupt_id) ==> r@.len()
            == 0,
{
    let mut out: Vec<PortWrite> = Vec::new();
    let f = pics.1.offset as u16;
    let l = pics.0.offset as u16;
    let id = interrupt_id as u16;
    let in_follower = f <= id && id < f + 8;
    let in_leader = l <= id && id < l + 8;
    if in_follower {
        out.push(pics.1.send_command(Command::EndIRQ));
    }
    if in_follower || in_leader {
        out.push(pics.0.send_command(Command::EndIRQ));
    }
    proof {
        if in_follower {
            assert(out@ =~= seq![
                PortWrite { port: pics.1.command_port.number, value: 0x20u8 },
                PortWrite { port: pics.0.command_port.number, value: 0x20u8 },
            ]);
        } else if in_leader {
            assert(out@ =~= seq![PortWrite { port: pics.0.command_port.number, value: 0x20u8 }]);
        }
    }
    out
}

} // verus!
