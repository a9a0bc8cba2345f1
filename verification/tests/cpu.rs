use std::mem::size_of;
use sos_kernel::cpu::context::{Context, InterruptFrame, Registers};
use sos_kernel::cpu::flags::RFlags;
use sos_kernel::cpu::idt::{Gate, GateFlags, Idt, ENTRIES};
use sos_kernel::cpu::interrupts::PageFaultErrorCode;
use sos_kernel::cpu::pics::{end_pic_interrupt, BothPICs, IRQ, PIC};
use sos_kernel::cpu::task::StateSegment;
use sos_kernel::cpu::{PortWrite, PrivilegeLevel};

#[test]
fn test_interrupt_frame_correct_size() {
    assert_eq!(size_of::<InterruptFrame>(), 32);
}

#[test]
fn empty_registers_and_context_are_zero() {
    let r = Registers::empty();
    assert_eq!(r.to_array(), [0u64; 9]);
    let c = Context::empty();
    assert_eq!(c.rsp.as_usize(), 0);
    assert_eq!(c.rip.as_usize(), 0);
    assert_eq!(c.registers, r);
}

#[test]
fn registers_array_is_in_push_order() {
    let r = Registers { rsi: 1, rdi: 2, r11: 3, r10: 4, r9: 5, r8: 6, rdx: 7, rcx: 8, rax: 9 };
    assert_eq!(r.to_array(), [1, 2, 3, 4, 5, 6, 7, 8, 9]);
}

#[test]
fn new_state_segment_is_zero() {
    let s = StateSegment::new();
    assert!(s.rsp.iter().all(|a| a.as_usize() == 0));
    assert!(s.ist.iter().all(|a| a.as_usize() == 0));
    assert_eq!(s.iomap_base_offset, 0);
    assert_eq!(s.to_bytes(), vec![0u8; 104]);
}

#[test]
fn state_segment_bytes_follow_the_hardware_layout() {
    let mut s = StateSegment::new();
    s.rsp[0] = sos_kernel::memory::VAddr::new(0x1122);
    s.ist[0] = sos_kernel::memory::VAddr::new(0xff);
    s.iomap_base_offset = 104;
    let b = s.to_bytes();
    assert_eq!(b.len(), 104);
    assert_eq!((b[4], b[5], b[6]), (0x22, 0x11, 0));
    assert_eq!((b[0x24], b[0x25]), (0xff, 0));
    assert_eq!((b[102], b[103]), (104, 0));
}

#[test]
fn iopl_reads_bits_12_and_13() {
    assert_eq!(RFlags { bits: 0x3000 }.iopl(), PrivilegeLevel::Ring3);
    assert_eq!(RFlags { bits: 0x1202 }.iopl(), PrivilegeLevel::Ring1);
    assert_eq!(RFlags { bits: 0x0202 }.iopl(), PrivilegeLevel::Ring0);
}

#[test]
fn gate_flag_constructors() {
    assert_eq!(GateFlags::new_trap().bits, 0x8f);
    assert_eq!(GateFlags::new_task().bits, 0x8c);
    assert!(!GateFlags::new_task().is_trap());
    assert_eq!(GateFlags::new_interrupt().bits, 0x8e);
    assert!(GateFlags::new_trap().is_trap());
    assert!(!GateFlags::new_interrupt().is_trap());
    assert!(GateFlags::new_interrupt().is_present());
}

#[test]
fn present_and_dpl_bits() {
    let mut f = GateFlags::new_interrupt();
    f.set_present(false);
    assert!(!f.is_present());
    assert_eq!(f.bits, 0x0e);
    f.set_present(true);
    assert!(f.is_present());
    assert_eq!(f.get_dpl(), PrivilegeLevel::Ring0);
    f.set_dpl(PrivilegeLevel::Ring3);
    assert_eq!(f.get_dpl(), PrivilegeLevel::Ring3);
    assert_eq!(f.bits, 0xee);
    // setting a lower level clears the bits of the higher one
    f.set_dpl(PrivilegeLevel::Ring0);
    assert_eq!(f.get_dpl(), PrivilegeLevel::Ring0);
    assert_eq!(f.bits, 0x8e);
    let mut g = GateFlags::new_interrupt();
    g.set_dpl(PrivilegeLevel::Ring2);
    assert_eq!(g.get_dpl(), PrivilegeLevel::Ring2);
    g.set_dpl(PrivilegeLevel::Ring1);
    assert_eq!(g.get_dpl(), PrivilegeLevel::Ring1);
    assert_eq!(g.bits, 0xae);
}

#[test]
fn gate_from_address_splits_it() {
    let g = Gate::from(0x1234_5678_9abc_def0);
    assert_eq!(g.offset_lower, 0xdef0);
    assert_eq!(g.offset_mid, 0x9abc);
    assert_eq!(g.offset_upper, 0x1234_5678);
    assert_eq!(g.flags.bits, 0x8e);
    assert_eq!(g.selector, 0);
    let a = Gate::absent();
    assert_eq!(a.flags.bits, 0);
    assert!(!a.flags.is_present());
}

#[test]
fn gate_bytes_are_little_endian() {
    let mut g = Gate::from(0x1234_5678_9abc_def0);
    g.selector = 0x08;
    assert_eq!(
        g.to_bytes(),
        [0xf0, 0xde, 0x08, 0x00, 0x00, 0x8e, 0xbc, 0x9a, 0x78, 0x56, 0x34, 0x12, 0, 0, 0, 0]
    );
    assert_eq!(Gate::absent().to_bytes(), [0u8; 16]);
}

#[test]
fn idt_starts_absent_and_takes_gates() {
    let mut idt = Idt::new();
    for i in 0..ENTRIES {
        assert_eq!(idt.index(i), Gate::absent());
    }
    idt.add_handler(14, 0xdead_beef);
    assert_eq!(idt.index(14), Gate::from(0xdead_beef));
    assert_eq!(idt.index(13), Gate::absent());
    idt.add_gate(255, Gate::from(1));
    assert_eq!(idt.index(255).offset_lower, 1);
}

#[test]
fn pics_ports_and_offsets() {
    let l = PIC::leader();
    let f = PIC::follower();
    assert!(l.is_leader());
    assert!(!f.is_leader());
    assert_eq!((l.command_port.number, l.data_port.number, l.offset), (0x20, 0x21, 0x20));
    assert_eq!((f.command_port.number, f.data_port.number, f.offset), (0xA0, 0xA1, 0x28));
    assert_eq!(l.send_data(7), PortWrite { port: 0x21, value: 7 });
    assert_eq!(l.initialize(), PortWrite { port: 0x20, value: 0x11 });
    assert_eq!(f.read_isr(), (PortWrite { port: 0xA0, value: 0x0b }, 0xA0));
    assert_eq!(f.read_irr(), (PortWrite { port: 0xA0, value: 0x0a }, 0xA0));
    assert_eq!(l.read_isr(), (PortWrite { port: 0x20, value: 0x0b }, 0x20));
    assert!(l.handles(IRQ::Timer));
    assert!(!l.handles(IRQ::PS2Mouse));
    assert!(f.handles(IRQ::PS2Mouse));
}

#[test]
fn pics_initialization_sequence() {
    let pics = BothPICs::new();
    assert_eq!(pics.mask_ports(), (0x21, 0xA1));
    let w = pics.initialize(0xaa, 0x55);
    let wait = PortWrite { port: 0x80, value: 0 };
    let expected = vec![
        PortWrite { port: 0x20, value: 0x11 }, wait,
        PortWrite { port: 0xA0, value: 0x11 }, wait,
        PortWrite { port: 0x21, value: 0x20 }, wait,
        PortWrite { port: 0xA1, value: 0x28 }, wait,
        PortWrite { port: 0x21, value: 0x04 }, wait,
        PortWrite { port: 0xA1, value: 0x02 }, wait,
        PortWrite { port: 0x21, value: 0x01 }, wait,
        PortWrite { port: 0xA1, value: 0x01 }, wait,
        PortWrite { port: 0x21, value: 0xaa }, wait,
        PortWrite { port: 0xA1, value: 0x55 }, wait,
    ];
    assert_eq!(w, expected);
}

#[test]
fn end_of_interrupt_goes_to_the_right_controllers() {
    let pics = BothPICs::new();
    assert_eq!(pics.end_interrupt(IRQ::Timer), vec![PortWrite { port: 0x20, value: 0x20 }]);
    assert_eq!(
        pics.end_interrupt(IRQ::SecondaryATA),
        vec![PortWrite { port: 0xA0, value: 0x20 }, PortWrite { port: 0x20, value: 0x20 }]
    );
    assert_eq!(end_pic_interrupt(&pics, 0x21), vec![PortWrite { port: 0x20, value: 0x20 }]);
    assert_eq!(end_pic_interrupt(&pics, 0x2c).len(), 2);
    assert!(end_pic_interrupt(&pics, 0xff).is_empty());
    // a follower line without a named request still ends at both controllers
    assert_eq!(
        end_pic_interrupt(&pics, 0x29),
        vec![PortWrite { port: 0xA0, value: 0x20 }, PortWrite { port: 0x20, value: 0x20 }]
    );
    assert_eq!(end_pic_interrupt(&pics, 0x27), vec![PortWrite { port: 0x20, value: 0x20 }]);
    assert!(end_pic_interrupt(&pics, 0x30).is_empty());
    assert!(end_pic_interrupt(&pics, 0x1f).is_empty());
    assert_eq!(IRQ::from_id(0x2e), Some(IRQ::PrimaryATA));
    assert_eq!(IRQ::from_id(0x29), None);
    assert_eq!(IRQ::COM1.id(), 0x24);
}

#[test]
fn page_fault_description() {
    let code = PageFaultErrorCode::from_bits_truncate(0x1 | 0x2 | 0x4 | 0x40);
    assert_eq!(code.bits, 0x7);
    assert_eq!(
        code.description_parts(),
        vec!["a present page", "", "", "read", "", "user"]
    );
    let code = PageFaultErrorCode::from_bits_truncate(0x30);
    assert_eq!(
        code.description_parts(),
        vec!["a non-present page", " protection-key violation", "", "write", " in an instruction fetch", "kernel"]
    );
}
