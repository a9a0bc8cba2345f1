use sos_kernel::multiboot::elf64::Section;
use sos_kernel::multiboot::{Info, MemArea, MemAreaType, TagType, Tags};

fn push_u32(v: &mut Vec<u8>, x: u32) {
    v.extend_from_slice(&x.to_le_bytes());
}

fn push_u64(v: &mut Vec<u8>, x: u64) {
    v.extend_from_slice(&x.to_le_bytes());
}

fn pad8(v: &mut Vec<u8>) {
    while v.len() % 8 != 0 {
        v.push(0);
    }
}

fn section(v: &mut Vec<u8>, ty: u32, address: u64) {
    push_u32(v, 0);
    push_u32(v, ty);
    push_u64(v, 0);
    push_u64(v, address);
    push_u64(v, 0);
    push_u64(v, 0x100);
    push_u32(v, 0);
    push_u32(v, 0);
    push_u64(v, 0);
}

/// A boot information structure with a command line tag, a memory map of
/// three areas (the middle one reserved) and an ELF sections tag of three
/// sections (the first null).
fn info_bytes() -> Vec<u8> {
    let mut v = Vec::new();
    push_u32(&mut v, 0);
    push_u32(&mut v, 0);
    // command line tag, 13 bytes long
    push_u32(&mut v, 1);
    push_u32(&mut v, 13);
    v.extend_from_slice(b"hello");
    pad8(&mut v);
    // memory map
    let mm = v.len();
    push_u32(&mut v, 6);
    push_u32(&mut v, 16 + 3 * 24);
    push_u32(&mut v, 24);
    push_u32(&mut v, 0);
    for (base, len, ty) in [(0u64, 0x9fc00u64, 1u32), (0x9fc00, 0x400, 2), (0x10_0000, 0x7ee_0000, 1)] {
        push_u64(&mut v, base);
        push_u64(&mut v, len);
        push_u32(&mut v, ty);
        push_u32(&mut v, 0);
    }
    assert_eq!(v.len(), mm + 16 + 72);
    pad8(&mut v);
    // ELF sections
    let es = v.len();
    push_u32(&mut v, 9);
    push_u32(&mut v, 20 + 3 * 56);
    push_u32(&mut v, 3);
    push_u32(&mut v, 56);
    push_u32(&mut v, 2);
    section(&mut v, 0, 0);
    section(&mut v, 1, 0x10_0000);
    section(&mut v, 3, 0x20_0000);
    assert_eq!(v.len(), es + 20 + 168);
    pad8(&mut v);
    // end tag
    push_u32(&mut v, 0);
    push_u32(&mut v, 8);
    let total = v.len() as u32;
    v[0..4].copy_from_slice(&total.to_le_bytes());
    v
}

#[test]
fn info_has_end_and_tags() {
    let bytes = info_bytes();
    let info = Info::from(&bytes);
    assert_eq!(info.length() as usize, bytes.len());
    assert!(info.has_end());
    let cmd = info.get_tag(TagType::CommandLine).unwrap();
    assert_eq!((cmd.ty, cmd.length, cmd.offset), (1, 13, 8));
    let mm = info.get_tag(TagType::MemoryMap).unwrap();
    assert_eq!((mm.ty, mm.offset), (6, 24));
    assert!(info.get_tag(TagType::Modules).is_none());
    assert!(info.get_tag(TagType::End).is_none());
}

#[test]
fn tags_advance_to_eight_byte_boundaries() {
    let mut t = Tags { offset: 8 };
    t.advance(13);
    assert_eq!(t.offset, 24);
    t.advance(16);
    assert_eq!(t.offset, 40);
    let bytes = info_bytes();
    let info = Info::from(&bytes);
    let mut tags = info.tags();
    let mut types = Vec::new();
    while let Some(tag) = tags.next(&bytes) {
        types.push(tag.ty);
    }
    assert_eq!(types, vec![1, 6, 9]);
}

#[test]
fn memory_map_yields_available_areas() {
    let bytes = info_bytes();
    let info = Info::from(&bytes);
    let mm = info.mem_map().unwrap();
    assert_eq!(mm.entry_size, 24);
    let mut areas = mm.areas();
    let a = areas.next(&bytes).unwrap();
    assert_eq!(a, MemArea { base: 0, length: 0x9fc00, ty: MemAreaType::Available.value() });
    assert_eq!(a.address(), 0x9fbff);
    let b = areas.next(&bytes).unwrap();
    assert_eq!((b.base, b.length), (0x10_0000, 0x7ee_0000));
    assert!(areas.next(&bytes).is_none());
}

#[test]
fn elf_sections_skip_the_null_one() {
    let bytes = info_bytes();
    let info = Info::from(&bytes);
    let tag = info.elf64_sections().unwrap();
    assert_eq!((tag.n_sections, tag.section_size, tag.stringtable_idx), (3, 56, 2));
    let mut sections = tag.sections();
    assert_eq!(sections.remaining, 3);
    let s: Section = sections.next(&bytes).unwrap();
    assert_eq!((s.ty, s.address, s.length), (1, 0x10_0000, 0x100));
    // the last section is yielded too
    let s: Section = sections.next(&bytes).unwrap();
    assert_eq!((s.ty, s.address, s.length), (3, 0x20_0000, 0x100));
    assert!(sections.next(&bytes).is_none());
}
