use sos_kernel::elf::file::Type as FileType;
use sos_kernel::elf::file::{Class, DataEncoding, HeaderRepr, Ident, Machine, OsAbi, TypeRepr, Version};
use sos_kernel::elf::section::is_null;
use sos_kernel::elf::section::Type as SectionType;
use sos_kernel::elf::section::{read_to_null, Flags, Sections, StrTable, Strings};
use sos_kernel::elf::section::HeaderRepr as SectionHeader;
use sos_kernel::elf::section::TypeRepr as SectionTypeRepr;

fn ident(magic: [u8; 4], class: Class, encoding: DataEncoding) -> Ident {
    Ident { magic, class, encoding, version: Version::Current, abi: OsAbi::SystemV, abi_version: 0 }
}

#[test]
fn ident_validity() {
    let good = ident([0x7f, b'E', b'L', b'F'], Class::Elf64, DataEncoding::LittleEndian);
    assert!(good.check_magic());
    assert!(good.is_valid());
    let bad_magic = ident([0x7f, b'E', b'L', b'G'], Class::Elf64, DataEncoding::LittleEndian);
    assert!(!bad_magic.check_magic());
    assert!(!bad_magic.is_valid());
    assert!(!ident([0x7f, b'E', b'L', b'F'], Class::ClassNone, DataEncoding::LittleEndian).is_valid());
    assert!(!ident([0x7f, b'E', b'L', b'F'], Class::Elf32, DataEncoding::EncodingNone).is_valid());
}

#[test]
fn class_checks() {
    assert_eq!(Class::Elf64.check_u64(), Ok(()));
    assert_eq!(Class::Elf32.check_u64(), Err("Cannot extract 64-bit section from 32-bit ELF"));
    assert_eq!(Class::ClassNone.check_u64(), Err("Invalid ELF type ELFCLASSNONE!"));
    assert_eq!(Class::Elf32.check_u32(), Ok(()));
    assert_eq!(Class::Elf64.check_u32(), Err("Cannot extract 32-bit section from 64-bit ELF"));
    assert!(Class::Elf32.is_valid());
    assert!(!DataEncoding::EncodingNone.is_valid());
}

#[test]
fn file_types() {
    assert_eq!(TypeRepr(0).as_type(), FileType::TypeNone);
    assert_eq!(TypeRepr(2).as_type(), FileType::Executable);
    assert_eq!(TypeRepr(4).as_type(), FileType::Core);
    assert_eq!(TypeRepr(0xfe00).as_type(), FileType::Other(0xfe00));
}

fn header() -> HeaderRepr {
    HeaderRepr {
        ident: ident([0x7f, b'E', b'L', b'F'], Class::Elf64, DataEncoding::LittleEndian),
        elftype: TypeRepr(2),
        machine: Machine::X86_64,
        entry_point: 0x10_0000,
        ph_offset: 64,
        sh_offset: 0x1000,
        flags: 0,
        header_size: 64,
        ph_entry_size: 56,
        ph_count: 3,
        sh_entry_size: 64,
        sh_count: 10,
        sh_str_idx: 9,
    }
}

#[test]
fn header_ranges() {
    let h = header();
    assert_eq!(h.get_type(), FileType::Executable);
    assert_eq!(h.sh_range(), 0x1000..0x1000 + 640);
    assert_eq!(h.ph_range(), 64..64 + 168);
    assert_eq!(h.section_index(2), 0x1000 + 128..0x1000 + 192);
    assert_eq!(h.program_header_index(1), 120..176);
    assert_eq!(h.sh_str_idx(), 9);
    assert_eq!(h.entry_point(), 0x10_0000);
}

#[test]
fn section_types() {
    assert_eq!(SectionTypeRepr(0).as_type(), Ok(SectionType::Null));
    assert_eq!(SectionTypeRepr(3).as_type(), Ok(SectionType::StringTable));
    assert_eq!(SectionTypeRepr(16).as_type(), Ok(SectionType::PreInitArray));
    assert_eq!(SectionTypeRepr(12).as_type(), Err("Invalid section type!"));
    assert_eq!(SectionTypeRepr(11).as_type(), Ok(SectionType::DynSymTable));
    assert_eq!(SectionTypeRepr(14).as_type(), Ok(SectionType::InitArray));
    assert_eq!(SectionTypeRepr(17).as_type(), Ok(SectionType::Group));
    assert_eq!(SectionTypeRepr(18).as_type(), Ok(SectionType::SymbolTableShIndex));
    assert_eq!(SectionTypeRepr(19).as_type(), Err("Invalid section type!"));
    assert_eq!(SectionTypeRepr(0x6000_0001).as_type(), Ok(SectionType::OsSpecific(0x6000_0001)));
    assert_eq!(SectionTypeRepr(0x7000_0000).as_type(), Ok(SectionType::ProcessorSpecific(0x7000_0000)));
    assert_eq!(SectionTypeRepr(0xffff_ffff).as_type(), Ok(SectionType::User(0xffff_ffff)));
    assert_eq!(SectionTypeRepr(0x5fff_ffff).as_type(), Err("Invalid section type!"));
}

fn section(ty: u32, flags: usize) -> SectionHeader {
    SectionHeader {
        name_offset: 0,
        ty: SectionTypeRepr(ty),
        flags: Flags { bits: flags },
        address: 0x1000,
        offset: 0,
        length: 0x20,
        link: 0,
        info: 0,
        address_align: 8,
        entry_length: 0,
    }
}

#[test]
fn section_flags() {
    let s = section(1, 0x1 | 0x2 | 0x10);
    assert!(s.is_writable());
    assert!(s.is_allocated());
    assert!(!s.is_executable());
    assert!(s.is_mergeable());
    assert!(s.is_uniform());
    assert!(!section(1, 0x10 | 0x20).is_uniform());
    assert_eq!(s.end_address(), 0x1020);
}

#[test]
fn sections_skip_null_ones() {
    let headers = [section(0, 0), section(1, 0), section(0, 0), section(3, 4), section(2, 0)];
    let mut it = Sections::new(&headers, 4);
    assert_eq!(it.next().unwrap().ty, SectionTypeRepr(1));
    assert_eq!(it.next().unwrap().ty, SectionTypeRepr(3));
    assert!(it.next().is_none());
}

#[test]
fn null_terminated_strings() {
    assert!(is_null(&0));
    assert!(!is_null(&b'a'));
    assert_eq!(read_to_null(b"abc\0def\0"), Some(&b"abc"[..]));
    assert_eq!(read_to_null(b"abc"), None);
    assert_eq!(read_to_null(b"\0"), Some(&b""[..]));
    let table = StrTable::from(b"\0.text\0.data\0");
    assert_eq!(table.at_index(1), Some(&b".text"[..]));
    assert_eq!(table.at_index(7), Some(&b".data"[..]));
    assert_eq!(table.at_index(0), Some(&b""[..]));
    assert_eq!(table.at_index(13), None);
    assert_eq!(table.at_index(14), None);
    let mut strings: Strings = table.strings();
    assert_eq!(strings.size_hint(), (0, Some(13)));
    assert_eq!(strings.next(), Some(&b""[..]));
    assert_eq!(strings.next(), Some(&b".text"[..]));
    assert_eq!(strings.next(), Some(&b".data"[..]));
    assert_eq!(strings.next(), None);
    let empties = StrTable::from(b"\0\0\0").strings();
    assert_eq!(empties.size_hint(), (0, Some(3)));
    let mut unterminated = Strings(b"abc");
    assert_eq!(unterminated.next(), None);
    assert_eq!(unterminated.0, b"abc");
}

#[test]
fn image_string_table_starts_at_the_index() {
    let mut h = header();
    h.sh_str_idx = 2;
    let sections = [section(3, 0)];
    let binary = b"xx\0abc\0";
    let image = sos_kernel::elf::Image { header: h, sections: &sections, binary };
    let table = image.sh_str_table();
    assert_eq!(table.0, b"\0abc\0");
    assert_eq!(table.at_index(1), Some(&b"abc"[..]));
}
