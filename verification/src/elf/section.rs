//! ELF section headers and string tables.
use vstd::prelude::*;
use super::ElfResult;

verus! {

pub const SHN_UNDEF: u16 = 0;
pub const SHN_LORESERVE: u16 = 0xff00;
pub const SHN_LOPROC: u16 = 0xff00;
pub const SHN_HIPROC: u16 = 0xff1f;
pub const SHN_LOOS: u16 = 0xff20;
pub const SHN_HIOS: u16 = 0xff3f;
pub const SHN_ABS: u16 = 0xfff1;
pub const SHN_COMMON: u16 = 0xfff2;
pub const SHN_XINDEX: u16 = 0xffff;
pub const SHN_HIRESERVE: u16 = 0xffff;

/// The first operating-system-specific section type.
pub const SHT_LOOS: u32 = 0x60000000;
/// The last operating-system-specific section type.
pub const SHT_HIOS: u32 = 0x6fffffff;
/// The first processor-specific section type.
pub const SHT_LOPROC: u32 = 0x70000000;
/// The last processor-specific section type.
pub const SHT_HIPROC: u32 = 0x7fffffff;
/// The first application-specific section type.
pub const SHT_LOUSER: u32 = 0x80000000;
/// The last application-specific section type.
pub const SHT_HIUSER: u32 = 0xffffffff;

/// The section holds data that is writable at run time.
pub const SHF_WRITE: usize = 0x1;
/// The section occupies memory at run time.
pub const SHF_ALLOC: usize = 0x2;
/// The section holds executable instructions.
pub const SHF_EXECINSTR: usize = 0x4;
/// The section's data may be merged.
pub const SHF_MERGE: usize = 0x10;
/// The section holds null-terminated strings.
pub const SHF_STRINGS: usize = 0x20;
pub const SHF_INFO_LINK: usize = 0x40;
pub const SHF_LINK_ORDER: usize = 0x80;
pub const SHF_OS_NONCONFORMING: usize = 0x100;
pub const SHF_GROUP: usize = 0x200;
pub const SHF_TLS: usize = 0x400;
pub const SHF_COMPRESSED: usize = 0x800;
pub const SHF_MASKOS: usize = 0x0ff00000;
pub const SHF_MASKPROC: usize = 0xf0000000;

/// A section's flags.
#[derive(Clone, Copy, PartialEq, Eq, Structural, Debug)]
pub struct Flags {
    pub bits: usize,
}

impl Flags {
    /// Whether every bit of `mask` is set.
    pub fn contains(&self, mask: usize) -> (r: bool)
        ensures
            r == (self.bits & mask == mask),
    {
        self.bits & mask == mask
    }
}

/// The contents of a section.
pub enum Contents<'a> {
    /// The section holds nothing.
    Empty,
    /// The section's bytes, not interpreted.
    Undefined(&'a [u8]),
    /// A section group: its flags and the indices of its sections.
    Group { flags: &'a u32, indicies: &'a [u32] },
}

/// The type of a section.
#[derive(Clone, Copy, PartialEq, Eq, Structural, Debug)]
pub enum Type {
    Null,
    ProgramBits,
    SymbolTable,
    StringTable,
    Rela,
    HashTable,
    Dynamic,
    Notes,
    NoBits,
    Rel,
    Shlib,
    DynSymTable,
    InitArray,
    FiniArray,
    PreInitArray,
    Group,
    SymbolTableShIndex,
    OsSpecific(u32),
    ProcessorSpecific(u32),
    User(u32),
}

/// The type field of a section header, as stored.
#[derive(Clone, Copy, PartialEq, Eq, Structural, Debug)]
pub struct TypeRepr(pub u32);

/// The section type a stored type field means, or `None` for a value that
/// names no type.
pub open spec fn section_type(raw: u32) -> Option<Type> {
    if raw == 0 {
        Some(Type::Null)
    } else if raw == 1 {
        Some(Type::ProgramBits)
    } else if raw == 2 {
        Some(Type::SymbolTable)
    } else if raw == 3 {
        Some(Type::StringTable)
    } else if raw == 4 {
        Some(Type::Rela)
    } else if raw == 5 {
        Some(Type::HashTable)
    } else if raw == 6 {
        Some(Type::Dynamic)
    } else if raw == 7 {
        Some(Type::Notes)
    } else if raw == 8 {
        Some(Type::NoBits)
    } else if raw == 9 {
        Some(Type::Rel)
    } else if raw == 10 {
        Some(Type::Shlib)
    } else if raw == 11 {
        Some(Type::DynSymTable)
    } else if raw == 14 {
        Some(Type::InitArray)
    } else if raw == 15 {
        Some(Type::FiniArray)
    } else if raw == 16 {
        Some(Type::PreInitArray)
    } else if raw == 17 {
        Some(Type::Group)
    } else if raw == 18 {
        Some(Type::SymbolTableShIndex)
    } else if SHT_LOOS <= raw <= SHT_HIOS {
        Some(Type::OsSpecific(raw))
    } else if SHT_LOPROC <= raw <= SHT_HIPROC {
        Some(Type::ProcessorSpecific(raw))
    } else if SHT_LOUSER <= raw {
        Some(Type::User(raw))
    } else {
        None
    }
}

/// The stored section types follow the ELF numbering: 0 is `SHT_NULL`,
/// 1 `SHT_PROGBITS`, 2 `SHT_SYMTAB`, 3 `SHT_STRTAB`, 4 `SHT_RELA`, 5
/// `SHT_HASH`, 6 `SHT_DYNAMIC`, 7 `SHT_NOTE`, 8 `SHT_NOBITS`, 9 `SHT_REL`, 10
/// `SHT_SHLIB`, 11 `SHT_DYNSYM`, 14 `SHT_INIT_ARRAY`, 15 `SHT_FINI_ARRAY`, 16
/// `SHT_PREINIT_ARRAY`, 17 `SHT_GROUP`, 18 `SHT_SYMTAB_SHNDX`; 12, 13 and the
/// values up to the operating-system range name no type, and the three
/// reserved ranges keep the stored value.
pub proof fn lemma_section_type_numbering(raw: u32)
    ensures
        section_type(0) == Some(Type::Null),
        section_type(1) == Some(Type::ProgramBits),
        section_type(2) == Some(Type::SymbolTable),
        section_type(3) == Some(Type::StringTable),
        section_type(4) == Some(Type::Rela),
        section_type(5) == Some(Type::HashTable),
        section_type(6) == Some(Type::Dynamic),
        section_type(7) == Some(Type::Notes),
        section_type(8) == Some(Type::NoBits),
        section_type(9) == Some(Type::Rel),
        section_type(10) == Some(Type::Shlib),
        section_type(11) == Some(Type::DynSymTable),
        section_type(12) is None,
        section_type(13) is None,
        section_type(14) == Some(Type::InitArray),
        section_type(15) == Some(Type::FiniArray),
        section_type(16) == Some(Type::PreInitArray),
        section_type(17) == Some(Type::Group),
        section_type(18) == Some(Type::SymbolTableShIndex),
        19 <= raw < 0x60000000 ==> section_type(raw) is None,
        0x60000000 <= raw <= 0x6fffffff ==> section_type(raw) == Some(Type::OsSpecific(raw)),
        0x70000000 <= raw <= 0x7fffffff ==> section_type(raw) == Some(
            Type::ProcessorSpecific(raw),
        ),
        0x80000000 <= raw ==> section_type(raw) == Some(Type::User(raw)),
{
}

/// Distinct stored values never decode to the same section type: the
/// decoding loses nothing.
pub proof fn lemma_section_type_injective(a: u32, b: u32)
    requires
        section_type(a) is Some,
        section_type(a) == section_type(b),
    ensures
        a == b,
{
}

impl TypeRepr {
    /// The section type the stored field means; an error for a value that
    /// names no type.
    pub fn as_type(&self) -> (r: ElfResult<Type>)
        ensures
            section_type(self.0) matches Some(t) ==> r == Ok::<Type, &'static str>(t),
            section_type(self.0) is None ==> r == Err::<Type, &'static str>(
                "Invalid section type!",
            ),
    {
        match self.0 {
            0 => Ok(Type::Null),
            1 => Ok(Type::ProgramBits),
            2 => Ok(Type::SymbolTable),
            3 => Ok(Type::StringTable),
            4 => Ok(Type::Rela),
            5 => Ok(Type::HashTable),
            6 => Ok(Type::Dynamic),
            7 => Ok(Type::Notes),
            8 => Ok(Type::NoBits),
            9 => Ok(Type::Rel),
            10 => Ok(Type::Shlib),
            11 => Ok(Type::DynSymTable),
            14 => Ok(Type::InitArray),
            15 => Ok(Type::FiniArray),
            16 => Ok(Type::PreInitArray),
            17 => Ok(Type::Group),
            18 => Ok(Type::SymbolTableShIndex),
            x => {
                if SHT_LOOS <= x && x <= SHT_HIOS {
                    Ok(Type::OsSpecific(x))
                } else if SHT_LOPROC <= x && x <= SHT_HIPROC {
                    Ok(Type::ProcessorSpecific(x))
                } else if SHT_LOUSER <= x {
                    Ok(Type::User(x))
                } else {
                    Err("Invalid section type!")
                }
            },
        }
    }
}

/// A 64-bit section header.
#[derive(Clone, Copy, PartialEq, Eq, Structural, Debug)]
pub struct HeaderRepr {
    /// Where the section's name starts in the section name string table.
    pub name_offset: u32,
    /// The section's type.
    pub ty: TypeRepr,
    pub flags: Flags,
    /// The address of the section's first byte in memory.
    pub address: u64,
    /// Where the section starts in the file.
    pub offset: u64,
    /// The section's size in bytes.
    pub length: u64,
    pub link: u32,
    pub info: u32,
    pub address_align: u64,
    pub entry_length: u64,
}

impl HeaderRepr {
    /// The section's type, or an error if the stored type names none.
    pub fn get_type(&self) -> (r: ElfResult<Type>)
        ensures
            section_type(self.ty.0) matches Some(t) ==> r == Ok::<Type, &'static str>(t),
            section_type(self.ty.0) is None ==> r is Err,
    {
        self.ty.as_type()
    }

    /// The address just past the section's last byte.
    pub fn end_address(&self) -> (r: u64)
        requires
            self.address + self.length <= u64::MAX,
        ensures
            r == self.address + self.length,
    {
        self.address + self.length
    }

    /// Whether the section is writable.
    pub fn is_writable(&self) -> (r: bool)
        ensures
            r == (self.flags.bits & SHF_WRITE == SHF_WRITE),
    {
        self.flags.contains(SHF_WRITE)
    }

    /// Whether the section occupies memory at run time.
    pub fn is_allocated(&self) -> (r: bool)
        ensures
            r == (self.flags.bits & SHF_ALLOC == SHF_ALLOC),
    {
        self.flags.contains(SHF_ALLOC)
    }

    /// Whether the section holds executable instructions.
    pub fn is_executable(&self) -> (r: bool)
        ensures
            r == (self.flags.bits & SHF_EXECINSTR == SHF_EXECINSTR),
    {
        self.flags.contains(SHF_EXECINSTR)
    }

    /// Whether the section's data may be merged.
    pub fn is_mergeable(&self) -> (r: bool)
        ensures
            r == (self.flags.bits & SHF_MERGE == SHF_MERGE),
    {
        self.flags.contains(SHF_MERGE)
    }

    /// Whether the section's data may be merged and is not strings.
    pub fn is_uniform(&self) -> (r: bool)
        ensures
            r == (self.flags.bits & SHF_MERGE == SHF_MERGE && !(self.flags.bits & SHF_STRINGS
                == SHF_STRINGS)),
    {
        self.flags.contains(SHF_MERGE) && !self.flags.contains(SHF_STRINGS)
    }
}

/// The index of the first section header from `pos` on, before `end`, whose
/// type is not null; `end` if there is none.
pub open spec fn next_non_null(headers: Seq<HeaderRepr>, pos: int, end: int) -> int
    decreases end - pos,
{
    if pos >= end {
        end
    } else if headers[pos].ty.0 != 0 {
        pos
    } else {
        next_non_null(headers, pos + 1, end)
    }
}

/// The walk stops at the first header of a type other than null: every
/// header it passes over has the null type, and the one it stops at, if any,
/// does not.
pub proof fn lemma_next_non_null_skips_null(headers: Seq<HeaderRepr>, pos: int, end: int)
    requires
        pos <= end,
    ensures
        pos <= next_non_null(headers, pos, end) <= end,
        next_non_null(headers, pos, end) < end ==> headers[next_non_null(
            headers,
            pos,
            end,
        )].ty.0 != 0 && section_type(headers[next_non_null(headers, pos, end)].ty.0) != Some(
            Type::Null,
        ),
        forall|j: int|
            pos <= j < next_non_null(headers, pos, end) ==> (#[trigger] headers[j]).ty.0 == 0
                && section_type(headers[j].ty.0) == Some(Type::Null),
    decreases end - pos,
{
    if pos < end && headers[pos].ty.0 == 0 {
        lemma_next_non_null_skips_null(headers, pos + 1, end);
    }
}

/// An iterator over the section headers of a section header table, which
/// skips those of null type.
pub struct Sections<'a> {
    headers: &'a [HeaderRepr],
    pos: usize,
    remaining: u32,
}

impl<'a> Sections<'a> {
    /// The table being walked.
    pub closed spec fn table(&self) -> Seq<HeaderRepr> {
        self.headers@
    }

    /// The index of the next header to look at.
    pub closed spec fn position(&self) -> int {
        self.pos as int
    }

    /// The number of headers left to look at.
    pub closed spec fn left(&self) -> int {
        self.remaining as int
    }

    /// Walks `remaining` headers of `headers` from the first.
    pub fn new(headers: &'a [HeaderRepr], remaining: u32) -> (r: Self)
        ensures
            r.table() == headers@,
            r.position() == 0,
            r.left() == remaining,
    {
        Sections { headers, pos: 0, remaining }
    }

    /// The next header whose type is not null, if any is left.
    ///
    /// Every header looked at must have a valid type, and those left must
    /// lie within the table.
    pub fn next(&mut self) -> (r: Option<&'a HeaderRepr>)
        requires
            old(self).position() + old(self).left() <= old(self).table().len(),
            forall|j: int|
                old(self).position() <= j <= next_non_null(
                    old(self).table(),
                    old(self).position(),
                    old(self).position() + old(self).left(),
                ) && j < old(self).position() + old(self).left() ==> section_type(
                    (#[trigger] old(self).table()[j]).ty.0,
                ) is Some,
        ensures
            ({
                let end = old(self).position() + old(self).left();
                let k = next_non_null(old(self).table(), old(self).position(), end);
                &&& final(self).table() == old(self).table()
                &&& k == end ==> r is None && final(self).position() == end && final(self).left() == 0
                &&& k < end ==> r == Some(&old(self).table()[k]) && final(self).position()
                    == k + 1 && final(self).left() == end - (k + 1)
            }),
            r matches Some(h) ==> h.ty.0 != 0,
        decreases old(self).left(),
    {
        if self.remaining == 0 {
            None
        } else {
            let current = &self.headers[self.pos];
            self.pos = self.pos + 1;
            self.remaining = self.remaining - 1;
            let ty = current.get_type();
            match ty {
                Ok(Type::Null) => self.next(),
                _ => Some(current),
            }
        }
    }
}

/// Whether `c` is the null character.
pub fn is_null(c: &u8) -> (r: bool)
    ensures
        r == (*c == 0),
{
    *c == 0
}

/// The bytes before the first null byte, or `None` if there is no null
/// byte.
pub fn read_to_null<'a>(bytes: &'a [u8]) -> (r: Option<&'a [u8]>)
    ensures
        r is None <==> forall|j: int| 0 <= j < bytes@.len() ==> bytes@[j] != 0,
        r matches Some(s) ==> ({
            &&& s@.len() < bytes@.len()
            &&& bytes@[s@.len() as int] == 0
            &&& s@ == bytes@.subrange(0, s@.len() as int)
            &&& forall|j: int| 0 <= j < s@.len() ==> bytes@[j] != 0
        }),
{
    let mut i: usize = 0;
    while i < bytes.len()
        invariant
            i <= bytes@.len(),
            forall|j: int| 0 <= j < i ==> bytes@[j] != 0,
        decreases bytes@.len() - i,
    {
        if is_null(&bytes[i]) {
            return Some(&bytes[0..i]);
        }
        i = i + 1;
    }
    None
}

/// A string table: null-terminated strings, one after another.
#[derive(Clone, Copy, Debug)]
pub struct StrTable<'a>(pub &'a [u8]);

impl<'a> StrTable<'a> {
    /// The string table over `binary`.
    pub fn from(binary: &'a [u8]) -> (r: Self)
        ensures
            r.0@ == binary@,
    {
        StrTable(binary)
    }

    /// The string that starts at index `i`, without its null terminator, or
    /// `None` if `i` is past the end or no null byte follows it.
    pub fn at_index(&self, i: usize) -> (r: Option<&'a [u8]>)
        ensures
            i > self.0@.len() ==> r is None,
            i <= self.0@.len() ==> ({
                let rest = self.0@.subrange(i as int, self.0@.len() as int);
                &&& r is None <==> forall|j: int| 0 <= j < rest.len() ==> rest[j] != 0
                &&& r matches Some(s) ==> s@.len() < rest.len() && rest[s@.len() as int] == 0
                    && s@ == rest.subrange(0, s@.len() as int) && forall|j: int|
                    0 <= j < s@.len() ==> rest[j] != 0
            }),
    {
        let bytes = self.0;
        if i <= bytes.len() {
            read_to_null(&bytes[i..bytes.len()])
        } else {
            None
        }
    }

    /// An iterator over the table's strings.
    pub fn strings(&self) -> (r: Strings<'a>)
        ensures
            r.0@ == self.0@,
    {
        Strings(self.0)
    }
}

/// An iterator over null-terminated strings.
#[derive(Clone, Copy, Debug)]
pub struct Strings<'a>(pub &'a [u8]);

impl<'a> Strings<'a> {
    /// Bounds on the number of strings left: none at least, and at most one
    /// per byte left (each string takes its terminator at least).
    pub fn size_hint(&self) -> (r: (usize, Option<usize>))
        ensures
            r == (0usize, Some(self.0@.len() as usize)),
    {
        (0, Some(self.0.len()))
    }

    /// The next string, without its terminator; the bytes left are those
    /// after the terminator. `None`, leaving the bytes as they are, when
    /// none are left or no null byte is left.
    pub fn next(&mut self) -> (r: Option<&'a [u8]>)
        ensures
            (old(self).0@.len() == 0 || forall|j: int|
                0 <= j < old(self).0@.len() ==> old(self).0@[j] != 0) ==> r is None && final(self).0@ == old(self).0@,
            r matches Some(s) ==> ({
                &&& s@.len() < old(self).0@.len()
                &&& old(self).0@[s@.len() as int] == 0
                &&& s@ == old(self).0@.subrange(0, s@.len() as int)
                &&& forall|j: int| 0 <= j < s@.len() ==> old(self).0@[j] != 0
                &&& final(self).0@ == old(self).0@.subrange(
                    s@.len() + 1int,
                    old(self).0@.len() as int,
                )
            }),
            (old(self).0@.len() > 0 && exists|j: int|
                0 <= j < old(self).0@.len() && old(self).0@[j] == 0) ==> r is Some,
    {
        let bytes = self.0;
        if bytes.len() == 0 {
            None
        } else {
            match read_to_null(bytes) {
                Some(s) => {
                    let n = s.len();
                    self.0 = &bytes[n + 1..bytes.len()];
                    Some(s)
                },
                None => None,
            }
        }
    }
}

} // verus!
