//! The ELF file header.
use vstd::prelude::*;
use core::ops::Range;
use super::ElfResult;

verus! {

/// The four bytes an ELF file starts with.
pub const MAGIC: [u8; 4] = [0x7f, 0x45, 0x4c, 0x46];

/// The ELF file class: whether the file holds 32- or 64-bit objects.
#[derive(Clone, Copy, PartialEq, Eq, Structural, Debug)]
pub enum Class {
    /// Invalid class (`ELFCLASSNONE`).
    ClassNone,
    /// 32-bit objects (`ELFCLASS32`).
    Elf32,
    /// 64-bit objects (`ELFCLASS64`).
    Elf64,
}

impl Class {
    /// Whether the class is a valid one.
    pub fn is_valid(&self) -> (r: bool)
        ensures
            r == !(*self is ClassNone),
    {
        match self {
            Class::ClassNone => false,
            _ => true,
        }
    }

    /// Whether 64-bit structures can be read from a file of this class.
    pub fn check_u64(&self) -> (r: ElfResult<()>)
        ensures
            *self is Elf64 <==> r is Ok,
            *self is ClassNone ==> r == Err::<(), &'static str>("Invalid ELF type ELFCLASSNONE!"),
            *self is Elf32 ==> r == Err::<(), &'static str>(
                "Cannot extract 64-bit section from 32-bit ELF",
            ),
    {
        match self {
            Class::ClassNone => Err("Invalid ELF type ELFCLASSNONE!"),
            Class::Elf32 => Err("Cannot extract 64-bit section from 32-bit ELF"),
            Class::Elf64 => Ok(()),
        }
    }

    /// Whether 32-bit structures can be read from a file of this class.
    pub fn check_u32(&self) -> (r: ElfResult<()>)
        ensures
            *self is Elf32 <==> r is Ok,
            *self is ClassNone ==> r == Err::<(), &'static str>("Invalid ELF type ELFCLASSNONE!"),
            *self is Elf64 ==> r == Err::<(), &'static str>(
                "Cannot extract 32-bit section from 64-bit ELF",
            ),
    {
        match self {
            Class::ClassNone => Err("Invalid ELF type ELFCLASSNONE!"),
            Class::Elf64 => Err("Cannot extract 32-bit section from 64-bit ELF"),
            Class::Elf32 => Ok(()),
        }
    }
}

/// The ELF data encoding: the byte order of the file's data.
#[derive(Clone, Copy, PartialEq, Eq, Structural, Debug)]
pub enum DataEncoding {
    /// Invalid encoding.
    EncodingNone,
    /// Two's complement, little-endian.
    LittleEndian,
    /// Two's complement, big-endian.
    BigEndian,
}

impl DataEncoding {
    /// Whether the encoding is a valid one.
    pub fn is_valid(&self) -> (r: bool)
        ensures
            r == !(*self is EncodingNone),
    {
        match self {
            DataEncoding::EncodingNone => false,
            _ => true,
        }
    }
}

/// The operating system ABI a file was compiled for.
#[derive(Clone, Copy, PartialEq, Eq, Structural, Debug)]
pub enum OsAbi {
    SystemV,
    HpUx,
    NetBsd,
    Linux,
    Solaris,
    Aix,
    Irix,
    FreeBsd,
    OpenBsd,
    OpenVms,
}

/// The ELF version.
#[derive(Clone, Copy, PartialEq, Eq, Structural, Debug)]
pub enum Version {
    VersionNone,
    Current,
}

/// The ELF identification: magic number, class, encoding, version and ABI.
#[derive(Clone, Copy, Debug)]
pub struct Ident {
    pub magic: [u8; 4],
    /// The file class (32- or 64-bit).
    pub class: Class,
    /// The data encoding (big- or little-endian).
    pub encoding: DataEncoding,
    /// The file version.
    pub version: Version,
    /// The operating system ABI.
    pub abi: OsAbi,
    /// The ABI version.
    pub abi_version: u8,
}

impl Ident {
    /// Whether the magic number is that of an ELF file.
    pub fn check_magic(&self) -> (r: bool)
        ensures
            r == (self.magic@ == MAGIC@),
    {
        let ok = self.magic[0] == 0x7f && self.magic[1] == 0x45 && self.magic[2] == 0x4c
            && self.magic[3] == 0x46;
        proof {
            if ok {
                assert(self.magic@ =~= MAGIC@);
            }
        }
        ok
    }

    /// Whether the magic number, the class and the encoding are all valid.
    pub fn is_valid(&self) -> (r: bool)
        ensures
            r == (self.magic@ == MAGIC@ && !(self.class is ClassNone) && !(self.encoding is EncodingNone)),
    {
        self.check_magic() && self.class.is_valid() && self.encoding.is_valid()
    }
}

/// The type of an ELF file.
#[derive(Clone, Copy, PartialEq, Eq, Structural, Debug)]
pub enum Type {
    TypeNone,
    Relocatable,
    Executable,
    SharedObject,
    Core,
    Other(u16),
}

/// The type field of a file header, as stored.
#[derive(Clone, Copy, PartialEq, Eq, Structural, Debug)]
pub struct TypeRepr(pub u16);

/// The file type that a stored type field means.
pub open spec fn file_type(raw: u16) -> Type {
    if raw == 0 {
        Type::TypeNone
    } else if raw == 1 {
        Type::Relocatable
    } else if raw == 2 {
        Type::Executable
    } else if raw == 3 {
        Type::SharedObject
    } else if raw == 4 {
        Type::Core
    } else {
        Type::Other(raw)
    }
}

/// The stored file types follow the ELF numbering: 0 is `ET_NONE`, 1
/// `ET_REL`, 2 `ET_EXEC`, 3 `ET_DYN`, 4 `ET_CORE`, and any other value is kept
/// as it stands.
pub proof fn lemma_file_type_numbering(raw: u16)
    ensures
        file_type(0) == Type::TypeNone,
        file_type(1) == Type::Relocatable,
        file_type(2) == Type::Executable,
        file_type(3) == Type::SharedObject,
        file_type(4) == Type::Core,
        raw > 4 ==> file_type(raw) == Type::Other(raw),
{
}

/// Distinct stored values decode to distinct file types.
pub proof fn lemma_file_type_injective(a: u16, b: u16)
    requires
        file_type(a) == file_type(b),
    ensures
        a == b,
{
}

impl TypeRepr {
    /// The file type the stored field means.
    pub fn as_type(&self) -> (r: Type)
        ensures
            r == file_type(self.0),
    {
        match self.0 {
            0 => Type::TypeNone,
            1 => Type::Relocatable,
            2 => Type::Executable,
            3 => Type::SharedObject,
            4 => Type::Core,
            anything => Type::Other(anything),
        }
    }
}

/// The machine architecture a file is for.
#[derive(Clone, Copy, PartialEq, Eq, Structural, Debug)]
pub enum Machine {
    MachineNone,
    Sparc,
    X86,
    Mips,
    PowerPc,
    Arm,
    SuperH,
    Ia64,
    X86_64,
    AArch64,
}

/// A 64-bit ELF file header.
#[derive(Clone, Copy, Debug)]
pub struct HeaderRepr {
    pub ident: Ident,
    pub elftype: TypeRepr,
    pub machine: Machine,
    /// The program entry point.
    pub entry_point: u64,
    /// Where the program headers start in the file.
    pub ph_offset: u64,
    /// Where the section headers start in the file.
    pub sh_offset: u64,
    pub flags: u32,
    pub header_size: u16,
    pub ph_entry_size: u16,
    pub ph_count: u16,
    pub sh_entry_size: u16,
    pub sh_count: u16,
    /// The index of the section header string table.
    pub sh_str_idx: u16,
}

/// The byte range `start .. start + size * count`.
pub open spec fn table_range(start: int, size: int, count: int) -> (int, int) {
    (start, start + size * count)
}

impl HeaderRepr {
    /// The file type.
    pub fn get_type(&self) -> (r: Type)
        ensures
            r == file_type(self.elftype.0),
    {
        self.elftype.as_type()
    }

    /// Where the section headers start.
    pub fn sh_offset(&self) -> (r: usize)
        requires
            self.sh_offset <= usize::MAX,
        ensures
            r == self.sh_offset,
    {
        self.sh_offset as usize
    }

    /// Where the program headers start.
    pub fn ph_offset(&self) -> (r: usize)
        requires
            self.ph_offset <= usize::MAX,
        ensures
            r == self.ph_offset,
    {
        self.ph_offset as usize
    }

    /// The program entry point.
    pub fn entry_point(&self) -> (r: usize)
        requires
            self.entry_point <= usize::MAX,
        ensures
            r == self.entry_point,
    {
        self.entry_point as usize
    }

    /// The index of the section header string table.
    pub fn sh_str_idx(&self) -> (r: usize)
        ensures
            r == self.sh_str_idx,
    {
        self.sh_str_idx as usize
    }

    /// The bytes that the section header table takes up.
    pub fn sh_range(&self) -> (r: Range<usize>)
        requires
            self.sh_offset + self.sh_entry_size * self.sh_count <= usize::MAX,
        ensures
            (r.start as int, r.end as int) == table_range(
                self.sh_offset as int,
                self.sh_entry_size as int,
                self.sh_count as int,
            ),
    {
        let start = self.sh_offset as usize;
        let size = self.sh_entry_size as usize;
        let count = self.sh_count as usize;
        assert(size * count <= 0xffff * 0xffff) by (nonlinear_arith)
            requires
                size <= 0xffff,
                count <= 0xffff,
        ;
        start..start + size * count
    }

    /// The bytes that the program header table takes up.
    pub fn ph_range(&self) -> (r: Range<usize>)
        requires
            self.ph_offset + self.ph_entry_size * self.ph_count <= usize::MAX,
        ensures
            (r.start as int, r.end as int) == table_range(
                self.ph_offset as int,
                self.ph_entry_size as int,
                self.ph_count as int,
            ),
    {
        let start = self.ph_offset as usize;
        let size = self.ph_entry_size as usize;
        let count = self.ph_count as usize;
        assert(size * count <= 0xffff * 0xffff) by (nonlinear_arith)
            requires
                size <= 0xffff,
                count <= 0xffff,
        ;
        start..start + size * count
    }

    /// The bytes of section header `idx`.
    pub fn section_index(&self, idx: usize) -> (r: Range<usize>)
        requires
            self.sh_offset + idx * self.sh_entry_size + self.sh_entry_size <= usize::MAX,
        ensures
            r.start == self.sh_offset + idx * self.sh_entry_size,
            r.end == r.start + self.sh_entry_size,
    {
        let size = self.sh_entry_size as usize;
        proof {
            assert(0 <= idx * size) by (nonlinear_arith);
        }
        let start = self.sh_offset as usize + idx * size;
        start..start + size
    }

    /// The bytes of program header `idx`.
    pub fn program_header_index(&self, idx: usize) -> (r: Range<usize>)
        requires
            self.ph_offset + idx * self.ph_entry_size + self.ph_entry_size <= usize::MAX,
        ensures
            r.start == self.ph_offset + idx * self.ph_entry_size,
            r.end == r.start + self.ph_entry_size,
    {
        let size = self.ph_entry_size as usize;
        proof {
            assert(0 <= idx * size) by (nonlinear_arith);
        }
        let start = self.ph_offset as usize + idx * size;
        start..start + size
    }
}

} // verus!
