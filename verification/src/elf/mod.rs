//! ELF binaries: the file header, section headers and string tables.
use vstd::prelude::*;

pub mod file;
pub mod section;

use self::section::StrTable;

verus! {

/// The result of an ELF operation; the error says what went wrong.
pub type ElfResult<T> = Result<T, &'static str>;

/// The word sizes an ELF file can have: 32 or 64 bits.
pub trait ElfWord: Sized + Copy {
}

impl ElfWord for u64 {
}

impl ElfWord for u32 {
}

/// An ELF binary: its file header, its section headers and its bytes.
pub struct Image<'a> {
    pub header: file::HeaderRepr,
    /// The section headers.
    pub sections: &'a [section::HeaderRepr],
    /// The binary's bytes.
    pub binary: &'a [u8],
}

impl<'a> Image<'a> {
    /// The string table that starts at the header's string table index.
    pub fn sh_str_table(&self) -> (r: StrTable<'a>)
        requires
            self.header.sh_str_idx <= self.binary@.len(),
        ensures
            r.0@ == self.binary@.subrange(self.header.sh_str_idx as int, self.binary@.len() as int),
    {
        let idx = self.header.sh_str_idx();
        StrTable::from(&self.binary[idx..self.binary.len()])
    }
}

} // verus!
