//! The values the boot code writes: page table entries that identity-map
//! the first gigabyte with huge pages, the 64-bit global descriptor table,
//! and the characters it shows on the VGA text buffer.
use vstd::prelude::*;

verus! {

/// The number of entries in a page table.
pub const TABLE_LENGTH: usize = 512;
/// The size of a huge page (2 MiB).
pub const HUGE_PAGE_SIZE: u64 = 0x20_0000;
/// Present and writable.
pub const ENTRY_FLAGS_PW: u64 = 0b11;
/// Present, writable and huge.
pub const ENTRY_FLAGS_HUGE: u64 = 0b1000_0011;
/// The value a Multiboot 2 boot loader leaves in `eax`.
pub const MULTIBOOT_MAGIC: usize = 0x36d76289;
/// The 64-bit code segment descriptor: bits 41 (readable), 43
/// (executable), 44 (code or data), 47 (present) and 53 (long mode).
pub const GDT_CODE: u64 = 0x0020_9a00_0000_0000;

/// A page table entry.
#[derive(Clone, Copy, PartialEq, Eq, Structural, Debug)]
pub struct TableEntry(pub u64);

impl TableEntry {
    /// Points the entry at the table at `to`, present and writable.
    pub fn map_to_table(&mut self, to: u64)
        ensures
            final(self).0 == to | ENTRY_FLAGS_PW,
    {
        *self = TableEntry(to | ENTRY_FLAGS_PW);
    }

    /// Points the entry at huge page `number`, present and writable.
    pub fn map_to_page(&mut self, number: usize)
        requires
            number * HUGE_PAGE_SIZE <= u64::MAX,
        ensures
            final(self).0 == (number * HUGE_PAGE_SIZE) as u64 | ENTRY_FLAGS_HUGE,
    {
        let addr = number as u64 * HUGE_PAGE_SIZE;
        *self = TableEntry(addr | ENTRY_FLAGS_HUGE);
    }
}

/// The page directory that identity-maps the first gigabyte: entry `i`
/// maps huge page `i`.
pub fn identity_map_directory() -> (r: Vec<TableEntry>)
    ensures
        r@.len() == TABLE_LENGTH,
        forall|i: int|
            0 <= i < TABLE_LENGTH ==> (#[trigger] r@[i]).0 == (i * HUGE_PAGE_SIZE) as u64
                | ENTRY_FLAGS_HUGE,
{
    let mut v: Vec<TableEntry> = Vec::new();
    let mut i: usize = 0;
    while i < TABLE_LENGTH
        invariant
            i <= TABLE_LENGTH,
            v@.len() == i,
            forall|j: int|
                0 <= j < i ==> (#[trigger] v@[j]).0 == (j * HUGE_PAGE_SIZE) as u64
                    | ENTRY_FLAGS_HUGE,
        decreases TABLE_LENGTH - i,
    {
        let mut e = TableEntry(0);
        e.map_to_page(i);
        v.push(e);
        i = i + 1;
    }
    v
}

/// Whether the value left in `eax` says a Multiboot 2 boot loader started
/// the kernel.
pub fn is_multiboot_supported(eax: usize) -> (r: bool)
    ensures
        r == (eax == MULTIBOOT_MAGIC),
{
    eax == MULTIBOOT_MAGIC
}

/// The VGA text cells that show `s` in green on black.
pub fn boot_cells(s: &[u8]) -> (r: Vec<u16>)
    ensures
        r@.len() == s@.len(),
        forall|i: int| 0 <= i < s@.len() ==> r@[i] == 0x0200 + s@[i],
{
    let mut v: Vec<u16> = Vec::new();
    let mut i: usize = 0;
    while i < s.len()
        invariant
            i <= s@.len(),
            v@.len() == i,
            forall|j: int| 0 <= j < i ==> v@[j] == 0x0200 + s@[j],
        decreases s@.len() - i,
    {
        v.push(0x0200u16 + s[i] as u16);
        i = i + 1;
    }
    v
}

/// The 64-bit global descriptor table: the null descriptor and one code
/// segment.
#[derive(Clone, Copy, PartialEq, Eq, Structural, Debug)]
pub struct Gdt {
    pub null: u64,
    pub code: u64,
}

/// The size of the global descriptor table in bytes.
pub const GDT_SIZE: u16 = 16;

impl Gdt {
    /// The table the kernel boots with.
    pub fn boot() -> (r: Gdt)
        ensures
            r.null == 0,
            r.code == GDT_CODE,
    {
        Gdt { null: 0, code: GDT_CODE }
    }
}

/// What `lgdt` loads: the table's last byte offset and its address.
#[derive(Clone, Copy, PartialEq, Eq, Structural, Debug)]
pub struct GdtPointer {
    /// The size of the table minus one.
    pub limit: u16,
    /// The table's address.
    pub base: u64,
}

impl GdtPointer {
    /// The pointer to a global descriptor table at `base`.
    pub fn from(base: u64) -> (r: GdtPointer)
        ensures
            r.limit == GDT_SIZE - 1,
            r.base == base,
    {
        GdtPointer { limit: GDT_SIZE - 1, base }
    }
}

} // verus!
