//! The four-level `x86_64` page tables, as a set of tables each stored in a
//! physical frame, and the walk that translates a virtual page to the frame
//! it maps to.
//!
//! A table is 512 entries. An entry is present when its bit 0 is set; its
//! bits 12 to 51 hold a frame number. In the page directory pointer table
//! and the page directory, an entry with bit 7 set maps a huge page (1 GiB
//! or 2 MiB) that starts at that frame instead of pointing to a table.
//!
//! The kernel's remapping is planned here as the list of frames to map to
//! themselves, each with the flags of its entry.
use vstd::prelude::*;
use crate::memory::{PAddr, PhysicalPage, VAddr, VirtualPage};
use crate::multiboot::elf64::Section;
use crate::allocator::frame::Allocator as FrameAllocator;
use crate::stack::StackPages;

verus! {

/// The number of entries in a table.
pub const ENTRIES: usize = 512;

/// An entry that maps something.
pub const PRESENT: u64 = 1;

/// An entry whose page may be written.
pub const WRITABLE: u64 = 2;

/// An entry that maps a huge page.
pub const HUGE_PAGE: u64 = 0x80;

/// An entry whose page may not hold code.
pub const NO_EXECUTE: u64 = 0x8000_0000_0000_0000;

/// Whether the entry is present.
pub open spec fn entry_present(e: u64) -> bool {
    e % 2 == 1
}

/// Whether the entry maps a huge page.
pub open spec fn entry_huge(e: u64) -> bool {
    (e / 0x80) % 2 == 1
}

/// The frame number an entry holds.
pub open spec fn entry_frame(e: u64) -> nat {
    ((e / 4096) % 0x100_0000_0000) as nat
}

/// The index of a page in its table at a level: level 4 is the top table
/// (the PML4), level 1 the page table.
pub open spec fn level_index(page: nat, level: nat) -> nat {
    if level == 4 {
        (page / 0x800_0000) % 512
    } else if level == 3 {
        (page / 0x4_0000) % 512
    } else if level == 2 {
        (page / 0x200) % 512
    } else {
        page % 512
    }
}

/// One page table: the frame it is stored in and its entries.
pub struct Table {
    pub frame: u64,
    pub entries: Vec<u64>,
}

/// The page tables: the frame of the top table, and the tables there are.
pub struct PageTables {
    pub root: u64,
    pub tables: Vec<Table>,
}

/// The position of the first table from `i` on that is stored in `frame`,
/// or the number of tables if none is.
pub open spec fn table_position(tables: Seq<(u64, Seq<u64>)>, frame: nat, i: int) -> int
    decreases tables.len() - i,
{
    if i < 0 || i >= tables.len() {
        tables.len() as int
    } else if tables[i].0 == frame {
        i
    } else {
        table_position(tables, frame, i + 1)
    }
}

/// The entry at `index` in the table stored in `frame`, if there is such a
/// table and it has 512 entries.
pub open spec fn table_entry(tables: Seq<(u64, Seq<u64>)>, frame: nat, index: nat) -> Option<u64> {
    let p = table_position(tables, frame, 0);
    if p < tables.len() && tables[p].1.len() == 512 && index < 512 {
        Some(tables[p].1[index as int])
    } else {
        None
    }
}

/// The frame that page `page` maps to: the walk from the top table down,
/// through present entries, to a present page table entry or a present
/// huge page entry.
#[verifier::opaque]
pub open spec fn walk(root: u64, tables: Seq<(u64, Seq<u64>)>, page: nat) -> Option<nat> {
    match table_entry(tables, root as nat, level_index(page, 4)) {
        Some(e4) if entry_present(e4) => {
            match table_entry(tables, entry_frame(e4), level_index(page, 3)) {
                Some(e3) if entry_present(e3) => {
                    if entry_huge(e3) {
                        Some(entry_frame(e3) + level_index(page, 2) * 512 + level_index(page, 1))
                    } else {
                        match table_entry(tables, entry_frame(e3), level_index(page, 2)) {
                            Some(e2) if entry_present(e2) => {
                                if entry_huge(e2) {
                                    Some(entry_frame(e2) + level_index(page, 1))
                                } else {
                                    match table_entry(
                                        tables,
                                        entry_frame(e2),
                                        level_index(page, 1),
                                    ) {
                                        Some(e1) if entry_present(e1) => Some(entry_frame(e1)),
                                        _ => None,
                                    }
                                }
                            },
                            _ => None,
                        }
                    }
                },
                _ => None,
            }
        },
        _ => None,
    }
}

/// The frame of the page table on the way to page `page`: every entry on
/// the way is present and has no huge page bit, the way passes through no
/// table twice, and the page table is there with its 512 entries.
pub open spec fn page_table_of(root: u64, tables: Seq<(u64, Seq<u64>)>, page: nat) -> Option<nat> {
    match table_entry(tables, root as nat, level_index(page, 4)) {
        Some(e4) if entry_present(e4) && !entry_huge(e4) => {
            let t3 = entry_frame(e4);
            match table_entry(tables, t3, level_index(page, 3)) {
                Some(e3) if entry_present(e3) && !entry_huge(e3) => {
                    let t2 = entry_frame(e3);
                    match table_entry(tables, t2, level_index(page, 2)) {
                        Some(e2) if entry_present(e2) && !entry_huge(e2) => {
                            let t1 = entry_frame(e2);
                            if t3 != root && t2 != root && t2 != t3 && t1 != root && t1 != t3 && t1
                                != t2 && table_entry(tables, t1, level_index(page, 1)) is Some {
                                Some(t1)
                            } else {
                                None
                            }
                        },
                        _ => None,
                    }
                },
                _ => None,
            }
        },
        _ => None,
    }
}

/// The page table entry for page `page`, when the way to its page table
/// is as `page_table_of` asks.
pub open spec fn page_entry(root: u64, tables: Seq<(u64, Seq<u64>)>, page: nat) -> Option<u64> {
    match page_table_of(root, tables, page) {
        Some(t1) => table_entry(tables, t1, level_index(page, 1)),
        None => None,
    }
}

impl View for PageTables {
    type V = (u64, Seq<(u64, Seq<u64>)>);

    /// The top table's frame, and each table's frame and entries.
    open spec fn view(&self) -> (u64, Seq<(u64, Seq<u64>)>) {
        (self.root, Seq::new(self.tables@.len(), |i: int| (self.tables@[i].frame, self.tables@[i].entries@)))
    }
}

impl PageTables {
    /// The entry at `index` in the table stored in frame `frame`, if there
    /// is such a table with 512 entries.
    pub fn entry(&self, frame: u64, index: usize) -> (r: Option<u64>)
        ensures
            r == table_entry(self@.1, frame as nat, index as nat),
    {
        let ghost ts = self@.1;
        let mut i: usize = 0;
        while i < self.tables.len()
            invariant
                i <= self.tables@.len(),
                ts == self@.1,
                table_position(ts, frame as nat, 0) == table_position(ts, frame as nat, i as int),
            decreases self.tables@.len() - i,
        {
            if self.tables[i].frame == frame {
                if self.tables[i].entries.len() == ENTRIES && index < ENTRIES {
                    return Some(self.tables[i].entries[index]);
                }
                return None;
            }
            i = i + 1;
        }
        None
    }

    /// The frame that `page` maps to, by the walk from the top table.
    pub fn translate_page(&self, page: VirtualPage) -> (r: Option<PhysicalPage>)
        ensures
            r == match walk(self@.0, self@.1, page.number as nat) {
                Some(f) => Some(PhysicalPage { number: f as u64 }),
                None => None::<PhysicalPage>,
            },
    {
        proof {
            reveal(walk);
        }
        let n = page.number;
        let i4 = (n / 0x800_0000) % 512;
        let i3 = (n / 0x4_0000) % 512;
        let i2 = (n / 0x200) % 512;
        let i1 = n % 512;
        let e4 = match self.entry(self.root, i4) {
            Some(e) if e % 2 == 1 => e,
            _ => {
                return None;
            },
        };
        let t3 = (e4 / 4096) % 0x100_0000_0000;
        let e3 = match self.entry(t3, i3) {
            Some(e) if e % 2 == 1 => e,
            _ => {
                return None;
            },
        };
        let f3 = (e3 / 4096) % 0x100_0000_0000;
        if (e3 / 0x80) % 2 == 1 {
            return Some(PhysicalPage { number: f3 + (i2 as u64) * 512 + i1 as u64 });
        }
        let e2 = match self.entry(f3, i2) {
            Some(e) if e % 2 == 1 => e,
            _ => {
                return None;
            },
        };
        let f2 = (e2 / 4096) % 0x100_0000_0000;
        if (e2 / 0x80) % 2 == 1 {
            return Some(PhysicalPage { number: f2 + i1 as u64 });
        }
        match self.entry(f2, i1) {
            Some(e) if e % 2 == 1 => Some(PhysicalPage { number: (e / 4096) % 0x100_0000_0000 }),
            _ => None,
        }
    }

    /// The physical address that `vaddr` translates to: the address in the
    /// frame its page maps to, at the same offset.
    pub fn translate(&self, vaddr: VAddr) -> (r: Option<PAddr>)
        ensures
            walk(self@.0, self@.1, (vaddr@ / 4096) as nat) is None ==> r is None,
            walk(self@.0, self@.1, (vaddr@ / 4096) as nat) is Some ==> r is Some && r->0@ == walk(
                self@.0,
                self@.1,
                (vaddr@ / 4096) as nat,
            )->0 * 4096 + vaddr@ % 4096,
    {
        let v = vaddr.as_usize();
        let page = VirtualPage { number: v / 4096 };
        match self.translate_page(page) {
            Some(f) => {
                proof {
                    reveal(walk);
                }
                Some(PAddr::new(f.number * 4096 + (v % 4096) as u64))
            },
            None => None,
        }
    }

    /// Whether `page` is mapped.
    pub fn is_mapped(&self, page: VirtualPage) -> (r: bool)
        ensures
            r == walk(self@.0, self@.1, page.number as nat) is Some,
    {
        self.translate_page(page).is_some()
    }
}

/// The flags of the entries that map a section with ELF flags `f`: present,
/// writable where the section is (flag 1), and not executable where the
/// section holds no code (flag 4).
pub open spec fn section_entry_flags(f: u64) -> u64 {
    (PRESENT + (if f % 2 == 1 { WRITABLE } else { 0 }) + (if (f / 4) % 2 == 1 {
        0
    } else {
        NO_EXECUTE
    })) as u64
}

/// Whether a section takes memory while the kernel runs (ELF flag 2).
pub open spec fn section_allocated(s: Section) -> bool {
    (s.flags / 2) % 2 == 1
}

/// The frames holding a byte of `[start, start + len)`, each with `flags`.
pub open spec fn frames_of(start: nat, len: nat, flags: u64) -> Seq<(PhysicalPage, u64)> {
    if len == 0 {
        Seq::empty()
    } else {
        let first = start / 4096;
        let last = (start + len - 1) / 4096;
        Seq::new(
            (last - first + 1) as nat,
            |i: int| (PhysicalPage { number: (first + i) as u64 }, flags),
        )
    }
}

/// The frames of the allocated sections among `ss`, in order, each with the
/// flags of its section.
pub open spec fn sections_plan(ss: Seq<Section>) -> Seq<(PhysicalPage, u64)>
    decreases ss.len(),
{
    if ss.len() == 0 {
        Seq::empty()
    } else {
        let s = ss.last();
        sections_plan(ss.drop_last()) + if section_allocated(s) {
            frames_of(s.address as nat, s.length as nat, section_entry_flags(s.flags))
        } else {
            Seq::empty()
        }
    }
}

/// The kernel's identity mappings: every frame holding a byte of an
/// allocated section, with that section's flags; the frame of the VGA text
/// buffer, writable; every frame holding a byte of the Multiboot
/// information in `[mb_start, mb_end)`, present.
pub open spec fn remap_plan_spec(ss: Seq<Section>, mb_start: u64, mb_end: u64) -> Seq<
    (PhysicalPage, u64),
> {
    sections_plan(ss) + seq![(PhysicalPage { number: 0xb8 }, WRITABLE)] + frames_of(
        mb_start as nat,
        if mb_end > mb_start {
            (mb_end - mb_start) as nat
        } else {
            0
        },
        PRESENT,
    )
}

/// Whether the remapping can be planned for these sections: each allocated
/// one starts on a page boundary and ends within the address space.
pub open spec fn sections_remappable(ss: Seq<Section>) -> bool {
    forall|i: int|
        0 <= i < ss.len() && section_allocated(#[trigger] ss[i]) ==> ss[i].address % 4096 == 0
            && ss[i].address + ss[i].length <= u64::MAX
}

/// Appends the frames holding a byte of `[start, start + len)`, each with
/// `flags`.
fn push_frames(out: &mut Vec<(PhysicalPage, u64)>, start: u64, len: u64, flags: u64)
    requires
        start + len <= u64::MAX,
    ensures
        final(out)@ == old(out)@ + frames_of(start as nat, len as nat, flags),
{
    if len == 0 {
        assert(old(out)@ + frames_of(start as nat, len as nat, flags) =~= old(out)@);
        return;
    }
    let first = start / 4096;
    let last = (start + len - 1) / 4096;
    let ghost base = out@;
    let mut f = first;
    while f <= last
        invariant
            first <= f <= last + 1,
            last == (start + len - 1) / 4096,
            first == start / 4096,
            last < u64::MAX,
            out@ == base + Seq::new(
                (f - first) as nat,
                |i: int| (PhysicalPage { number: (first + i) as u64 }, flags),
            ),
        decreases last + 1 - f,
    {
        out.push((PhysicalPage { number: f }, flags));
        f = f + 1;
        assert(out@ =~= base + Seq::new(
            (f - first) as nat,
            |i: int| (PhysicalPage { number: (first + i) as u64 }, flags),
        ));
    }
    assert(out@ =~= base + frames_of(start as nat, len as nat, flags));
}

/// The identity mappings that remap the kernel: the frames of each
/// allocated section in `sections` with that section's flags, then the VGA
/// text buffer's frame, writable, then the frames of the Multiboot
/// information between `mb_start` and `mb_end`.
pub fn remap_plan(sections: &[Section], mb_start: u64, mb_end: u64) -> (r: Vec<(PhysicalPage, u64)>)
    requires
        sections_remappable(sections@),
    ensures
        r@ == remap_plan_spec(sections@, mb_start, mb_end),
{
    let mut out: Vec<(PhysicalPage, u64)> = Vec::new();
    let mut i: usize = 0;
    while i < sections.len()
        invariant
            i <= sections@.len(),
            sections_remappable(sections@),
            out@ == sections_plan(sections@.take(i as int)),
        decreases sections@.len() - i,
    {
        let s = sections[i];
        assert(sections@.take(i + 1).drop_last() =~= sections@.take(i as int));
        if (s.flags / 2) % 2 == 1 {
            assert(section_allocated(sections@[i as int]));
            let w: u64 = if s.flags % 2 == 1 { WRITABLE } else { 0 };
            let x: u64 = if (s.flags / 4) % 2 == 1 { 0 } else { NO_EXECUTE };
            let flags = PRESENT + w + x;
            push_frames(&mut out, s.address, s.length, flags);
        } else {
            assert(out@ =~= out@ + Seq::<(PhysicalPage, u64)>::empty());
        }
        i = i + 1;
    }
    assert(sections@.take(sections@.len() as int) =~= sections@);
    out.push((PhysicalPage { number: 0xb8 }, WRITABLE));
    let len = if mb_end > mb_start { mb_end - mb_start } else { 0 };
    push_frames(&mut out, mb_start, len, PRESENT);
    out
}

/// Why a page could not be mapped or unmapped.
#[derive(Clone, Copy, PartialEq, Eq, Structural, Debug)]
pub enum MapErr {
    /// A table on the way to the page is not among the tables.
    TableMissing,
    /// An entry on the way to the page maps a huge page.
    HugePage,
    /// No frame was left for a new table.
    OutOfFrames,
    /// A frame number does not fit in an entry.
    FrameTooLarge,
    /// The page's entry is already in use.
    InUse,
    /// The page is not mapped.
    NotMapped,
    /// The way to the page passes through the same table twice (the page
    /// lies in the tables' own recursive mapping).
    Recursive,
    /// The page that is to stay unmapped as a guard page is mapped.
    GuardMapped,
    /// A frame given for a new table already holds a table.
    FrameHoldsTable,
}

/// The entry for frame `frame` with the flag bits of `flags` (bits 0 to 11
/// and 52 to 63; the bits between hold the frame number), present.
pub open spec fn entry_for(frame: nat, flags: u64) -> int {
    frame * 4096 + (if flags % 2 == 1 { (flags % 4096) as int } else { flags % 4096 + 1 }) + (flags
        / 0x10_0000_0000_0000) * 0x10_0000_0000_0000
}

/// An entry written for a frame below 2^40 with some flags reads back as
/// that frame, is present, and keeps the flags' writable bit (1), huge-page
/// bit (7) and top twelve bits (52 to 63, no-execute among them).
pub proof fn lemma_entry_for_reads_back(frame: nat, flags: u64)
    requires
        frame < 0x100_0000_0000,
    ensures
        0 <= entry_for(frame, flags) < 0x1_0000_0000_0000_0000,
        entry_present(entry_for(frame, flags) as u64),
        entry_frame(entry_for(frame, flags) as u64) == frame,
        (entry_for(frame, flags) / 2) % 2 == (flags / 2) % 2,
        entry_huge(entry_for(frame, flags) as u64) == entry_huge(flags),
        entry_for(frame, flags) / 0x10_0000_0000_0000 == flags / 0x10_0000_0000_0000,
{
    let low: int = if flags % 2 == 1 {
        (flags % 4096) as int
    } else {
        flags % 4096 + 1
    };
    let high: int = (flags / 0x10_0000_0000_0000) as int;
    let e = entry_for(frame, flags);
    let f: int = flags as int;
    let r: int = f % 4096;
    assert(e == frame * 4096 + low + high * 0x10_0000_0000_0000);
    assert(0 <= low < 4096 && low % 2 == 1 && (low == r || (low == r + 1 && r % 2 == 0)));
    assert((low / 2) % 2 == (r / 2) % 2 && (low / 0x80) % 2 == (r / 0x80) % 2) by (nonlinear_arith)
        requires
            0 <= r < 4096,
            low == r || (low == r + 1 && r % 2 == 0),
    {
        if low != r {
            assert(r == (r / 2) * 2);
            assert(low / 2 == r / 2);
            assert(r == (r / 0x80) * 0x80 + (r % 0x80));
            assert(r % 0x80 < 0x7f);
            assert(low / 0x80 == r / 0x80);
        }
    }
    assert((r / 2) % 2 == (f / 2) % 2 && (r / 0x80) % 2 == (f / 0x80) % 2) by (nonlinear_arith)
        requires
            0 <= f,
            r == f % 4096,
    {
        assert(f == (f / 4096) * 4096 + r);
        assert(f / 2 == (f / 4096) * 2048 + r / 2);
        assert(f / 0x80 == (f / 4096) * 32 + r / 0x80);
    }
    assert(0 <= high < 4096);
    assert(e / 4096 == frame + high * 0x100_0000_0000 && e % 2 == 1 && (e / 2) % 2 == (low / 2) % 2
        && (e / 0x80) % 2 == (low / 0x80) % 2 && e / 0x10_0000_0000_0000 == high
        && e < 0x1_0000_0000_0000_0000) by (nonlinear_arith)
        requires
            e == frame * 4096 + low + high * 0x10_0000_0000_0000,
            0 <= low < 4096,
            low % 2 == 1,
            0 <= high < 4096,
            0 <= frame < 0x100_0000_0000,
    {
        assert(e == (frame + high * 0x100_0000_0000) * 4096 + low);
        assert(e == (frame * 2048 + high * 0x8_0000_0000_0000 + low / 2) * 2 + 1);
        assert(e / 2 == frame * 2048 + high * 0x8_0000_0000_0000 + low / 2);
        assert(e / 0x80 == frame * 32 + high * 0x2000_0000_0000 + low / 0x80);
        assert(e == high * 0x10_0000_0000_0000 + (frame * 4096 + low));
    }
    assert(((frame + high * 0x100_0000_0000) % 0x100_0000_0000) == frame);
}

proof fn lemma_table_position_push(s: Seq<(u64, Seq<u64>)>, x: (u64, Seq<u64>), g: nat, i: int)
    requires
        0 <= i,
        table_position(s, g, i) < s.len(),
    ensures
        table_position(s.push(x), g, i) == table_position(s, g, i),
    decreases s.len() - i,
{
    if i < s.len() && s[i].0 != g {
        lemma_table_position_push(s, x, g, i + 1);
    }
    if i < s.len() {
        assert(s.push(x)[i] == s[i]);
    }
}

proof fn lemma_table_position_same_frames(s1: Seq<(u64, Seq<u64>)>, s2: Seq<(u64, Seq<u64>)>, g: nat, i: int)
    requires
        0 <= i,
        s1.len() == s2.len(),
        forall|k: int| 0 <= k < s1.len() ==> (#[trigger] s1[k]).0 == s2[k].0,
    ensures
        table_position(s1, g, i) == table_position(s2, g, i),
    decreases s1.len() - i,
{
    if i < s1.len() {
        assert(s1[i].0 == s2[i].0);
        lemma_table_position_same_frames(s1, s2, g, i + 1);
    }
}

/// No table from `i` on stored in `g` before the first one.
proof fn lemma_table_position_first(s: Seq<(u64, Seq<u64>)>, g: nat, i: int, k: int)
    requires
        0 <= i <= k < s.len(),
        s[k].0 == g,
    ensures
        table_position(s, g, i) <= k,
    decreases k - i,
{
    if s[i].0 != g {
        lemma_table_position_first(s, g, i + 1, k);
    }
}

proof fn lemma_table_position_found(s: Seq<(u64, Seq<u64>)>, g: nat, i: int)
    requires
        0 <= i,
    ensures
        table_position(s, g, i) <= s.len(),
        table_position(s, g, i) < s.len() ==> table_position(s, g, i) >= i && s[table_position(
            s,
            g,
            i,
        )].0 == g,
    decreases s.len() - i,
{
    if i < s.len() && s[i].0 != g {
        lemma_table_position_found(s, g, i + 1);
    }
}

/// Every entry that differs between `s1` and `s2` is at one of the
/// positions `ps` (a table frame and an index), or belongs to a table that
/// `s1` does not have and is 0 in `s2`.
pub open spec fn changes_within(s1: Seq<(u64, Seq<u64>)>, s2: Seq<(u64, Seq<u64>)>, ps: Set<(nat, nat)>) -> bool {
    forall|g: nat, j: nat|
        #[trigger] table_entry(s2, g, j) != table_entry(s1, g, j) ==> ps.contains((g, j)) || (
        table_position(s1, g, 0) == s1.len() && table_entry(s2, g, j) == Some(0u64))
}

proof fn lemma_table_position_new(s: Seq<(u64, Seq<u64>)>, x: (u64, Seq<u64>), i: int)
    requires
        0 <= i <= s.len(),
        table_position(s, x.0 as nat, i) == s.len(),
    ensures
        table_position(s.push(x), x.0 as nat, i) == s.len(),
    decreases s.len() - i,
{
    if i < s.len() {
        assert(s.push(x)[i] == s[i]);
        lemma_table_position_new(s, x, i + 1);
    } else {
        assert(s.push(x)[i] == x);
    }
}

/// Changes within `ps` and then within `qs` are changes within both, when
/// every table of `s1` stays where it is in `s2`.
proof fn lemma_changes_trans(
    s1: Seq<(u64, Seq<u64>)>,
    s2: Seq<(u64, Seq<u64>)>,
    s3: Seq<(u64, Seq<u64>)>,
    ps: Set<(nat, nat)>,
    qs: Set<(nat, nat)>,
)
    requires
        changes_within(s1, s2, ps),
        changes_within(s2, s3, qs),
        forall|g: nat|
            table_position(s1, g, 0) < s1.len() ==> #[trigger] table_position(s2, g, 0)
                == table_position(s1, g, 0),
        s2.len() >= s1.len(),
    ensures
        changes_within(s1, s3, ps.union(qs)),
{
    assert forall|g: nat, j: nat| #[trigger] table_entry(s3, g, j) != table_entry(s1, g, j) implies ps.union(
        qs,
    ).contains((g, j)) || (table_position(s1, g, 0) == s1.len() && table_entry(s3, g, j) == Some(
        0u64,
    )) by {
        lemma_table_position_found(s1, g, 0);
        if table_entry(s3, g, j) != table_entry(s2, g, j) {
            if !qs.contains((g, j)) {
                assert(table_position(s2, g, 0) == s2.len());
                if table_position(s1, g, 0) < s1.len() {
                    assert(table_position(s2, g, 0) == table_position(s1, g, 0));
                }
            }
        } else {
            assert(table_entry(s2, g, j) != table_entry(s1, g, j));
        }
    }
}

/// The entries on the way to page `q` above its page table, in `s2`, are
/// the only ones of the tables of `s1` that differ in `s2` (besides new
/// tables, all 0), and each that differs points to a table that `s1` does
/// not have.
pub open spec fn upper_way_changes(root: u64, s1: Seq<(u64, Seq<u64>)>, s2: Seq<(u64, Seq<u64>)>, q: nat) -> bool {
    let a3 = entry_frame(table_entry(s2, root as nat, level_index(q, 4))->0);
    let a2 = entry_frame(table_entry(s2, a3, level_index(q, 3))->0);
    let a1 = entry_frame(table_entry(s2, a2, level_index(q, 2))->0);
    &&& changes_within(
        s1,
        s2,
        set![(root as nat, level_index(q, 4)), (a3, level_index(q, 3)), (a2, level_index(q, 2))],
    )
    &&& (table_entry(s2, root as nat, level_index(q, 4)) != table_entry(s1, root as nat, level_index(q, 4))
        ==> table_position(s1, a3, 0) == s1.len())
    &&& (table_entry(s2, a3, level_index(q, 3)) != table_entry(s1, a3, level_index(q, 3))
        ==> table_position(s1, a2, 0) == s1.len())
    &&& (table_entry(s2, a2, level_index(q, 2)) != table_entry(s1, a2, level_index(q, 2))
        ==> table_position(s1, a1, 0) == s1.len())
}

/// The three steps down the way to a page, each changing one entry (or
/// making a new table), make the changes `upper_way_changes` describes.
proof fn lemma_path_changes(
    root: u64,
    s0: Seq<(u64, Seq<u64>)>,
    s1: Seq<(u64, Seq<u64>)>,
    s2: Seq<(u64, Seq<u64>)>,
    s3: Seq<(u64, Seq<u64>)>,
    q: nat,
    t3: nat,
    t2: nat,
    t1: nat,
)
    requires
        changes_within(s0, s1, set![(root as nat, level_index(q, 4))]),
        changes_within(s1, s2, set![(t3, level_index(q, 3))]),
        changes_within(s2, s3, set![(t2, level_index(q, 2))]),
        table_entry(s1, root as nat, level_index(q, 4)) != table_entry(s0, root as nat, level_index(q, 4))
            ==> table_position(s0, t3, 0) == s0.len(),
        table_entry(s2, t3, level_index(q, 3)) != table_entry(s1, t3, level_index(q, 3))
            ==> table_position(s1, t2, 0) == s1.len(),
        table_entry(s3, t2, level_index(q, 2)) != table_entry(s2, t2, level_index(q, 2))
            ==> table_position(s2, t1, 0) == s2.len(),
        forall|g: nat|
            table_position(s0, g, 0) < s0.len() ==> #[trigger] table_position(s1, g, 0)
                == table_position(s0, g, 0),
        forall|g: nat|
            table_position(s1, g, 0) < s1.len() ==> #[trigger] table_position(s2, g, 0)
                == table_position(s1, g, 0),
        forall|g: nat|
            table_position(s2, g, 0) < s2.len() ==> #[trigger] table_position(s3, g, 0)
                == table_position(s2, g, 0),
        s1.len() >= s0.len(),
        s2.len() >= s1.len(),
        s3.len() >= s2.len(),
        table_entry(s1, root as nat, level_index(q, 4)) is Some,
        table_entry(s3, root as nat, level_index(q, 4)) matches Some(e4) && entry_present(e4)
            && entry_frame(e4) == t3,
        table_entry(s3, t3, level_index(q, 3)) matches Some(e3) && entry_present(e3) && entry_frame(e3)
            == t2,
        table_entry(s3, t2, level_index(q, 2)) matches Some(e2) && entry_present(e2) && entry_frame(e2)
            == t1,
        table_entry(s2, t3, level_index(q, 3)) is Some,
        t3 != root,
        t2 != root,
        t2 != t3,
    ensures
        upper_way_changes(root, s0, s3, q),
{
    let i4 = level_index(q, 4);
    let i3 = level_index(q, 3);
    let i2 = level_index(q, 2);
    lemma_table_position_found(s1, root as nat, 0);
    lemma_table_position_found(s2, t3, 0);
    assert(table_position(s2, root as nat, 0) < s2.len());
    assert(table_entry(s2, root as nat, i4) == table_entry(s1, root as nat, i4));
    assert(table_entry(s3, root as nat, i4) == table_entry(s2, root as nat, i4));
    assert(table_entry(s3, t3, i3) == table_entry(s2, t3, i3));
    lemma_changes_trans(s0, s1, s2, set![(root as nat, i4)], set![(t3, i3)]);
    lemma_changes_trans(
        s0,
        s2,
        s3,
        set![(root as nat, i4)].union(set![(t3, i3)]),
        set![(t2, i2)],
    );
    assert(set![(root as nat, i4)].union(set![(t3, i3)]).union(set![(t2, i2)]) =~= set![
        (root as nat, i4),
        (t3, i3),
        (t2, i2),
    ]);
    if table_entry(s3, t3, i3) != table_entry(s0, t3, i3) {
        if table_entry(s2, t3, i3) == table_entry(s1, t3, i3) {
            assert(table_entry(s1, t3, i3) != table_entry(s0, t3, i3));
            assert(!set![(root as nat, i4)].contains((t3, i3)));
        }
        lemma_table_position_found(s0, t2, 0);
    }
    if table_entry(s3, t2, i2) != table_entry(s0, t2, i2) {
        if table_entry(s3, t2, i2) == table_entry(s2, t2, i2) {
            if table_entry(s2, t2, i2) != table_entry(s1, t2, i2) {
                assert(!set![(t3, i3)].contains((t2, i2)));
            } else {
                assert(table_entry(s1, t2, i2) != table_entry(s0, t2, i2));
                assert(!set![(root as nat, i4)].contains((t2, i2)));
            }
        }
        lemma_table_position_found(s0, t1, 0);
        lemma_table_position_found(s1, t1, 0);
    }
    if table_entry(s3, root as nat, i4) != table_entry(s0, root as nat, i4) {
        assert(table_entry(s1, root as nat, i4) != table_entry(s0, root as nat, i4));
    }
}

/// The frame of the table at `level` (4 for the top table, 1 for the page
/// table) on the way to page `q`, read off the entries above it.
pub open spec fn way_frame(root: u64, s: Seq<(u64, Seq<u64>)>, q: nat, level: nat) -> nat
    decreases 4 - level,
{
    if level >= 4 {
        root as nat
    } else {
        entry_frame(
            table_entry(s, way_frame(root, s, q, level + 1), level_index(q, level + 1))->0,
        )
    }
}

/// The rest of the walk for page `q` from the table in frame `b` at
/// `level`.
pub open spec fn walk_at(s: Seq<(u64, Seq<u64>)>, q: nat, level: nat, b: nat) -> Option<nat>
    decreases level,
{
    match table_entry(s, b, level_index(q, level)) {
        Some(e) if entry_present(e) => {
            if level <= 1 {
                Some(entry_frame(e))
            } else if level < 4 && entry_huge(e) {
                if level == 3 {
                    Some(entry_frame(e) + level_index(q, 2) * 512 + level_index(q, 1))
                } else {
                    Some(entry_frame(e) + level_index(q, 1))
                }
            } else {
                walk_at(s, q, (level - 1) as nat, entry_frame(e))
            }
        },
        _ => None,
    }
}

proof fn lemma_walk_at(root: u64, s: Seq<(u64, Seq<u64>)>, q: nat)
    ensures
        walk(root, s, q) == walk_at(s, q, 4, root as nat),
{
    reveal(walk);
    reveal_with_fuel(walk_at, 4);
}

/// The table in frame `b` at `level`, and every table below it that the
/// walk for `q` reaches, is none of `ts`.
pub open spec fn clear_from(s: Seq<(u64, Seq<u64>)>, q: nat, level: nat, b: nat, ts: Set<nat>) -> bool
    decreases level,
{
    &&& !ts.contains(b)
    &&& match table_entry(s, b, level_index(q, level)) {
        Some(e) => if entry_present(e) && level > 1 && (level == 4 || !entry_huge(e)) {
            clear_from(s, q, (level - 1) as nat, entry_frame(e), ts)
        } else {
            true
        },
        None => true,
    }
}

/// A walk whose remaining tables are none of the tables of `ts` reads no
/// entry at the positions `ps` (all in tables of `ts`), so it goes as it
/// went before the changes within `ps`.
proof fn lemma_walk_at_clear(
    s1: Seq<(u64, Seq<u64>)>,
    s2: Seq<(u64, Seq<u64>)>,
    ps: Set<(nat, nat)>,
    ts: Set<nat>,
    q: nat,
    level: nat,
    b: nat,
)
    requires
        1 <= level <= 4,
        changes_within(s1, s2, ps),
        forall|g: nat, j: nat| #[trigger] ps.contains((g, j)) ==> ts.contains(g),
        clear_from(s2, q, level, b, ts),
    ensures
        walk_at(s2, q, level, b) == walk_at(s1, q, level, b),
    decreases level,
{
    let i = level_index(q, level);
    if table_entry(s2, b, i) != table_entry(s1, b, i) {
        assert(!ps.contains((b, i)));
        assert(table_entry(s2, b, i) == Some(0u64));
        lemma_table_position_found(s1, b, 0);
        assert(table_entry(s1, b, i) is None);
    } else {
        match table_entry(s1, b, i) {
            Some(e) => {
                if entry_present(e) && level > 1 && (level == 4 || !entry_huge(e)) {
                    lemma_walk_at_clear(s1, s2, ps, ts, q, (level - 1) as nat, entry_frame(e));
                }
            },
            None => {},
        }
    }
}

/// Below the table in frame `b` at `level`, the walk for `q` reaches none
/// of the tables of `ts`.
pub open spec fn clear_below(s: Seq<(u64, Seq<u64>)>, q: nat, level: nat, b: nat, ts: Set<nat>) -> bool {
    match table_entry(s, b, level_index(q, level)) {
        Some(e) => if entry_present(e) && level > 1 && (level == 4 || !entry_huge(e)) {
            clear_from(s, q, (level - 1) as nat, entry_frame(e), ts)
        } else {
            true
        },
        None => true,
    }
}

/// The tables on the way to page `p`.
pub open spec fn way_tables(root: u64, s: Seq<(u64, Seq<u64>)>, p: nat) -> Set<nat> {
    set![root as nat, way_frame(root, s, p, 3), way_frame(root, s, p, 2), way_frame(root, s, p, 1)]
}

/// Page `q` parts from page `p` cleanly: their indices differ at some
/// level, and below the first such level the walk for `q` reaches none of
/// the tables on the way to `p`.
pub open spec fn parts_cleanly(root: u64, s: Seq<(u64, Seq<u64>)>, q: nat, p: nat) -> bool {
    let ts = way_tables(root, s, p);
    if level_index(q, 4) != level_index(p, 4) {
        clear_below(s, q, 4, root as nat, ts)
    } else if level_index(q, 3) != level_index(p, 3) {
        clear_below(s, q, 3, way_frame(root, s, p, 3), ts)
    } else if level_index(q, 2) != level_index(p, 2) {
        clear_below(s, q, 2, way_frame(root, s, p, 2), ts)
    } else {
        level_index(q, 1) != level_index(p, 1)
    }
}

/// The positions on the way to page `p`.
pub open spec fn way_positions(root: u64, s: Seq<(u64, Seq<u64>)>, p: nat) -> Set<(nat, nat)> {
    set![
        (root as nat, level_index(p, 4)),
        (way_frame(root, s, p, 3), level_index(p, 3)),
        (way_frame(root, s, p, 2), level_index(p, 2)),
        (way_frame(root, s, p, 1), level_index(p, 1)),
    ]
}

/// The changes of mapping page `p`, from `s1` to `s2`: only entries on its
/// way in `s2` differ (besides new tables, all 0), each upper one that
/// differs points to a table `s1` does not have, and the way in `s2` runs
/// through present entries, no huge page and four different tables.
pub open spec fn mapped_way(root: u64, s1: Seq<(u64, Seq<u64>)>, s2: Seq<(u64, Seq<u64>)>, p: nat) -> bool {
    let a3 = way_frame(root, s2, p, 3);
    let a2 = way_frame(root, s2, p, 2);
    let a1 = way_frame(root, s2, p, 1);
    &&& table_position(s1, root as nat, 0) < s1.len()
    &&& changes_within(s1, s2, way_positions(root, s2, p))
    &&& entries_kept(s1, s2)
    &&& (table_entry(s2, root as nat, level_index(p, 4)) != table_entry(s1, root as nat, level_index(p, 4))
        ==> table_position(s1, a3, 0) == s1.len())
    &&& (table_entry(s2, a3, level_index(p, 3)) != table_entry(s1, a3, level_index(p, 3))
        ==> table_position(s1, a2, 0) == s1.len())
    &&& (table_entry(s2, a2, level_index(p, 2)) != table_entry(s1, a2, level_index(p, 2))
        ==> table_position(s1, a1, 0) == s1.len())
    &&& table_entry(s2, root as nat, level_index(p, 4)) matches Some(e4) && entry_present(e4)
        && !entry_huge(e4)
    &&& table_entry(s2, a3, level_index(p, 3)) matches Some(e3) && entry_present(e3) && !entry_huge(e3)
    &&& table_entry(s2, a2, level_index(p, 2)) matches Some(e2) && entry_present(e2) && !entry_huge(e2)
    &&& root as nat != a3 && root as nat != a2 && root as nat != a1
    &&& a3 != a2 && a3 != a1 && a2 != a1
}

/// The facts `lemma_parts_kept` uses, one case for each level where the
/// pages part.
proof fn lemma_parts_setup(root: u64, s1: Seq<(u64, Seq<u64>)>, s2: Seq<(u64, Seq<u64>)>, p: nat)
    requires
        mapped_way(root, s1, s2, p),
    ensures
        forall|g: nat, j: nat| #[trigger] way_positions(root, s2, p).contains((g, j)) ==> way_tables(
            root,
            s2,
            p,
        ).contains(g),
        way_frame(root, s2, p, 3) == entry_frame(table_entry(s2, root as nat, level_index(p, 4))->0),
        way_frame(root, s2, p, 2) == entry_frame(
            table_entry(s2, way_frame(root, s2, p, 3), level_index(p, 3))->0,
        ),
        way_frame(root, s2, p, 1) == entry_frame(
            table_entry(s2, way_frame(root, s2, p, 2), level_index(p, 2))->0,
        ),
{
    reveal_with_fuel(way_frame, 4);
}

proof fn lemma_parts_at_4(root: u64, s1: Seq<(u64, Seq<u64>)>, s2: Seq<(u64, Seq<u64>)>, p: nat, q: nat)
    requires
        mapped_way(root, s1, s2, p),
        level_index(q, 4) != level_index(p, 4),
        clear_below(s2, q, 4, root as nat, way_tables(root, s2, p)),
    ensures
        walk_at(s2, q, 4, root as nat) == walk_at(s1, q, 4, root as nat),
{
    lemma_parts_setup(root, s1, s2, p);
    let r = root as nat;
    let i4 = level_index(q, 4);
    let ws = way_positions(root, s2, p);
    let ts = way_tables(root, s2, p);
    lemma_table_position_found(s1, r, 0);
    assert(!ws.contains((r, i4)));
    assert(table_entry(s2, r, i4) == table_entry(s1, r, i4));
    match table_entry(s1, r, i4) {
        Some(e) => {
            if entry_present(e) {
                lemma_walk_at_clear(s1, s2, ws, ts, q, 3, entry_frame(e));
            }
        },
        None => {},
    }
}

/// The walk for `q` from the table `b` at `level`, reading an entry off
/// the way to `p` there, goes as before, when the table reached there
/// before is `b` as well or there was none.
proof fn lemma_parts_below(
    root: u64,
    s1: Seq<(u64, Seq<u64>)>,
    s2: Seq<(u64, Seq<u64>)>,
    p: nat,
    q: nat,
    level: nat,
    b: nat,
)
    requires
        mapped_way(root, s1, s2, p),
        1 <= level <= 3,
        way_tables(root, s2, p).contains(b),
        !way_positions(root, s2, p).contains((b, level_index(q, level))),
        clear_below(s2, q, level, b, way_tables(root, s2, p)),
    ensures
        walk_at(s2, q, level, b) == walk_at(s1, q, level, b),
{
    lemma_parts_setup(root, s1, s2, p);
    let i = level_index(q, level);
    let ws = way_positions(root, s2, p);
    let ts = way_tables(root, s2, p);
    if table_entry(s2, b, i) != table_entry(s1, b, i) {
        lemma_table_position_found(s1, b, 0);
    } else {
        match table_entry(s1, b, i) {
            Some(e) => {
                if entry_present(e) && level > 1 && !entry_huge(e) {
                    lemma_walk_at_clear(s1, s2, ws, ts, q, (level - 1) as nat, entry_frame(e));
                }
            },
            None => {},
        }
    }
}

proof fn lemma_clear_back(
    s1: Seq<(u64, Seq<u64>)>,
    s2: Seq<(u64, Seq<u64>)>,
    q: nat,
    level: nat,
    b: nat,
    ts: Set<nat>,
)
    requires
        entries_kept(s1, s2),
        clear_from(s2, q, level, b, ts),
    ensures
        clear_from(s1, q, level, b, ts),
    decreases level,
{
    let i = level_index(q, level);
    match table_entry(s1, b, i) {
        Some(e) => {
            if entry_present(e) && level > 1 && (level == 4 || !entry_huge(e)) {
                assert(table_entry(s2, b, i) == table_entry(s1, b, i));
                lemma_clear_back(s1, s2, q, (level - 1) as nat, entry_frame(e), ts);
            }
        },
        None => {},
    }
}

/// Parting cleanly from a page whose page table is there holds before
/// changes to entries that were not present if it holds after them.
pub proof fn lemma_parts_back(root: u64, s1: Seq<(u64, Seq<u64>)>, s2: Seq<(u64, Seq<u64>)>, p: nat, q: nat)
    requires
        entries_kept(s1, s2),
        page_table_of(root, s1, p) is Some,
        parts_cleanly(root, s2, q, p),
    ensures
        parts_cleanly(root, s1, q, p),
{
    reveal_with_fuel(way_frame, 4);
    let e4 = table_entry(s1, root as nat, level_index(p, 4))->0;
    assert(table_entry(s2, root as nat, level_index(p, 4)) == Some(e4));
    let e3 = table_entry(s1, entry_frame(e4), level_index(p, 3))->0;
    assert(table_entry(s2, entry_frame(e4), level_index(p, 3)) == Some(e3));
    let e2 = table_entry(s1, entry_frame(e3), level_index(p, 2))->0;
    assert(table_entry(s2, entry_frame(e3), level_index(p, 2)) == Some(e2));
    assert(way_tables(root, s1, p) == way_tables(root, s2, p));
    let ts = way_tables(root, s2, p);
    let lv: nat = if level_index(q, 4) != level_index(p, 4) {
        4
    } else if level_index(q, 3) != level_index(p, 3) {
        3
    } else if level_index(q, 2) != level_index(p, 2) {
        2
    } else {
        1
    };
    if lv > 1 {
        let b = way_frame(root, s2, p, lv);
        let i = level_index(q, lv);
        match table_entry(s1, b, i) {
            Some(e) => {
                if entry_present(e) && (lv == 4 || !entry_huge(e)) {
                    assert(table_entry(s2, b, i) == table_entry(s1, b, i));
                    lemma_clear_back(s1, s2, q, (lv - 1) as nat, entry_frame(e), ts);
                }
            },
            None => {},
        }
    }
}

/// After mapping page `p`, a page that parts from it cleanly translates as
/// it did before.
pub proof fn lemma_parts_kept(root: u64, s1: Seq<(u64, Seq<u64>)>, s2: Seq<(u64, Seq<u64>)>, p: nat, q: nat)
    requires
        mapped_way(root, s1, s2, p),
        parts_cleanly(root, s2, q, p),
    ensures
        walk(root, s2, q) == walk(root, s1, q),
{
    lemma_parts_setup(root, s1, s2, p);
    lemma_walk_at(root, s1, q);
    lemma_walk_at(root, s2, q);
    let r = root as nat;
    let a3 = way_frame(root, s2, p, 3);
    let a2 = way_frame(root, s2, p, 2);
    let a1 = way_frame(root, s2, p, 1);
    let ws = way_positions(root, s2, p);
    let (j4, j3, j2, j1) = (level_index(p, 4), level_index(p, 3), level_index(p, 2), level_index(p, 1));
    let (i4, i3, i2, i1) = (level_index(q, 4), level_index(q, 3), level_index(q, 2), level_index(q, 1));
    lemma_table_position_found(s1, r, 0);
    if i4 != j4 {
        lemma_parts_at_4(root, s1, s2, p, q);
    } else {
        let same4 = table_entry(s1, r, j4) == table_entry(s2, r, j4);
        if !same4 {
            lemma_table_position_found(s1, a3, 0);
        }
        if same4 {
            assert(walk_at(s2, q, 4, r) == walk_at(s2, q, 3, a3));
            assert(walk_at(s1, q, 4, r) == walk_at(s1, q, 3, a3));
        }
        if i3 != j3 {
            if same4 {
                lemma_parts_below(root, s1, s2, p, q, 3, a3);
            } else {
                assert(table_entry(s1, a3, i3) is None);
                assert(!ws.contains((a3, i3)));
                assert(table_entry(s2, a3, i3) == Some(0u64));
            }
        } else {
            let same3 = table_entry(s1, a3, j3) == table_entry(s2, a3, j3);
            if !same4 || !same3 {
                lemma_table_position_found(s1, a2, 0);
            }
            if !same4 {
                assert(table_entry(s1, a3, j3) is None);
            }
            if same4 && same3 {
                assert(walk_at(s2, q, 3, a3) == walk_at(s2, q, 2, a2));
                assert(walk_at(s1, q, 3, a3) == walk_at(s1, q, 2, a2));
            }
            if i2 != j2 {
                if same4 && same3 {
                    lemma_parts_below(root, s1, s2, p, q, 2, a2);
                } else {
                    assert(table_entry(s1, a2, i2) is None);
                    assert(!ws.contains((a2, i2)));
                    assert(table_entry(s2, a2, i2) == Some(0u64));
                    assert(walk_at(s2, q, 3, a3) == walk_at(s2, q, 2, a2));
                }
            } else {
                let same2 = table_entry(s1, a2, j2) == table_entry(s2, a2, j2);
                if !same4 || !same3 || !same2 {
                    lemma_table_position_found(s1, a1, 0);
                }
                if !same3 {
                    assert(table_entry(s1, a2, j2) is None);
                }
                if same4 && same3 && same2 {
                    assert(walk_at(s2, q, 2, a2) == walk_at(s2, q, 1, a1));
                    assert(walk_at(s1, q, 2, a2) == walk_at(s1, q, 1, a1));
                    lemma_parts_below(root, s1, s2, p, q, 1, a1);
                } else {
                    assert(table_entry(s1, a1, i1) is None);
                    assert(!ws.contains((a1, i1)));
                    if table_entry(s2, a1, i1) != table_entry(s1, a1, i1) {
                        assert(table_entry(s2, a1, i1) == Some(0u64));
                    }
                    assert(walk_at(s2, q, 3, a3) == walk_at(s2, q, 2, a2));
                    assert(walk_at(s2, q, 2, a2) == walk_at(s2, q, 1, a1));
                }
            }
        }
    }
}

impl PageTables {
    /// The position of the first table stored in frame `frame`.
    fn position(&self, frame: u64) -> (r: Option<usize>)
        ensures
            r matches Some(p) ==> p == table_position(self@.1, frame as nat, 0) && p < self@.1.len(),
            r is None ==> table_position(self@.1, frame as nat, 0) == self@.1.len(),
    {
        let ghost ts = self@.1;
        let mut i: usize = 0;
        while i < self.tables.len()
            invariant
                i <= self.tables@.len(),
                ts == self@.1,
                table_position(ts, frame as nat, 0) == table_position(ts, frame as nat, i as int),
            decreases self.tables@.len() - i,
        {
            if self.tables[i].frame == frame {
                return Some(i);
            }
            i = i + 1;
        }
        None
    }

    /// Sets entry `index` of the table at position `p` to `v`.
    fn set_entry(&mut self, p: usize, index: usize, v: u64)
        requires
            p < old(self).tables@.len(),
            index < old(self).tables@[p as int].entries@.len(),
        ensures
            final(self).root == old(self).root,
            final(self)@.1 == old(self)@.1.update(
                p as int,
                (old(self)@.1[p as int].0, old(self)@.1[p as int].1.update(index as int, v)),
            ),
    {
        let mut t = self.tables.remove(p);
        t.entries.set(index, v);
        self.tables.insert(p, t);
        assert(self@.1 =~= old(self)@.1.update(
            p as int,
            (old(self)@.1[p as int].0, old(self)@.1[p as int].1.update(index as int, v)),
        ));
    }

    /// Setting entry `index` of the table in frame `t` changes no other
    /// entry of any table.
    proof fn lemma_set_entry_frame(
        s1: Seq<(u64, Seq<u64>)>,
        s2: Seq<(u64, Seq<u64>)>,
        p: int,
        t: nat,
        index: nat,
        v: u64,
    )
        requires
            0 <= p < s1.len(),
            p == table_position(s1, t, 0),
            s2 == s1.update(p, (s1[p].0, s1[p].1.update(index as int, v))),
            s1[p].1.len() == 512,
            index < 512,
        ensures
            table_entry(s2, t, index) == Some(v),
            forall|g: nat, j: nat|
                (g != t || j != index) ==> #[trigger] table_entry(s2, g, j) == table_entry(s1, g, j),
            forall|g: nat| table_position(s2, g, 0) == table_position(s1, g, 0),
    {
        assert forall|g: nat| table_position(s2, g, 0) == table_position(s1, g, 0) by {
            lemma_table_position_same_frames(s1, s2, g, 0);
        }
        lemma_table_position_found(s1, t, 0);
        assert forall|g: nat, j: nat| (g != t || j != index) implies #[trigger] table_entry(s2, g, j)
            == table_entry(s1, g, j) by {
            lemma_table_position_found(s1, g, 0);
        }
    }

    /// The table below entry `index` of the table in frame `t`: the frame
    /// the entry points to, when it is present; otherwise a new zeroed
    /// table in a frame from `alloc`, which the entry then points to,
    /// present and writable.
    fn next_table<A: FrameAllocator>(&mut self, t: u64, index: usize, alloc: &mut A) -> (r: Result<
        u64,
        MapErr,
    >)
        requires
            index < 512,
            old(alloc).inv(),
            old(alloc).allocates_frames(),
        ensures
            final(alloc).inv(),
            final(alloc).allocates_frames(),
            final(self).root == old(self).root,
            r matches Ok(t2) ==> table_entry(final(self)@.1, t as nat, index as nat) matches Some(e)
                && entry_present(e) && !entry_huge(e) && entry_frame(e) == t2,
            forall|g: nat, j: nat|
                (g != t || j != index) && table_position(old(self)@.1, g, 0) < old(self)@.1.len()
                    ==> #[trigger] table_entry(final(self)@.1, g, j) == table_entry(old(self)@.1, g, j),
            forall|g: nat|
                table_position(old(self)@.1, g, 0) < old(self)@.1.len() ==> #[trigger] table_position(
                    final(self)@.1,
                    g,
                    0,
                ) == table_position(old(self)@.1, g, 0),
            entries_kept(old(self)@.1, final(self)@.1),
            final(self)@.1.len() >= old(self)@.1.len(),
            (table_entry(old(self)@.1, t as nat, index as nat) matches Some(e) && entry_present(e)
                && !entry_huge(e)) ==> r == Ok::<u64, MapErr>(
                entry_frame(table_entry(old(self)@.1, t as nat, index as nat)->0) as u64,
            ) && final(self)@ == old(self)@,
            changes_within(old(self)@.1, final(self)@.1, set![(t as nat, index as nat)]),
            r is Ok ==> table_position(old(self)@.1, t as nat, 0) < old(self)@.1.len(),
            table_entry(final(self)@.1, t as nat, index as nat) != table_entry(
                old(self)@.1,
                t as nat,
                index as nat,
            ) ==> r is Ok && table_position(old(self)@.1, r->Ok_0 as nat, 0) == old(self)@.1.len(),
    {
        let p = match self.position(t) {
            Some(p) => p,
            None => {
                return Err(MapErr::TableMissing);
            },
        };
        if self.tables[p].entries.len() != ENTRIES {
            return Err(MapErr::TableMissing);
        }
        let e = self.tables[p].entries[index];
        assert(table_entry(self@.1, t as nat, index as nat) == Some(e));
        if e % 2 == 1 {
            if (e / 0x80) % 2 == 1 {
                return Err(MapErr::HugePage);
            }
            return Ok((e / 4096) % 0x100_0000_0000);
        }
        let f = match alloc.allocate() {
            Ok(f) => f,
            Err(_) => {
                return Err(MapErr::OutOfFrames);
            },
        };
        if f.number >= 0x100_0000_0000 {
            return Err(MapErr::FrameTooLarge);
        }
        if self.position(f.number).is_some() {
            return Err(MapErr::FrameHoldsTable);
        }
        let zeros = zero_entries();
        let ghost s0 = self@.1;
        self.tables.push(Table { frame: f.number, entries: zeros });
        let ghost s1 = self@.1;
        assert(s1 =~= s0.push((f.number, zeros@)));
        assert forall|g: nat| table_position(s0, g, 0) < s0.len() implies #[trigger] table_position(
            s1,
            g,
            0,
        ) == table_position(s0, g, 0) by {
            lemma_table_position_push(s0, (f.number, zeros@), g, 0);
        }
        assert forall|g: nat, j: nat| table_position(s0, g, 0) < s0.len() implies #[trigger] table_entry(s1, g, j)
            == table_entry(s0, g, j) by {
            lemma_table_position_push(s0, (f.number, zeros@), g, 0);
            lemma_table_position_found(s0, g, 0);
        }
        let ne: u64 = f.number * 4096 + 3;
        assert(ne % 2 == 1 && (ne / 0x80) % 2 == 0 && (ne / 4096) % 0x100_0000_0000 == f.number)
            by (nonlinear_arith)
            requires
                ne == f.number * 4096 + 3,
                f.number < 0x100_0000_0000,
        ;
        proof {
            lemma_table_position_found(s0, t as nat, 0);
            lemma_table_position_push(s0, (f.number, zeros@), t as nat, 0);
        }
        proof {
            lemma_table_position_new(s0, (f.number, zeros@), 0);
            assert forall|j: nat| j < 512 implies #[trigger] table_entry(s1, f.number as nat, j) == Some(
                0u64,
            ) by {
                assert(s1[s0.len() as int].1[j as int] == 0u64);
            }
        }
        self.set_entry(p, index, ne);
        proof {
            Self::lemma_set_entry_frame(s1, self@.1, p as int, t as nat, index as nat, ne);
            let s2 = self@.1;
            assert forall|g: nat, j: nat| #[trigger] table_entry(s2, g, j) != table_entry(s0, g, j) implies set![
                (t as nat, index as nat)].contains((g, j)) || (table_position(s0, g, 0) == s0.len()
                && table_entry(s2, g, j) == Some(0u64)) by {
                if g != t || j != index {
                    if table_position(s0, g, 0) < s0.len() {
                        assert(table_entry(s1, g, j) == table_entry(s0, g, j));
                    } else if g != f.number {
                        lemma_table_position_found(s0, g, 0);
                        if table_position(s1, g, 0) < s1.len() {
                            lemma_table_position_found(s1, g, 0);
                            assert(s1[table_position(s1, g, 0)].0 == g);
                            assert(table_position(s1, g, 0) < s0.len() || table_position(s1, g, 0) == s0.len());
                            if table_position(s1, g, 0) < s0.len() {
                                assert(s0[table_position(s1, g, 0)].0 == g);
                                lemma_table_position_first(s0, g, 0, table_position(s1, g, 0));
                            }
                        }
                        assert(table_entry(s1, g, j) == table_entry(s0, g, j));
                    }
                }
            }
        }
        Ok(f.number)
    }
}

/// Every entry of the tables of `s1` is in `s2` as it was, or was not
/// present in `s1`.
pub open spec fn entries_kept(s1: Seq<(u64, Seq<u64>)>, s2: Seq<(u64, Seq<u64>)>) -> bool {
    forall|g: nat, j: nat|
        table_position(s1, g, 0) < s1.len() ==> (#[trigger] table_entry(s2, g, j) == table_entry(
            s1,
            g,
            j,
        ) || (table_entry(s1, g, j) matches Some(e) && !entry_present(e)))
}

/// A page that the walk maps keeps its frame when only entries that were
/// not present change.
proof fn lemma_walk_kept(root: u64, s1: Seq<(u64, Seq<u64>)>, s2: Seq<(u64, Seq<u64>)>, q: nat)
    requires
        walk(root, s1, q) is Some,
        entries_kept(s1, s2),
    ensures
        walk(root, s2, q) == walk(root, s1, q),
{
    reveal(walk);
    let e4 = table_entry(s1, root as nat, level_index(q, 4))->0;
    assert(table_entry(s2, root as nat, level_index(q, 4)) == Some(e4));
    let e3 = table_entry(s1, entry_frame(e4), level_index(q, 3))->0;
    assert(table_entry(s2, entry_frame(e4), level_index(q, 3)) == Some(e3));
    if !entry_huge(e3) {
        let e2 = table_entry(s1, entry_frame(e3), level_index(q, 2))->0;
        assert(table_entry(s2, entry_frame(e3), level_index(q, 2)) == Some(e2));
        if !entry_huge(e2) {
            let e1 = table_entry(s1, entry_frame(e2), level_index(q, 1))->0;
            assert(table_entry(s2, entry_frame(e2), level_index(q, 1)) == Some(e1));
        }
    }
}

/// The walk for page `q` reads entry `j` of the table in frame `g`.
pub open spec fn walk_reads(root: u64, tables: Seq<(u64, Seq<u64>)>, q: nat, g: nat, j: nat) -> bool {
    let e4 = table_entry(tables, root as nat, level_index(q, 4));
    let e3 = if e4 is Some && entry_present(e4->0) {
        table_entry(tables, entry_frame(e4->0), level_index(q, 3))
    } else {
        None
    };
    let e2 = if e3 is Some && entry_present(e3->0) && !entry_huge(e3->0) {
        table_entry(tables, entry_frame(e3->0), level_index(q, 2))
    } else {
        None
    };
    ||| (g == root && j == level_index(q, 4))
    ||| (e4 is Some && entry_present(e4->0) && g == entry_frame(e4->0) && j == level_index(q, 3))
    ||| (e3 is Some && entry_present(e3->0) && !entry_huge(e3->0) && g == entry_frame(e3->0) && j
        == level_index(q, 2))
    ||| (e2 is Some && entry_present(e2->0) && !entry_huge(e2->0) && g == entry_frame(e2->0) && j
        == level_index(q, 1))
}

/// A page whose walk does not read entry `i` of the table in frame `t`
/// keeps its translation when only that entry changes.
pub proof fn lemma_walk_other_entry(
    root: u64,
    s1: Seq<(u64, Seq<u64>)>,
    s2: Seq<(u64, Seq<u64>)>,
    q: nat,
    t: nat,
    i: nat,
)
    requires
        forall|g: nat, j: nat|
            (g != t || j != i) ==> #[trigger] table_entry(s2, g, j) == table_entry(s1, g, j),
        !walk_reads(root, s1, q, t, i),
    ensures
        walk(root, s2, q) == walk(root, s1, q),
{
    reveal(walk);
    let e4 = table_entry(s1, root as nat, level_index(q, 4));
    assert(table_entry(s2, root as nat, level_index(q, 4)) == e4);
    if e4 is Some && entry_present(e4->0) {
        let e3 = table_entry(s1, entry_frame(e4->0), level_index(q, 3));
        assert(table_entry(s2, entry_frame(e4->0), level_index(q, 3)) == e3);
        if e3 is Some && entry_present(e3->0) && !entry_huge(e3->0) {
            let e2 = table_entry(s1, entry_frame(e3->0), level_index(q, 2));
            assert(table_entry(s2, entry_frame(e3->0), level_index(q, 2)) == e2);
            if e2 is Some && entry_present(e2->0) && !entry_huge(e2->0) {
                assert(table_entry(s2, entry_frame(e2->0), level_index(q, 1)) == table_entry(
                    s1,
                    entry_frame(e2->0),
                    level_index(q, 1),
                ));
            }
        }
    }
}

/// A page whose page table entry is present keeps that entry when only
/// entries that were not present change.
pub proof fn lemma_page_entry_kept(root: u64, s1: Seq<(u64, Seq<u64>)>, s2: Seq<(u64, Seq<u64>)>, q: nat)
    requires
        entries_kept(s1, s2),
        page_entry(root, s1, q) is Some,
        entry_present(page_entry(root, s1, q)->0),
    ensures
        page_entry(root, s2, q) == page_entry(root, s1, q),
        page_table_of(root, s2, q) == page_table_of(root, s1, q),
{
    let e4 = table_entry(s1, root as nat, level_index(q, 4))->0;
    assert(table_entry(s2, root as nat, level_index(q, 4)) == Some(e4));
    let e3 = table_entry(s1, entry_frame(e4), level_index(q, 3))->0;
    assert(table_entry(s2, entry_frame(e4), level_index(q, 3)) == Some(e3));
    let e2 = table_entry(s1, entry_frame(e3), level_index(q, 2))->0;
    assert(table_entry(s2, entry_frame(e3), level_index(q, 2)) == Some(e2));
    let t1 = entry_frame(e2);
    let e1 = table_entry(s1, t1, level_index(q, 1))->0;
    assert(table_entry(s2, t1, level_index(q, 1)) == Some(e1));
}

/// Every page that the walk maps keeps its frame when only entries that
/// were not present change.
pub proof fn lemma_walks_kept(root: u64, s1: Seq<(u64, Seq<u64>)>, s2: Seq<(u64, Seq<u64>)>)
    requires
        entries_kept(s1, s2),
    ensures
        forall|q: nat| #[trigger] walk(root, s1, q) is Some ==> walk(root, s2, q) == walk(root, s1, q),
{
    assert forall|q: nat| #[trigger] walk(root, s1, q) is Some implies walk(root, s2, q) == walk(root, s1, q) by {
        lemma_walk_kept(root, s1, s2, q);
    }
}

/// `entries_kept` carries over two steps.
proof fn lemma_entries_kept_trans(s1: Seq<(u64, Seq<u64>)>, s2: Seq<(u64, Seq<u64>)>, s3: Seq<(u64, Seq<u64>)>)
    requires
        entries_kept(s1, s2),
        entries_kept(s2, s3),
        forall|g: nat| table_position(s1, g, 0) < s1.len() ==> #[trigger] table_position(s2, g, 0) < s2.len(),
    ensures
        entries_kept(s1, s3),
{
    assert forall|g: nat, j: nat| table_position(s1, g, 0) < s1.len() implies (#[trigger] table_entry(
        s3,
        g,
        j,
    ) == table_entry(s1, g, j) || (table_entry(s1, g, j) matches Some(e) && !entry_present(e))) by {
        assert(table_position(s2, g, 0) < s2.len());
        assert(table_entry(s2, g, j) == table_entry(s1, g, j) || (table_entry(s1, g, j) matches Some(e)
            && !entry_present(e)));
        assert(table_entry(s3, g, j) == table_entry(s2, g, j) || (table_entry(s2, g, j) matches Some(e)
            && !entry_present(e)));
    }
}

impl PageTables {
    /// The way to `page` down to its page table: each table on the way is
    /// made where missing, with frames from `alloc`. Gives the position and
    /// the frame of the page table. Refused when a table on the way is
    /// missing, an entry on the way maps a huge page, no frame is left for
    /// a table, or the way passes through the same table twice.
    fn map_path<A: FrameAllocator>(&mut self, page: VirtualPage, alloc: &mut A) -> (r: Result<
        (usize, u64),
        MapErr,
    >)
        requires
            old(alloc).inv(),
            old(alloc).allocates_frames(),
        ensures
            final(alloc).inv(),
            final(alloc).allocates_frames(),
            final(self).root == old(self).root,
            entries_kept(old(self)@.1, final(self)@.1),
            forall|g: nat|
                table_position(old(self)@.1, g, 0) < old(self)@.1.len() ==> #[trigger] table_position(
                    final(self)@.1,
                    g,
                    0,
                ) < final(self)@.1.len(),
            page_table_of(old(self)@.0, old(self)@.1, page.number as nat) matches Some(t1) ==> r
                == Ok::<(usize, u64), MapErr>(
                (table_position(old(self)@.1, t1, 0) as usize, t1 as u64),
            ) && final(self)@ == old(self)@,
            r is Ok ==> upper_way_changes(final(self)@.0, old(self)@.1, final(self)@.1, page.number as nat),
            r is Ok ==> table_position(old(self)@.1, final(self)@.0 as nat, 0) < old(self)@.1.len(),
            r is Ok ==> forall|g: nat|
                table_position(old(self)@.1, g, 0) < old(self)@.1.len() ==> #[trigger] table_position(
                    final(self)@.1,
                    g,
                    0,
                ) == table_position(old(self)@.1, g, 0),
            r is Ok ==> final(self)@.1.len() >= old(self)@.1.len(),
            r matches Ok((p, t1)) ==> {
                let n = page.number as nat;
                let s = final(self)@.1;
                &&& p < s.len()
                &&& p == table_position(s, t1 as nat, 0)
                &&& s[p as int].1.len() == 512
                &&& table_entry(s, final(self)@.0 as nat, level_index(n, 4)) matches Some(e4)
                &&& entry_present(e4) && !entry_huge(e4)
                &&& table_entry(s, entry_frame(e4), level_index(n, 3)) matches Some(e3)
                &&& entry_present(e3) && !entry_huge(e3)
                &&& table_entry(s, entry_frame(e3), level_index(n, 2)) matches Some(e2)
                &&& entry_present(e2) && !entry_huge(e2)
                &&& entry_frame(e2) == t1
                &&& t1 != final(self)@.0 && t1 != entry_frame(e4) && t1 != entry_frame(e3)
                &&& entry_frame(e4) != final(self)@.0 && entry_frame(e3) != final(self)@.0
                &&& entry_frame(e3) != entry_frame(e4)
            },
    {
        let n = page.number;
        let i4 = (n / 0x800_0000) % 512;
        let i3 = (n / 0x4_0000) % 512;
        let i2 = (n / 0x200) % 512;
        let root = self.root;
        let ghost s0 = self@.1;
        assert(level_index(n as nat, 4) == i4 && level_index(n as nat, 3) == i3 && level_index(
            n as nat,
            2,
        ) == i2);
        let t3 = match self.next_table(root, i4, alloc) {
            Ok(t) => t,
            Err(e) => {
                return Err(e);
            },
        };
        let ghost s1 = self@.1;
        if t3 == root {
            return Err(MapErr::Recursive);
        }
        let t2 = match self.next_table(t3, i3, alloc) {
            Ok(t) => t,
            Err(e) => {
                proof {
                    lemma_entries_kept_trans(s0, s1, self@.1);
                }
                return Err(e);
            },
        };
        let ghost s2 = self@.1;
        proof {
            lemma_entries_kept_trans(s0, s1, s2);
        }
        if t2 == root || t2 == t3 {
            return Err(MapErr::Recursive);
        }
        let t1 = match self.next_table(t2, i2, alloc) {
            Ok(t) => t,
            Err(e) => {
                proof {
                    assert forall|g: nat| table_position(s0, g, 0) < s0.len() implies #[trigger] table_position(
                        s2,
                        g,
                        0,
                    ) < s2.len() by {
                        assert(table_position(s1, g, 0) == table_position(s0, g, 0));
                    }
                    lemma_entries_kept_trans(s0, s2, self@.1);
                }
                return Err(e);
            },
        };
        let ghost s3 = self@.1;
        proof {
            assert forall|g: nat| table_position(s0, g, 0) < s0.len() implies #[trigger] table_position(
                s2,
                g,
                0,
            ) < s2.len() by {
                assert(table_position(s1, g, 0) == table_position(s0, g, 0));
            }
            lemma_entries_kept_trans(s0, s2, s3);
        }
        if t1 == root || t1 == t3 || t1 == t2 {
            return Err(MapErr::Recursive);
        }
        let p = match self.position(t1) {
            Some(p) => p,
            None => {
                return Err(MapErr::TableMissing);
            },
        };
        if self.tables[p].entries.len() != ENTRIES {
            return Err(MapErr::TableMissing);
        }
        proof {
            let e4 = table_entry(s1, root as nat, i4 as nat)->0;
            let e3 = table_entry(s2, t3 as nat, i3 as nat)->0;
            assert(table_entry(s2, root as nat, i4 as nat) == Some(e4));
            assert(table_entry(s3, root as nat, i4 as nat) == Some(e4));
            assert(table_entry(s3, t3 as nat, i3 as nat) == Some(e3));
            assert(level_index(n as nat, 4) == i4 && level_index(n as nat, 3) == i3 && level_index(
                n as nat,
                2,
            ) == i2);
            lemma_path_changes(root, s0, s1, s2, s3, n as nat, t3 as nat, t2 as nat, t1 as nat);
            assert forall|g: nat| table_position(s0, g, 0) < s0.len() implies #[trigger] table_position(
                s3,
                g,
                0,
            ) == table_position(s0, g, 0) by {
                assert(table_position(s1, g, 0) == table_position(s0, g, 0));
                assert(table_position(s2, g, 0) == table_position(s1, g, 0));
            }
        }
        Ok((p, t1))
    }

    /// Maps `page` to `frame`, with the flag bits of `flags`, present: the
    /// tables on the way are made where missing, with frames from `alloc`.
    ///
    /// Refused when a table on the way is missing, an entry on the way maps
    /// a huge page, no frame is left for a table, a frame number does not
    /// fit in an entry, the page's entry is in use, or the way passes
    /// through the same table twice. Once mapped, the walk for `page` gives
    /// `frame`.
    #[verifier::rlimit(40)]
    pub fn map<A: FrameAllocator>(
        &mut self,
        page: VirtualPage,
        frame: PhysicalPage,
        flags: u64,
        alloc: &mut A,
    ) -> (r: Result<(), MapErr>)
        requires
            old(alloc).inv(),
            old(alloc).allocates_frames(),
        ensures
            final(alloc).inv(),
            final(alloc).allocates_frames(),
            final(self).root == old(self).root,
            r is Ok ==> walk(final(self)@.0, final(self)@.1, page.number as nat) == Some(
                frame.number as nat,
            ),
            r is Ok ==> page_entry(final(self)@.0, final(self)@.1, page.number as nat) == Some(
                entry_for(frame.number as nat, flags) as u64,
            ),
            entries_kept(old(self)@.1, final(self)@.1),
            r is Ok ==> entry_present(entry_for(frame.number as nat, flags) as u64),
            r is Ok ==> mapped_way(final(self)@.0, old(self)@.1, final(self)@.1, page.number as nat),
            r is Ok ==> forall|q: nat|
                #[trigger] parts_cleanly(final(self)@.0, final(self)@.1, q, page.number as nat) ==> walk(
                    final(self)@.0,
                    final(self)@.1,
                    q,
                ) == walk(old(self)@.0, old(self)@.1, q),
            forall|q: nat|
                #[trigger] walk(old(self)@.0, old(self)@.1, q) is Some ==> walk(
                    final(self)@.0,
                    final(self)@.1,
                    q,
                ) == walk(old(self)@.0, old(self)@.1, q),
            frame.number >= 0x100_0000_0000 ==> r == Err::<(), MapErr>(MapErr::FrameTooLarge)
                && final(self)@ == old(self)@,
            frame.number < 0x100_0000_0000 && page_table_of(
                old(self)@.0,
                old(self)@.1,
                page.number as nat,
            ) is Some ==> if page_entry(old(self)@.0, old(self)@.1, page.number as nat) == Some(
                0u64,
            ) {
                r is Ok
            } else {
                r == Err::<(), MapErr>(MapErr::InUse) && final(self)@ == old(self)@
            },
    {
        if frame.number >= 0x100_0000_0000 {
            return Err(MapErr::FrameTooLarge);
        }
        let n = page.number;
        let i1 = n % 512;
        let ghost s0 = self@.1;
        let (p, t1) = match self.map_path(page, alloc) {
            Ok(x) => x,
            Err(e) => {
                proof {
                    lemma_walks_kept(self.root, s0, self@.1);
                }
                return Err(e);
            },
        };
        proof {
            assert(level_index(n as nat, 1) == i1);
            lemma_table_position_found(self@.1, t1 as nat, 0);
        }
        if self.tables[p].entries[i1] != 0 {
            proof {
                lemma_walks_kept(self.root, s0, self@.1);
            }
            return Err(MapErr::InUse);
        }
        let low = flags % 4096;
        let low = if low % 2 == 1 { low } else { low + 1 };
        let high = flags / 0x10_0000_0000_0000;
        let e: u64 = frame.number * 4096 + low + high * 0x10_0000_0000_0000;
        assert(e % 2 == 1 && (e / 4096) % 0x100_0000_0000 == frame.number) by (nonlinear_arith)
            requires
                e == frame.number * 4096 + low + high * 0x10_0000_0000_0000,
                low < 4096,
                low % 2 == 1,
                high < 4096,
                frame.number < 0x100_0000_0000,
        {
            assert(e == (frame.number + high * 0x100_0000_0000) * 4096 + low);
            assert(e / 4096 == frame.number + high * 0x100_0000_0000);
        }
        assert(e == entry_for(frame.number as nat, flags));
        let ghost s3 = self@.1;
        proof {
            lemma_table_position_found(s3, t1 as nat, 0);
            assert(level_index(n as nat, 1) == i1);
        }
        self.set_entry(p, i1, e);
        proof {
            Self::lemma_map_write(self.root, s0, s3, self@.1, n as nat, p as int, t1, e);
        }
        Ok(())
    }

    /// Writing the entry `e` (present, for frame `frame`) into the page
    /// table at the end of the way to page `n`, where there was no entry:
    /// the walk for `n` then gives `frame`, and every page that was mapped
    /// keeps its frame.
    proof fn lemma_map_write(
        root: u64,
        s0: Seq<(u64, Seq<u64>)>,
        s3: Seq<(u64, Seq<u64>)>,
        s4: Seq<(u64, Seq<u64>)>,
        n: nat,
        p: int,
        t1: u64,
        e: u64,
    )
        requires
            entries_kept(s0, s3),
            0 <= p < s3.len(),
            p == table_position(s3, t1 as nat, 0),
            s3[p].1.len() == 512,
            ({
                &&& table_entry(s3, root as nat, level_index(n, 4)) matches Some(e4)
                &&& entry_present(e4) && !entry_huge(e4)
                &&& table_entry(s3, entry_frame(e4), level_index(n, 3)) matches Some(e3)
                &&& entry_present(e3) && !entry_huge(e3)
                &&& table_entry(s3, entry_frame(e3), level_index(n, 2)) matches Some(e2)
                &&& entry_present(e2) && !entry_huge(e2)
                &&& entry_frame(e2) == t1
                &&& t1 != root && t1 != entry_frame(e4) && t1 != entry_frame(e3)
                &&& entry_frame(e4) != root && entry_frame(e3) != root
                &&& entry_frame(e3) != entry_frame(e4)
            }),
            s3[p].1[level_index(n, 1) as int] == 0,
            forall|g: nat|
                table_position(s0, g, 0) < s0.len() ==> #[trigger] table_position(s3, g, 0) < s3.len(),
            s4 == s3.update(p, (s3[p].0, s3[p].1.update(level_index(n, 1) as int, e))),
            entry_present(e),
            upper_way_changes(root, s0, s3, n),
            table_position(s0, root as nat, 0) < s0.len(),
            forall|g: nat|
                table_position(s0, g, 0) < s0.len() ==> #[trigger] table_position(s3, g, 0)
                    == table_position(s0, g, 0),
            s3.len() >= s0.len(),
        ensures
            mapped_way(root, s0, s4, n),
            forall|q: nat|
                #[trigger] parts_cleanly(root, s4, q, n) ==> walk(root, s4, q) == walk(root, s0, q),
            walk(root, s4, n) == Some(entry_frame(e)),
            page_entry(root, s4, n) == Some(e),
            entries_kept(s0, s4),
            forall|q: nat|
                #[trigger] walk(root, s0, q) is Some ==> walk(root, s4, q) == walk(root, s0, q),
    {
        reveal(walk);
        Self::lemma_set_entry_frame(s3, s4, p, t1 as nat, level_index(n, 1), e);
        lemma_table_position_found(s3, t1 as nat, 0);
        assert(table_entry(s3, t1 as nat, level_index(n, 1)) == Some(0u64));
        assert(entries_kept(s3, s4));
        lemma_entries_kept_trans(s0, s3, s4);
        assert forall|q: nat| #[trigger] walk(root, s0, q) is Some implies walk(root, s4, q) == walk(
            root,
            s0,
            q,
        ) by {
            lemma_walk_kept(root, s0, s4, q);
        }
        reveal_with_fuel(way_frame, 4);
        let (j4, j3, j2, j1) = (level_index(n, 4), level_index(n, 3), level_index(n, 2), level_index(n, 1));
        let a3 = way_frame(root, s4, n, 3);
        let a2 = way_frame(root, s4, n, 2);
        assert(table_entry(s4, root as nat, j4) == table_entry(s3, root as nat, j4));
        assert(table_entry(s4, a3, j3) == table_entry(s3, a3, j3));
        assert(table_entry(s4, a2, j2) == table_entry(s3, a2, j2));
        assert(way_frame(root, s4, n, 1) == t1);
        let up = set![(root as nat, j4), (a3, j3), (a2, j2)];
        assert(changes_within(s3, s4, set![(t1 as nat, j1)]));
        lemma_changes_trans(s0, s3, s4, up, set![(t1 as nat, j1)]);
        assert(up.union(set![(t1 as nat, j1)]) =~= way_positions(root, s4, n));
        assert(mapped_way(root, s0, s4, n));
        assert forall|q: nat| #[trigger] parts_cleanly(root, s4, q, n) implies walk(root, s4, q) == walk(
            root,
            s0,
            q,
        ) by {
            lemma_parts_kept(root, s0, s4, n, q);
        }
    }

    /// The position of the page table that maps `page` through a page
    /// table entry, and the frame of that table, when the way there passes
    /// through no table twice.
    fn find_page_table(&self, page: VirtualPage) -> (r: Result<(usize, u64), MapErr>)
        ensures
            r is Ok <==> page_table_of(self@.0, self@.1, page.number as nat) is Some,
            r matches Ok((p, t1)) ==> page_table_of(self@.0, self@.1, page.number as nat) == Some(
                t1 as nat,
            ),
            r matches Ok((p, t1)) ==> {
                let n = page.number as nat;
                let s = self@.1;
                &&& p < s.len()
                &&& p == table_position(s, t1 as nat, 0)
                &&& s[p as int].1.len() == 512
                &&& table_entry(s, self@.0 as nat, level_index(n, 4)) matches Some(e4)
                &&& entry_present(e4)
                &&& table_entry(s, entry_frame(e4), level_index(n, 3)) matches Some(e3)
                &&& entry_present(e3) && !entry_huge(e3)
                &&& table_entry(s, entry_frame(e3), level_index(n, 2)) matches Some(e2)
                &&& entry_present(e2) && !entry_huge(e2)
                &&& entry_frame(e2) == t1
                &&& t1 != self@.0 && t1 != entry_frame(e4) && t1 != entry_frame(e3)
            },
    {
        let n = page.number;
        let i4 = (n / 0x800_0000) % 512;
        let i3 = (n / 0x4_0000) % 512;
        let i2 = (n / 0x200) % 512;
        let root = self.root;
        let e4 = match self.entry(root, i4) {
            Some(e) if e % 2 == 1 => e,
            _ => {
                return Err(MapErr::NotMapped);
            },
        };
        if (e4 / 0x80) % 2 == 1 {
            return Err(MapErr::HugePage);
        }
        let t3 = (e4 / 4096) % 0x100_0000_0000;
        if t3 == root {
            return Err(MapErr::Recursive);
        }
        let e3 = match self.entry(t3, i3) {
            Some(e) if e % 2 == 1 => e,
            _ => {
                return Err(MapErr::NotMapped);
            },
        };
        if (e3 / 0x80) % 2 == 1 {
            return Err(MapErr::HugePage);
        }
        let t2 = (e3 / 4096) % 0x100_0000_0000;
        if t2 == root || t2 == t3 {
            return Err(MapErr::Recursive);
        }
        let e2 = match self.entry(t2, i2) {
            Some(e) if e % 2 == 1 => e,
            _ => {
                return Err(MapErr::NotMapped);
            },
        };
        if (e2 / 0x80) % 2 == 1 {
            return Err(MapErr::HugePage);
        }
        let t1 = (e2 / 4096) % 0x100_0000_0000;
        if t1 == root || t1 == t3 || t1 == t2 {
            return Err(MapErr::Recursive);
        }
        let p = match self.position(t1) {
            Some(p) => p,
            None => {
                return Err(MapErr::NotMapped);
            },
        };
        if self.tables[p].entries.len() != ENTRIES {
            return Err(MapErr::NotMapped);
        }
        Ok((p, t1))
    }

    /// Unmaps `page`, giving back the frame it mapped to.
    ///
    /// Refused when the page is not mapped through a page table entry (a
    /// table on the way is missing, an entry is not present or maps a huge
    /// page) or the way passes through the same table twice. Once unmapped,
    /// the walk for `page` gives nothing.
    pub fn unmap(&mut self, page: VirtualPage) -> (r: Result<PhysicalPage, MapErr>)
        ensures
            final(self).root == old(self).root,
            r matches Ok(f) ==> walk(old(self)@.0, old(self)@.1, page.number as nat) == Some(
                f.number as nat,
            ) && walk(final(self)@.0, final(self)@.1, page.number as nat) is None,
            r is Err ==> final(self)@ == old(self)@,
            r is Ok <==> (page_entry(old(self)@.0, old(self)@.1, page.number as nat) is Some
                && entry_present(page_entry(old(self)@.0, old(self)@.1, page.number as nat)->0)),
            r is Ok ==> forall|q: nat|
                !walk_reads(
                    old(self)@.0,
                    old(self)@.1,
                    q,
                    page_table_of(old(self)@.0, old(self)@.1, page.number as nat)->0,
                    level_index(page.number as nat, 1),
                ) ==> #[trigger] walk(final(self)@.0, final(self)@.1, q) == walk(
                    old(self)@.0,
                    old(self)@.1,
                    q,
                ),
    {
        let n = page.number;
        let i1 = n % 512;
        let found = self.find_page_table(page);
        match found {
            Err(e) => Err(e),
            Ok((p, t1)) => {
                let e1 = self.tables[p].entries[i1];
                proof {
                    lemma_table_position_found(self@.1, t1 as nat, 0);
                    assert(level_index(n as nat, 1) == i1);
                    assert(table_entry(self@.1, t1 as nat, i1 as nat) == Some(e1));
                }
                if e1 % 2 != 1 {
                    return Err(MapErr::NotMapped);
                }
                let ghost s0 = self@.1;
                proof {
                    reveal(walk);
                    lemma_table_position_found(s0, t1 as nat, 0);
                    assert(table_entry(s0, t1 as nat, i1 as nat) == Some(e1));
                    assert(level_index(n as nat, 1) == i1);
                }
                self.set_entry(p, i1, 0);
                proof {
                    Self::lemma_set_entry_frame(s0, self@.1, p as int, t1 as nat, i1 as nat, 0);
                    assert forall|q: nat|
                        !walk_reads(self.root, s0, q, t1 as nat, i1 as nat) implies #[trigger] walk(
                        self.root,
                        self@.1,
                        q,
                    ) == walk(self.root, s0, q) by {
                        lemma_walk_other_entry(self.root, s0, self@.1, q, t1 as nat, i1 as nat);
                    }
                }
                Ok(PhysicalPage { number: (e1 / 4096) % 0x100_0000_0000 })
            },
        }
    }

    /// Maps `page` to a frame taken from `alloc`, giving that frame.
    pub fn map_to_any<A: FrameAllocator>(&mut self, page: VirtualPage, flags: u64, alloc: &mut A) -> (r:
        Result<PhysicalPage, MapErr>)
        requires
            old(alloc).inv(),
            old(alloc).allocates_frames(),
        ensures
            final(alloc).inv(),
            final(alloc).allocates_frames(),
            final(self).root == old(self).root,
            r matches Ok(f) ==> walk(final(self)@.0, final(self)@.1, page.number as nat) == Some(
                f.number as nat,
            ),
            r matches Ok(f) ==> page_entry(final(self)@.0, final(self)@.1, page.number as nat) == Some(
                entry_for(f.number as nat, flags) as u64,
            ),
            entries_kept(old(self)@.1, final(self)@.1),
            r matches Ok(f) ==> entry_present(entry_for(f.number as nat, flags) as u64),
            r is Ok ==> mapped_way(final(self)@.0, old(self)@.1, final(self)@.1, page.number as nat),
            forall|q: nat|
                #[trigger] walk(old(self)@.0, old(self)@.1, q) is Some ==> walk(
                    final(self)@.0,
                    final(self)@.1,
                    q,
                ) == walk(old(self)@.0, old(self)@.1, q),
    {
        let frame = match alloc.allocate() {
            Ok(f) => f,
            Err(_) => {
                return Err(MapErr::OutOfFrames);
            },
        };
        match self.map(page, frame, flags, alloc) {
            Ok(()) => Ok(frame),
            Err(e) => Err(e),
        }
    }

    /// Maps the page at the address where `frame` starts to `frame`.
    pub fn identity_map<A: FrameAllocator>(
        &mut self,
        frame: PhysicalPage,
        flags: u64,
        alloc: &mut A,
    ) -> (r: Result<(), MapErr>)
        requires
            frame.number <= usize::MAX,
            old(alloc).inv(),
            old(alloc).allocates_frames(),
        ensures
            final(alloc).inv(),
            final(alloc).allocates_frames(),
            final(self).root == old(self).root,
            r is Ok ==> walk(final(self)@.0, final(self)@.1, frame.number as nat) == Some(
                frame.number as nat,
            ),
            r is Ok ==> page_entry(final(self)@.0, final(self)@.1, frame.number as nat) == Some(
                entry_for(frame.number as nat, flags) as u64,
            ),
            entries_kept(old(self)@.1, final(self)@.1),
            r is Ok ==> entry_present(entry_for(frame.number as nat, flags) as u64),
            forall|q: nat|
                #[trigger] walk(old(self)@.0, old(self)@.1, q) is Some ==> walk(
                    final(self)@.0,
                    final(self)@.1,
                    q,
                ) == walk(old(self)@.0, old(self)@.1, q),
            frame.number >= 0x100_0000_0000 ==> r == Err::<(), MapErr>(MapErr::FrameTooLarge)
                && final(self)@ == old(self)@,
            frame.number < 0x100_0000_0000 && page_table_of(
                old(self)@.0,
                old(self)@.1,
                frame.number as nat,
            ) is Some ==> if page_entry(old(self)@.0, old(self)@.1, frame.number as nat) == Some(
                0u64,
            ) {
                r is Ok
            } else {
                r == Err::<(), MapErr>(MapErr::InUse) && final(self)@ == old(self)@
            },
    {
        self.map(VirtualPage { number: frame.number as usize }, frame, flags, alloc)
    }
}

/// Page `q` parts cleanly from every page from `lo` up to `hi` (exclusive).
pub open spec fn parts_from_range(root: u64, s: Seq<(u64, Seq<u64>)>, q: nat, lo: nat, hi: nat) -> bool {
    forall|k: nat| lo <= k < hi ==> #[trigger] parts_cleanly(root, s, q, k)
}

/// Page `q` is mapped to a frame by a present, writable page table entry
/// for that frame, with no other flag set.
pub open spec fn writable_mapped(root: u64, tables: Seq<(u64, Seq<u64>)>, q: nat) -> bool {
    &&& walk(root, tables, q) is Some
    &&& page_entry(root, tables, q) == Some(
        entry_for(walk(root, tables, q)->0, WRITABLE) as u64,
    )
    &&& entry_present(page_entry(root, tables, q)->0)
}

impl PageTables {
    /// Maps each page of a stack, from its first page to its last, to a
    /// frame taken from `alloc`, writable. Once done, every page of the
    /// stack is mapped by a writable entry, and every page that was mapped
    /// still maps to its frame. A stack without pages maps nothing.
    pub fn map_stack<A: FrameAllocator>(&mut self, stack: &StackPages, alloc: &mut A) -> (r: Result<
        (),
        MapErr,
    >)
        requires
            old(alloc).inv(),
            old(alloc).allocates_frames(),
        ensures
            final(alloc).inv(),
            final(alloc).allocates_frames(),
            final(self).root == old(self).root,
            stack.end_page.number < stack.start_page.number ==> r is Ok && final(self)@ == old(self)@,
            r is Ok ==> forall|q: nat|
                stack.start_page.number <= q <= stack.end_page.number ==> #[trigger] writable_mapped(
                    final(self)@.0,
                    final(self)@.1,
                    q,
                ),
            r is Ok ==> forall|q: nat|
                #[trigger] walk(old(self)@.0, old(self)@.1, q) is Some ==> walk(
                    final(self)@.0,
                    final(self)@.1,
                    q,
                ) == walk(old(self)@.0, old(self)@.1, q),
            r is Ok ==> forall|q: nat|
                #[trigger] parts_from_range(
                    final(self)@.0,
                    final(self)@.1,
                    q,
                    stack.start_page.number as nat,
                    (stack.end_page.number + 1) as nat,
                ) ==> walk(final(self)@.0, final(self)@.1, q) == walk(old(self)@.0, old(self)@.1, q),
    {
        let first = stack.start_page.number;
        let last = stack.end_page.number;
        if last < first {
            return Ok(());
        }
        let mut n = first;
        loop
            invariant
                first <= n <= last,
                first == stack.start_page.number,
                last == stack.end_page.number,
                alloc.inv(),
                alloc.allocates_frames(),
                self.root == old(self).root,
                forall|q: nat| first <= q < n ==> #[trigger] writable_mapped(self@.0, self@.1, q),
                forall|q: nat|
                    #[trigger] walk(old(self)@.0, old(self)@.1, q) is Some ==> walk(self@.0, self@.1, q)
                        == walk(old(self)@.0, old(self)@.1, q),
                forall|q: nat|
                    #[trigger] parts_from_range(self@.0, self@.1, q, first as nat, n as nat) ==> walk(
                        self@.0,
                        self@.1,
                        q,
                    ) == walk(old(self)@.0, old(self)@.1, q),
            decreases last - n,
        {
            let ghost before = self@;
            match self.map_to_any(VirtualPage { number: n }, WRITABLE, alloc) {
                Ok(_) => {},
                Err(e) => {
                    return Err(e);
                },
            }
            proof {
                Self::lemma_stack_step(old(self)@, before, self@, first as nat, n as nat);
                Self::lemma_stack_parts_step(old(self)@, before, self@, first as nat, n as nat);
            }
            if n == last {
                return Ok(());
            }
            n = n + 1;
            proof {
                assert forall|q: nat| #[trigger] parts_from_range(self@.0, self@.1, q, first as nat, n as nat)
                    implies walk(self@.0, self@.1, q) == walk(old(self)@.0, old(self)@.1, q) by {
                    assert(parts_from_range(self@.0, self@.1, q, first as nat, ((n - 1) as nat + 1) as nat));
                }
            }
        }
    }

    proof fn lemma_stack_parts_step(
        s0: (u64, Seq<(u64, Seq<u64>)>),
        s1: (u64, Seq<(u64, Seq<u64>)>),
        s2: (u64, Seq<(u64, Seq<u64>)>),
        first: nat,
        n: nat,
    )
        requires
            first <= n,
            s0.0 == s1.0,
            s1.0 == s2.0,
            forall|q: nat| first <= q < n ==> #[trigger] writable_mapped(s1.0, s1.1, q),
            forall|q: nat|
                #[trigger] parts_from_range(s1.0, s1.1, q, first, n) ==> walk(s1.0, s1.1, q) == walk(
                    s0.0,
                    s0.1,
                    q,
                ),
            mapped_way(s2.0, s1.1, s2.1, n),
        ensures
            forall|q: nat|
                #[trigger] parts_from_range(s2.0, s2.1, q, first, n + 1) ==> walk(s2.0, s2.1, q) == walk(
                    s0.0,
                    s0.1,
                    q,
                ),
    {
        assert forall|q: nat| #[trigger] parts_from_range(s2.0, s2.1, q, first, n + 1) implies walk(
            s2.0,
            s2.1,
            q,
        ) == walk(s0.0, s0.1, q) by {
            assert(parts_cleanly(s2.0, s2.1, q, n));
            lemma_parts_kept(s2.0, s1.1, s2.1, n, q);
            assert forall|k: nat| first <= k < n implies #[trigger] parts_cleanly(s1.0, s1.1, q, k) by {
                assert(writable_mapped(s1.0, s1.1, k));
                assert(parts_cleanly(s2.0, s2.1, q, k));
                lemma_parts_back(s1.0, s1.1, s2.1, k, q);
            }
            assert(parts_from_range(s1.0, s1.1, q, first, n));
        }
    }

    proof fn lemma_stack_step(
        s0: (u64, Seq<(u64, Seq<u64>)>),
        s1: (u64, Seq<(u64, Seq<u64>)>),
        s2: (u64, Seq<(u64, Seq<u64>)>),
        first: nat,
        n: nat,
    )
        requires
            s1.0 == s2.0,
            forall|q: nat| first <= q < n ==> #[trigger] writable_mapped(s1.0, s1.1, q),
            forall|q: nat| #[trigger] walk(s0.0, s0.1, q) is Some ==> walk(s1.0, s1.1, q) == walk(s0.0, s0.1, q),
            writable_mapped(s2.0, s2.1, n),
            entries_kept(s1.1, s2.1),
            forall|q: nat| #[trigger] walk(s1.0, s1.1, q) is Some ==> walk(s2.0, s2.1, q) == walk(s1.0, s1.1, q),
        ensures
            forall|q: nat| first <= q <= n ==> #[trigger] writable_mapped(s2.0, s2.1, q),
            forall|q: nat| #[trigger] walk(s0.0, s0.1, q) is Some ==> walk(s2.0, s2.1, q) == walk(s0.0, s0.1, q),
    {
        assert forall|q: nat| first <= q <= n implies #[trigger] writable_mapped(s2.0, s2.1, q) by {
            if q < n {
                assert(writable_mapped(s1.0, s1.1, q));
                lemma_page_entry_kept(s1.0, s1.1, s2.1, q);
            }
        }
        assert forall|q: nat| #[trigger] walk(s0.0, s0.1, q) is Some implies walk(s2.0, s2.1, q) == walk(s0.0, s0.1, q) by {
            assert(walk(s1.0, s1.1, q) is Some);
        }
    }
}

/// Frame `f` is mapped to itself by a present page table entry with the
/// flag bits of `flags`.
pub open spec fn identity_mapped_with(root: u64, tables: Seq<(u64, Seq<u64>)>, f: nat, flags: u64) -> bool {
    &&& walk(root, tables, f) == Some(f)
    &&& page_entry(root, tables, f) == Some(entry_for(f, flags) as u64)
    &&& entry_present(entry_for(f, flags) as u64)
}

/// The top table's last entry, which maps the tables themselves: present
/// and writable, for the top table's own frame.
pub open spec fn recursive_entry(root: u64) -> int {
    root * 4096 + 3
}

/// 512 zero entries.
fn zero_entries() -> (r: Vec<u64>)
    ensures
        r@ == Seq::new(512, |i: int| 0u64),
{
    let mut v: Vec<u64> = Vec::new();
    while v.len() < ENTRIES
        invariant
            v@.len() <= 512,
            v@ == Seq::new(v@.len(), |i: int| 0u64),
        decreases 512 - v@.len(),
    {
        v.push(0);
    }
    v
}

/// Builds the page tables that remap the kernel: a new top table in
/// `new_root`, whose last entry maps the tables themselves, and the
/// identity mappings of `remap_plan`, each frame with its flags, with
/// tables made from frames of `frames`. The frame of the old top table,
/// `old_root`, is left unmapped as a guard page.
///
/// Refused when a mapping is refused (a frame listed twice among them
/// too), a frame number does not fit in an entry or a page, or the guard
/// page ends up mapped through another page's entries.
pub fn remap_tables<A: FrameAllocator>(
    sections: &[Section],
    mb_start: u64,
    mb_end: u64,
    new_root: PhysicalPage,
    old_root: PhysicalPage,
    frames: &mut A,
) -> (r: Result<PageTables, MapErr>)
    requires
        sections_remappable(sections@),
        old(frames).inv(),
        old(frames).allocates_frames(),
    ensures
        final(frames).inv(),
        final(frames).allocates_frames(),
        r matches Ok(t) ==> {
            let plan = remap_plan_spec(sections@, mb_start, mb_end);
            &&& t@.0 == new_root.number
            &&& table_entry(t@.1, new_root.number as nat, 511) == Some(
                recursive_entry(new_root.number) as u64,
            )
            &&& forall|i: int|
                0 <= i < plan.len() && plan[i].0.number != old_root.number
                    ==> #[trigger] identity_mapped_with(
                    t@.0,
                    t@.1,
                    plan[i].0.number as nat,
                    plan[i].1,
                )
            &&& walk(t@.0, t@.1, old_root.number as nat) is None
        },
{
    let plan = remap_plan(sections, mb_start, mb_end);
    if new_root.number >= 0x100_0000_0000 {
        return Err(MapErr::FrameTooLarge);
    }
    let mut entries = zero_entries();
    let rec: u64 = new_root.number * 4096 + 3;
    entries.set(511, rec);
    let mut t = PageTables {
        root: new_root.number,
        tables: vec![Table { frame: new_root.number, entries }],
    };
    proof {
        assert(t@.1[0].0 == new_root.number);
        assert(table_position(t@.1, new_root.number as nat, 0) == 0);
        assert(rec % 2 == 1);
    }
    let mut k: usize = 0;
    while k < plan.len()
        invariant
            k <= plan@.len(),
            plan@ == remap_plan_spec(sections@, mb_start, mb_end),
            frames.inv(),
            frames.allocates_frames(),
            t@.0 == new_root.number,
            table_entry(t@.1, new_root.number as nat, 511) == Some(rec),
            rec == recursive_entry(new_root.number),
            rec % 2 == 1,
            forall|i: int|
                0 <= i < k && plan@[i].0.number != old_root.number
                    ==> #[trigger] identity_mapped_with(
                    t@.0,
                    t@.1,
                    plan@[i].0.number as nat,
                    plan@[i].1,
                ),
        decreases plan@.len() - k,
    {
        let (f, fl) = plan[k];
        if f.number != old_root.number {
            if f.number > usize::MAX as u64 {
                return Err(MapErr::FrameTooLarge);
            }
            let ghost before = t@;
            match t.identity_map(f, fl, frames) {
                Ok(()) => {},
                Err(e) => {
                    return Err(e);
                },
            }
            proof {
                assert(table_entry(before.1, new_root.number as nat, 511) == Some(rec));
                assert forall|i: int|
                    0 <= i < k + 1 && plan@[i].0.number != old_root.number
                        implies #[trigger] identity_mapped_with(
                    t@.0,
                    t@.1,
                    plan@[i].0.number as nat,
                    plan@[i].1,
                ) by {
                    if i < k {
                        let g = plan@[i].0.number as nat;
                        assert(identity_mapped_with(before.0, before.1, g, plan@[i].1));
                        lemma_page_entry_kept(before.0, before.1, t@.1, g);
                        assert(walk(before.0, before.1, g) is Some);
                    }
                }
            }
        }
        k = k + 1;
    }
    if old_root.number > usize::MAX as u64 {
        return Err(MapErr::FrameTooLarge);
    }
    if t.is_mapped(VirtualPage { number: old_root.number as usize }) {
        return Err(MapErr::GuardMapped);
    }
    Ok(t)
}

} // verus!
