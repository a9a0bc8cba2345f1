//! The Multiboot 2 tag that lists the kernel's 64-bit ELF sections.
use vstd::prelude::*;
use crate::bytes::{le32, le64, le_bytes, lemma_le32_of_bytes, lemma_le64_of_bytes, read_u32, read_u64};
use super::{Info, Tag, TagType, find_tag, tag_len, tags_ok, lemma_find_tag};

verus! {

/// The size of a section entry as the tag lays it out.
pub const SECTION_LEN: usize = 56;

/// The ELF sections tag: the number of sections, the size of each entry,
/// and the index of the string table section. The entries follow, 20
/// bytes into the tag.
#[derive(Clone, Copy, PartialEq, Eq, Structural, Debug)]
pub struct SectionsTag {
    pub tag: Tag,
    pub n_sections: u32,
    pub section_size: u32,
    pub stringtable_idx: u32,
}

/// A 64-bit ELF section entry.
#[derive(Clone, Copy, PartialEq, Eq, Structural, Debug)]
pub struct Section {
    pub name: u32,
    pub ty: u32,
    pub flags: u64,
    pub address: u64,
    pub offset: u64,
    pub length: u64,
    pub link: u32,
    pub address_align: u32,
    pub entry_length: u64,
}

/// The section entry at `o`.
pub open spec fn section_at(b: Seq<u8>, o: int) -> Section {
    Section {
        name: le32(b, o) as u32,
        ty: le32(b, o + 4) as u32,
        flags: le64(b, o + 8) as u64,
        address: le64(b, o + 16) as u64,
        offset: le64(b, o + 24) as u64,
        length: le64(b, o + 32) as u64,
        link: le32(b, o + 40) as u32,
        address_align: le32(b, o + 44) as u32,
        entry_length: le64(b, o + 48) as u64,
    }
}

/// The 56 bytes of an ELF64 section header holding `s`: name (4 bytes),
/// type (4), flags (8), address (8), offset (8), length (8), link (4),
/// alignment (4) and entry size (8), each least significant byte first.
pub open spec fn section_image(s: Section) -> Seq<u8> {
    le_bytes(s.name as nat, 4) + le_bytes(s.ty as nat, 4) + le_bytes(s.flags as nat, 8) + le_bytes(
        s.address as nat,
        8,
    ) + le_bytes(s.offset as nat, 8) + le_bytes(s.length as nat, 8) + le_bytes(s.link as nat, 4)
        + le_bytes(s.address_align as nat, 4) + le_bytes(s.entry_length as nat, 8)
}

/// Each field of an entry is read at its own place in the ELF64 section
/// header (name at bytes 0..4, type 4..8, flags 8..16, address 16..24, offset
/// 24..32, length 32..40, link 40..44, alignment 44..48, entry size 48..56):
/// an entry whose bytes hold a section reads back as that section.
pub proof fn lemma_section_at_reads_fields(b: Seq<u8>, o: int, s: Section)
    requires
        0 <= o,
        o + SECTION_LEN <= b.len(),
        b.subrange(o, o + 56) == section_image(s),
    ensures
        section_at(b, o) == s,
{
    let img = section_image(s);
    assert(img.len() == 56);
    assert(b.subrange(o, o + 4) =~= le_bytes(s.name as nat, 4)) by {
        assert forall|i: int| 0 <= i < 4 implies #[trigger] b.subrange(o, o + 4)[i] == img[i] by {
            assert(b.subrange(o, o + 56)[i] == b[o + i]);
        }
    }
    assert(b.subrange(o + 4, o + 8) =~= le_bytes(s.ty as nat, 4)) by {
        assert forall|i: int| 0 <= i < 4 implies #[trigger] b.subrange(o + 4, o + 8)[i] == img[4 + i] by {
            assert(b.subrange(o, o + 56)[4 + i] == b[o + 4 + i]);
        }
    }
    assert(b.subrange(o + 8, o + 16) =~= le_bytes(s.flags as nat, 8)) by {
        assert forall|i: int| 0 <= i < 8 implies #[trigger] b.subrange(o + 8, o + 16)[i] == img[8 + i] by {
            assert(b.subrange(o, o + 56)[8 + i] == b[o + 8 + i]);
        }
    }
    assert(b.subrange(o + 16, o + 24) =~= le_bytes(s.address as nat, 8)) by {
        assert forall|i: int| 0 <= i < 8 implies #[trigger] b.subrange(o + 16, o + 24)[i] == img[16 + i] by {
            assert(b.subrange(o, o + 56)[16 + i] == b[o + 16 + i]);
        }
    }
    assert(b.subrange(o + 24, o + 32) =~= le_bytes(s.offset as nat, 8)) by {
        assert forall|i: int| 0 <= i < 8 implies #[trigger] b.subrange(o + 24, o + 32)[i] == img[24 + i] by {
            assert(b.subrange(o, o + 56)[24 + i] == b[o + 24 + i]);
        }
    }
    assert(b.subrange(o + 32, o + 40) =~= le_bytes(s.length as nat, 8)) by {
        assert forall|i: int| 0 <= i < 8 implies #[trigger] b.subrange(o + 32, o + 40)[i] == img[32 + i] by {
            assert(b.subrange(o, o + 56)[32 + i] == b[o + 32 + i]);
        }
    }
    assert(b.subrange(o + 40, o + 44) =~= le_bytes(s.link as nat, 4)) by {
        assert forall|i: int| 0 <= i < 4 implies #[trigger] b.subrange(o + 40, o + 44)[i] == img[40 + i] by {
            assert(b.subrange(o, o + 56)[40 + i] == b[o + 40 + i]);
        }
    }
    assert(b.subrange(o + 44, o + 48) =~= le_bytes(s.address_align as nat, 4)) by {
        assert forall|i: int| 0 <= i < 4 implies #[trigger] b.subrange(o + 44, o + 48)[i] == img[44 + i] by {
            assert(b.subrange(o, o + 56)[44 + i] == b[o + 44 + i]);
        }
    }
    assert(b.subrange(o + 48, o + 56) =~= le_bytes(s.entry_length as nat, 8)) by {
        assert forall|i: int| 0 <= i < 8 implies #[trigger] b.subrange(o + 48, o + 56)[i] == img[48 + i] by {
            assert(b.subrange(o, o + 56)[48 + i] == b[o + 48 + i]);
        }
    }
    lemma_le32_of_bytes(b, o, s.name as nat);
    lemma_le32_of_bytes(b, o + 4, s.ty as nat);
    lemma_le64_of_bytes(b, o + 8, s.flags as nat);
    lemma_le64_of_bytes(b, o + 16, s.address as nat);
    lemma_le64_of_bytes(b, o + 24, s.offset as nat);
    lemma_le64_of_bytes(b, o + 32, s.length as nat);
    lemma_le32_of_bytes(b, o + 40, s.link as nat);
    lemma_le32_of_bytes(b, o + 44, s.address_align as nat);
    lemma_le64_of_bytes(b, o + 48, s.entry_length as nat);
}

/// Reads the section entry at `o`.
pub fn read_section(b: &[u8], o: usize) -> (r: Section)
    requires
        o + SECTION_LEN <= b@.len(),
    ensures
        r == section_at(b@, o as int),
{
    let n = b.len();
    Section {
        name: read_u32(b, o),
        ty: read_u32(b, o + 4),
        flags: read_u64(b, o + 8),
        address: read_u64(b, o + 16),
        offset: read_u64(b, o + 24),
        length: read_u64(b, o + 32),
        link: read_u32(b, o + 40),
        address_align: read_u32(b, o + 44),
        entry_length: read_u64(b, o + 48),
    }
}

/// Walking `remaining` entries from `curr`, `size` bytes apart: where the
/// first entry of non-null type starts (-1 if there is none), and where the
/// cursor is left with how many entries remain.
pub open spec fn scan_sections(b: Seq<u8>, curr: int, remaining: nat, size: int) -> (int, int, nat)
    decreases remaining,
{
    if remaining == 0 {
        (-1, curr, 0)
    } else if le32(b, curr + 4) != 0 {
        (curr, curr + size, (remaining - 1) as nat)
    } else {
        scan_sections(b, curr + size, (remaining - 1) as nat, size)
    }
}

/// How many entries a walk over `remaining` entries passes over before it
/// stops: all of them when it finds no entry of non-null type.
pub open spec fn sections_skipped(b: Seq<u8>, curr: int, remaining: nat, size: int) -> int {
    let (k, c, left) = scan_sections(b, curr, remaining, size);
    if k == -1 {
        remaining as int
    } else {
        remaining - left - 1
    }
}

/// The walk over the section entries stops at the first entry whose type is
/// not null: every entry it passes over has type 0, the one it yields has
/// another type and lies `size` bytes per entry passed over from `curr`, and
/// the cursor is left one entry after it with the entries after it still to
/// walk.
pub proof fn lemma_scan_sections_skips_null(b: Seq<u8>, curr: int, remaining: nat, size: int)
    requires
        0 <= curr,
        0 <= size,
    ensures
        ({
            let (k, c, left) = scan_sections(b, curr, remaining, size);
            let n = sections_skipped(b, curr, remaining, size);
            &&& 0 <= n <= remaining
            &&& k != -1 ==> n < remaining && k == curr + n * size && c == k + size && le32(b, k + 4)
                != 0
            &&& k == -1 ==> left == 0 && c == curr + remaining * size
            &&& forall|i: int| 0 <= i < n ==> #[trigger] le32(b, curr + i * size + 4) == 0
        }),
    decreases remaining,
{
    if remaining == 0 {
        assert(0 * size == 0);
    } else if le32(b, curr + 4) != 0 {
        assert(scan_sections(b, curr, remaining, size) == (curr, curr + size, (remaining - 1) as nat));
        assert(0 * size == 0);
    } else {
        let r1 = (remaining - 1) as nat;
        lemma_scan_sections_skips_null(b, curr + size, r1, size);
        assert(scan_sections(b, curr, remaining, size) == scan_sections(b, curr + size, r1, size));
        let n1 = sections_skipped(b, curr + size, r1, size);
        assert(sections_skipped(b, curr, remaining, size) == n1 + 1);
        assert((n1 + 1) * size == n1 * size + size) by (nonlinear_arith);
        assert(remaining * size == r1 * size + size) by (nonlinear_arith)
            requires
                remaining == r1 + 1,
        ;
        assert forall|i: int| 0 <= i < n1 + 1 implies #[trigger] le32(b, curr + i * size + 4) == 0 by {
            if i > 0 {
                assert(curr + i * size == curr + size + (i - 1) * size) by (nonlinear_arith);
                assert(le32(b, curr + size + (i - 1) * size + 4) == 0);
            }
        }
    }
}

/// The entries that a walk from `curr` looks at lie within the bytes, and
/// the cursor's position does not overflow.
pub open spec fn sections_ok(b: Seq<u8>, curr: int, remaining: nat, size: int) -> bool
    decreases remaining,
{
    remaining == 0 || (curr + SECTION_LEN <= b.len() && curr + size <= usize::MAX && (le32(
        b,
        curr + 4,
    ) != 0 || sections_ok(b, curr + size, (remaining - 1) as nat, size)))
}

/// A cursor over the section entries.
#[derive(Clone, Copy, PartialEq, Eq, Structural, Debug)]
pub struct Sections {
    pub curr: usize,
    pub remaining: u32,
    pub size: u32,
}

impl SectionsTag {
    /// A cursor over the tag's entries, from the first, for all of them.
    pub fn sections(&self) -> (r: Sections)
        requires
            self.tag.offset + 20 <= usize::MAX,
        ensures
            r.curr == self.tag.offset + 20,
            r.remaining == self.n_sections,
            r.size == self.section_size,
    {
        Sections {
            curr: self.tag.offset + 20,
            remaining: self.n_sections,
            size: self.section_size,
        }
    }
}

impl Sections {
    /// The next entry whose type is not null, moving past it; the null ones
    /// are skipped. `None` once no entries remain.
    pub fn next(&mut self, b: &[u8]) -> (r: Option<Section>)
        requires
            sections_ok(b@, old(self).curr as int, old(self).remaining as nat, old(self).size as int),
        ensures
            ({
                let (k, c, left) = scan_sections(
                    b@,
                    old(self).curr as int,
                    old(self).remaining as nat,
                    old(self).size as int,
                );
                &&& k == -1 ==> r is None
                &&& k != -1 ==> r == Some(section_at(b@, k))
                &&& final(self).curr == c
                &&& final(self).remaining == left
            }),
            final(self).size == old(self).size,
            r matches Some(s) ==> s.ty != 0,
        decreases old(self).remaining,
    {
        if self.remaining == 0 {
            None
        } else {
            let current = read_section(b, self.curr);
            self.curr = self.curr + self.size as usize;
            self.remaining = self.remaining - 1;
            if current.ty == 0 {
                self.next(b)
            } else {
                Some(current)
            }
        }
    }
}

impl<'a> Info<'a> {
    /// The ELF sections tag, if there is one.
    pub fn elf64_sections(&self) -> (r: Option<SectionsTag>)
        requires
            tags_ok(self.bytes@, 8),
            self.bytes@.len() + 16 <= usize::MAX,
            find_tag(self.bytes@, 8, 9) != -1 ==> find_tag(self.bytes@, 8, 9) + 20
                <= self.bytes@.len(),
        ensures
            find_tag(self.bytes@, 8, 9) == -1 ==> r is None,
            find_tag(self.bytes@, 8, 9) != -1 ==> ({
                let o = find_tag(self.bytes@, 8, 9);
                r == Some(
                    SectionsTag {
                        tag: Tag { ty: 9, length: tag_len(self.bytes@, o) as u32, offset: o as usize },
                        n_sections: le32(self.bytes@, o + 8) as u32,
                        section_size: le32(self.bytes@, o + 12) as u32,
                        stringtable_idx: le32(self.bytes@, o + 16) as u32,
                    },
                )
            }),
    {
        proof {
            lemma_find_tag(self.bytes@, 8, 9);
        }
        match self.get_tag(TagType::ELFSections) {
            None => None,
            Some(tag) => {
                let n_sections = read_u32(self.bytes, tag.offset + 8);
                let section_size = read_u32(self.bytes, tag.offset + 12);
                let stringtable_idx = read_u32(self.bytes, tag.offset + 16);
                Some(SectionsTag { tag, n_sections, section_size, stringtable_idx })
            },
        }
    }
}

} // verus!
