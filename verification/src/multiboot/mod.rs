//! The Multiboot 2 boot information structure, read from its bytes.
//!
//! The structure starts with its total length and holds a sequence of tags,
//! each starting on an 8-byte boundary, up to an end tag of type 0 and
//! length 8. Offsets here are from the start of the structure.
use vstd::prelude::*;
use crate::bytes::{le32, le64, read_u32, read_u64};

pub mod elf64;

verus! {

/// The length of the end tag.
pub const END_TAG_LEN: u32 = 8;

/// The type of a tag.
#[derive(Clone, Copy, PartialEq, Eq, Structural, Debug)]
pub enum TagType {
    /// The end of the tags.
    End,
    /// The command line passed to the boot loader.
    CommandLine,
    BootloaderName,
    Modules,
    BasicMemInfo,
    BIOSBootDev,
    MemoryMap,
    VBEInfo,
    FramebufferInfo,
    ELFSections,
    APMTable,
}

impl TagType {
    /// The number that marks a tag of this type.
    pub open spec fn spec_value(self) -> u32 {
        match self {
            TagType::End => 0,
            TagType::CommandLine => 1,
            TagType::BootloaderName => 2,
            TagType::Modules => 3,
            TagType::BasicMemInfo => 4,
            TagType::BIOSBootDev => 5,
            TagType::MemoryMap => 6,
            TagType::VBEInfo => 7,
            TagType::FramebufferInfo => 8,
            TagType::ELFSections => 9,
            TagType::APMTable => 10,
        }
    }

    /// The number that marks a tag of this type.
    pub fn value(&self) -> (r: u32)
        ensures
            r == self.spec_value(),
    {
        match self {
            TagType::End => 0,
            TagType::CommandLine => 1,
            TagType::BootloaderName => 2,
            TagType::Modules => 3,
            TagType::BasicMemInfo => 4,
            TagType::BIOSBootDev => 5,
            TagType::MemoryMap => 6,
            TagType::VBEInfo => 7,
            TagType::FramebufferInfo => 8,
            TagType::ELFSections => 9,
            TagType::APMTable => 10,
        }
    }
}

/// Tag types carry the Multiboot 2 numbers: end 0, command line 1, boot
/// loader name 2, modules 3, basic memory information 4, BIOS boot device 5,
/// memory map 6, VBE information 7, framebuffer information 8, ELF sections
/// 9, APM table 10; no two types share a number.
pub proof fn lemma_tag_type_numbering(a: TagType, b: TagType)
    ensures
        TagType::End.spec_value() == 0,
        TagType::CommandLine.spec_value() == 1,
        TagType::BootloaderName.spec_value() == 2,
        TagType::Modules.spec_value() == 3,
        TagType::BasicMemInfo.spec_value() == 4,
        TagType::BIOSBootDev.spec_value() == 5,
        TagType::MemoryMap.spec_value() == 6,
        TagType::VBEInfo.spec_value() == 7,
        TagType::FramebufferInfo.spec_value() == 8,
        TagType::ELFSections.spec_value() == 9,
        TagType::APMTable.spec_value() == 10,
        a.spec_value() == b.spec_value() ==> a == b,
{
}

/// A tag's header: its type and length, and where it starts.
#[derive(Clone, Copy, PartialEq, Eq, Structural, Debug)]
pub struct Tag {
    pub ty: u32,
    pub length: u32,
    pub offset: usize,
}

/// The type of the tag at `o`.
pub open spec fn tag_ty(b: Seq<u8>, o: int) -> int {
    le32(b, o)
}

/// The length of the tag at `o`.
pub open spec fn tag_len(b: Seq<u8>, o: int) -> int {
    le32(b, o + 4)
}

/// Whether the tag at `o` is the end tag.
pub open spec fn is_end_tag(b: Seq<u8>, o: int) -> bool {
    tag_ty(b, o) == 0 && tag_len(b, o) == END_TAG_LEN
}

/// `x - 1` rounded down to a multiple of 8, plus 8: the first 8-byte
/// boundary at or after `x`, for `x` at least 1.
pub open spec fn align_next(x: int) -> int {
    ((x - 1) / 8) * 8 + 8
}

/// Where the tag after the one at `o` starts.
pub open spec fn next_tag(b: Seq<u8>, o: int) -> int {
    align_next(o + tag_len(b, o))
}

/// The tags from `o` on lie within `b`, each one after the one before, up
/// to an end tag.
pub open spec fn tags_ok(b: Seq<u8>, o: int) -> bool
    decreases b.len() - o,
{
    if 0 <= o && o + 8 <= b.len() {
        if is_end_tag(b, o) {
            true
        } else {
            let n = next_tag(b, o);
            if o < n && n + 8 <= b.len() {
                tags_ok(b, n)
            } else {
                false
            }
        }
    } else {
        false
    }
}

/// Where the first tag of type `ty` from `o` on starts, before the end
/// tag; -1 if there is none.
pub open spec fn find_tag(b: Seq<u8>, o: int, ty: u32) -> int
    decreases b.len() - o,
{
    if 0 <= o && o + 8 <= b.len() {
        if is_end_tag(b, o) {
            -1
        } else if tag_ty(b, o) == ty {
            o
        } else {
            let n = next_tag(b, o);
            if o < n && n + 8 <= b.len() {
                find_tag(b, n, ty)
            } else {
                -1
            }
        }
    } else {
        -1
    }
}

/// The next tag starts at or after the end of the one at `o`, on an 8-byte
/// boundary.
pub proof fn lemma_align_next(x: int)
    requires
        x >= 1,
    ensures
        x <= align_next(x) < x + 8,
        align_next(x) % 8 == 0,
{
}

/// Along a chain of tags that `tags_ok` accepts, each tag that is not the
/// end tag ends within the bytes, and the next one starts after it.
pub proof fn lemma_tags_ok_step(b: Seq<u8>, o: int)
    requires
        tags_ok(b, o),
        !is_end_tag(b, o),
    ensures
        0 <= o,
        o + tag_len(b, o) >= 1,
        o + tag_len(b, o) <= next_tag(b, o),
        o < next_tag(b, o),
        next_tag(b, o) + 8 <= b.len(),
        tags_ok(b, next_tag(b, o)),
{
    let x = o + tag_len(b, o);
    assert(tag_len(b, o) >= 0);
    if x < 1 {
        assert(x == 0);
        assert(align_next(0) == 0);
    }
    lemma_align_next(x);
}

/// `find_tag` finds a tag within the bytes, of the type asked for, or none.
pub proof fn lemma_find_tag(b: Seq<u8>, o: int, ty: u32)
    requires
        tags_ok(b, o),
    ensures
        find_tag(b, o, ty) == -1 || (o <= find_tag(b, o, ty) && find_tag(b, o, ty) + 8
            <= b.len() && tag_ty(b, find_tag(b, o, ty)) == ty && !is_end_tag(
            b,
            find_tag(b, o, ty),
        )),
    decreases b.len() - o,
{
    if !is_end_tag(b, o) && tag_ty(b, o) != ty {
        lemma_tags_ok_step(b, o);
        lemma_find_tag(b, next_tag(b, o), ty);
    }
}

/// A cursor over the tags: where the next one starts.
#[derive(Clone, Copy, PartialEq, Eq, Structural, Debug)]
pub struct Tags {
    pub offset: usize,
}

impl Tags {
    /// Moves past a tag of `size` bytes that starts at the cursor, to the
    /// next 8-byte boundary.
    pub fn advance(&mut self, size: u32)
        requires
            old(self).offset + size >= 1,
            old(self).offset + size + 8 <= usize::MAX,
        ensures
            final(self).offset == align_next(old(self).offset + size),
    {
        let next = self.offset + size as usize;
        let m = next - 1;
        assert(m & !7usize == (m / 8) * 8) by (bit_vector);
        self.offset = (m & !0x7usize) + 0x8;
    }

    /// The tag at the cursor, moving past it; `None`, without moving, at
    /// the end tag.
    pub fn next(&mut self, b: &[u8]) -> (r: Option<Tag>)
        requires
            old(self).offset + 8 <= b@.len(),
            !is_end_tag(b@, old(self).offset as int) ==> old(self).offset + tag_len(
                b@,
                old(self).offset as int,
            ) >= 1 && old(self).offset + tag_len(b@, old(self).offset as int) + 8 <= usize::MAX,
        ensures
            is_end_tag(b@, old(self).offset as int) ==> r is None && *final(self) == *old(self),
            !is_end_tag(b@, old(self).offset as int) ==> r == Some(
                Tag {
                    ty: tag_ty(b@, old(self).offset as int) as u32,
                    length: tag_len(b@, old(self).offset as int) as u32,
                    offset: old(self).offset,
                },
            ) && final(self).offset == next_tag(b@, old(self).offset as int),
    {
        let n = b.len();
        let o = self.offset;
        let ty = read_u32(b, o);
        let length = read_u32(b, o + 4);
        if ty == 0 && length == END_TAG_LEN {
            None
        } else {
            self.advance(length);
            Some(Tag { ty, length, offset: o })
        }
    }
}

/// The boot information structure, as bytes.
#[derive(Clone, Copy, Debug)]
pub struct Info<'a> {
    pub bytes: &'a [u8],
}

/// The total length the structure states.
pub open spec fn info_length(b: Seq<u8>) -> int {
    le32(b, 0)
}

/// The structure ends with an end tag where its length says.
pub open spec fn info_has_end(b: Seq<u8>) -> bool {
    is_end_tag(b, info_length(b) - END_TAG_LEN)
}

/// The structure's length can be read, covers the end tag, and lies within
/// the bytes.
pub open spec fn info_length_ok(b: Seq<u8>) -> bool {
    4 <= b.len() && END_TAG_LEN <= info_length(b) <= b.len()
}

impl<'a> Info<'a> {
    /// The structure held in `bytes`, which must end with an end tag where
    /// its length says.
    pub fn from(bytes: &'a [u8]) -> (r: Self)
        requires
            info_length_ok(bytes@),
            info_has_end(bytes@),
        ensures
            r.bytes@ == bytes@,
    {
        Info { bytes }
    }

    /// The total length of the structure.
    pub fn length(&self) -> (r: u32)
        requires
            4 <= self.bytes@.len(),
        ensures
            r == info_length(self.bytes@),
    {
        read_u32(self.bytes, 0)
    }

    /// Whether the structure ends with an end tag where its length says.
    pub fn has_end(&self) -> (r: bool)
        requires
            info_length_ok(self.bytes@),
        ensures
            r == info_has_end(self.bytes@),
    {
        let n = self.bytes.len();
        let len = self.length() as usize;
        let o = len - 8;
        let ty = read_u32(self.bytes, o);
        let length = read_u32(self.bytes, o + 4);
        ty == 0 && length == END_TAG_LEN
    }

    /// A cursor at the first tag.
    pub fn tags(&self) -> (r: Tags)
        ensures
            r.offset == 8,
    {
        Tags { offset: 8 }
    }

    /// The first tag of type `tag_type` before the end tag, if any.
    pub fn get_tag(&self, tag_type: TagType) -> (r: Option<Tag>)
        requires
            tags_ok(self.bytes@, 8),
            self.bytes@.len() + 16 <= usize::MAX,
        ensures
            find_tag(self.bytes@, 8, tag_type.spec_value()) == -1 ==> r is None,
            find_tag(self.bytes@, 8, tag_type.spec_value()) != -1 ==> ({
                let o = find_tag(self.bytes@, 8, tag_type.spec_value());
                r == Some(
                    Tag {
                        ty: tag_type.spec_value(),
                        length: tag_len(self.bytes@, o) as u32,
                        offset: o as usize,
                    },
                )
            }),
    {
        let ty = tag_type.value();
        let mut tags = self.tags();
        let b = self.bytes;
        while tags.offset + 8 <= b.len()
            invariant
                tags_ok(b@, tags.offset as int),
                find_tag(b@, 8, ty) == find_tag(b@, tags.offset as int, ty),
                b@.len() + 16 <= usize::MAX,
                ty == tag_type.spec_value(),
                b@ == self.bytes@,
            decreases b@.len() - tags.offset,
        {
            let o = tags.offset;
            proof {
                if !is_end_tag(b@, o as int) {
                    lemma_tags_ok_step(b@, o as int);
                }
            }
            match tags.next(b) {
                None => {
                    return None;
                },
                Some(tag) => {
                    if tag.ty == ty {
                        return Some(tag);
                    }
                },
            }
        }
        None
    }

    /// The memory map tag, if there is one.
    pub fn mem_map(&self) -> (r: Option<MemMapTag>)
        requires
            tags_ok(self.bytes@, 8),
            self.bytes@.len() + 16 <= usize::MAX,
            find_tag(self.bytes@, 8, 6) != -1 ==> find_tag(self.bytes@, 8, 6) + 16
                <= self.bytes@.len(),
        ensures
            find_tag(self.bytes@, 8, 6) == -1 ==> r is None,
            find_tag(self.bytes@, 8, 6) != -1 ==> ({
                let o = find_tag(self.bytes@, 8, 6);
                r == Some(
                    MemMapTag {
                        tag: Tag { ty: 6, length: tag_len(self.bytes@, o) as u32, offset: o as usize },
                        entry_size: le32(self.bytes@, o + 8) as u32,
                        entry_version: le32(self.bytes@, o + 12) as u32,
                    },
                )
            }),
    {
        proof {
            lemma_find_tag(self.bytes@, 8, 6);
        }
        match self.get_tag(TagType::MemoryMap) {
            None => None,
            Some(tag) => {
                let entry_size = read_u32(self.bytes, tag.offset + 8);
                let entry_version = read_u32(self.bytes, tag.offset + 12);
                Some(MemMapTag { tag, entry_size, entry_version })
            },
        }
    }
}

/// The memory map tag: the size and version of its entries, which follow
/// its header.
#[derive(Clone, Copy, PartialEq, Eq, Structural, Debug)]
pub struct MemMapTag {
    pub tag: Tag,
    pub entry_size: u32,
    pub entry_version: u32,
}

impl MemMapTag {
    /// A cursor over the tag's entries: from the first, 16 bytes into the
    /// tag, to the last, which starts one entry before the tag's end.
    pub fn areas(&self) -> (r: MemAreas)
        requires
            self.tag.offset + 16 <= usize::MAX,
            self.entry_size <= self.tag.offset + self.tag.length <= usize::MAX,
        ensures
            r.curr == self.tag.offset + 16,
            r.last == self.tag.offset + self.tag.length - self.entry_size,
            r.size == self.entry_size,
    {
        MemAreas {
            curr: self.tag.offset + 16,
            last: self.tag.offset + self.tag.length as usize - self.entry_size as usize,
            size: self.entry_size,
        }
    }
}

/// The kind of a memory area.
#[derive(Clone, Copy, PartialEq, Eq, Structural, Debug)]
pub enum MemAreaType {
    /// Usable memory.
    Available,
    /// Memory holding ACPI information.
    ACPI,
    /// Memory to preserve.
    Preserve,
}

impl MemAreaType {
    /// The number that marks an area of this kind.
    pub open spec fn spec_value(self) -> u32 {
        match self {
            MemAreaType::Available => 1,
            MemAreaType::ACPI => 3,
            MemAreaType::Preserve => 4,
        }
    }

    /// The number that marks an area of this kind.
    pub fn value(&self) -> (r: u32)
        ensures
            r == self.spec_value(),
    {
        match self {
            MemAreaType::Available => 1,
            MemAreaType::ACPI => 3,
            MemAreaType::Preserve => 4,
        }
    }
}

/// Memory area kinds carry the Multiboot 2 numbers: available 1, ACPI 3,
/// preserved 4; no two kinds share a number.
pub proof fn lemma_mem_area_type_numbering(a: MemAreaType, b: MemAreaType)
    ensures
        MemAreaType::Available.spec_value() == 1,
        MemAreaType::ACPI.spec_value() == 3,
        MemAreaType::Preserve.spec_value() == 4,
        a.spec_value() == b.spec_value() ==> a == b,
{
}

/// An entry of the memory map: where an area starts, its length in bytes,
/// and its kind.
#[derive(Clone, Copy, PartialEq, Eq, Structural, Debug)]
pub struct MemArea {
    pub base: u64,
    pub length: u64,
    pub ty: u32,
}

impl MemArea {
    /// The address of the area's last byte.
    pub fn address(&self) -> (r: usize)
        requires
            1 <= self.base + self.length <= u64::MAX,
            self.base + self.length - 1 <= usize::MAX,
        ensures
            r == self.base + self.length - 1,
    {
        (self.base + self.length - 1) as usize
    }
}

/// The memory area entry at `o`.
pub open spec fn area_at(b: Seq<u8>, o: int) -> MemArea {
    MemArea { base: le64(b, o) as u64, length: le64(b, o + 8) as u64, ty: le32(b, o + 16) as u32 }
}

/// Walking the entries from `curr`, `size` bytes apart, up to `last`:
/// where the first available area starts (-1 if there is none) and where
/// the cursor is left (just after that area, or past `last`).
pub open spec fn scan_areas(b: Seq<u8>, curr: int, last: int, size: int) -> (int, int)
    decreases (if curr > last {
        0
    } else {
        last + 1 - curr
    }),
{
    if curr > last {
        (-1, curr)
    } else if le32(b, curr + 16) == 1 {
        (curr, curr + size)
    } else if size > 0 {
        scan_areas(b, curr + size, last, size)
    } else {
        (-1, curr)
    }
}

/// Whether `j` is one of the entry offsets `curr`, `curr + size`,
/// `curr + 2 * size`, ... of a walk from `curr`.
pub open spec fn is_entry_offset(curr: int, size: int, j: int) -> bool {
    j == curr || (size > 0 && curr < j && (j - curr) % size == 0)
}

/// The walk over the memory map yields only available areas (type 1), the
/// first one among the entries it visits: the area it stops at is an entry
/// of type 1 no later than `last`, the cursor is left one entry after it,
/// and every entry passed over before it (or, when none is found, every entry
/// up to `last`) has another type.
pub proof fn lemma_scan_areas_yields_available(b: Seq<u8>, curr: int, last: int, size: int)
    requires
        0 <= curr,
    ensures
        ({
            let (k, c) = scan_areas(b, curr, last, size);
            &&& k != -1 ==> curr <= k <= last && is_entry_offset(curr, size, k) && le32(b, k + 16)
                == 1 && area_at(b, k).ty == 1 && c == k + size
            &&& k == -1 ==> c > last || size <= 0
            &&& forall|j: int|
                is_entry_offset(curr, size, j) && j <= last && (k == -1 || j < k)
                    ==> #[trigger] le32(b, j + 16) != 1
        }),
    decreases
            (if curr > last {
                0
            } else {
                last + 1 - curr
            }),
{
    if curr > last {
        assert(scan_areas(b, curr, last, size) == (-1int, curr));
    } else if le32(b, curr + 16) == 1 {
        assert(scan_areas(b, curr, last, size) == (curr, curr + size));
        assert(area_at(b, curr).ty == 1);
        assert forall|j: int|
            is_entry_offset(curr, size, j) && j <= last && j < curr implies #[trigger] le32(
            b,
            j + 16,
        ) != 1 by {}
    } else if size > 0 {
        lemma_scan_areas_yields_available(b, curr + size, last, size);
        let (k, c) = scan_areas(b, curr + size, last, size);
        assert(scan_areas(b, curr, last, size) == (k, c));
        if k != -1 {
            if k != curr + size {
                vstd::arithmetic::div_mod::lemma_mod_add_multiples_vanish(k - curr - size, size);
            } else {
                vstd::arithmetic::div_mod::lemma_mod_self_0(size);
            }
        }
        assert forall|j: int|
            is_entry_offset(curr, size, j) && j <= last && (k == -1 || j < k) implies #[trigger] le32(
            b,
            j + 16,
        ) != 1 by {
            if j != curr {
                if j - curr < size {
                    vstd::arithmetic::div_mod::lemma_small_mod((j - curr) as nat, size as nat);
                }
                vstd::arithmetic::div_mod::lemma_mod_sub_multiples_vanish(j - curr, size);
                assert(is_entry_offset(curr + size, size, j));
            }
        }
    } else {
        assert(scan_areas(b, curr, last, size) == (-1int, curr));
    }
}

/// A cursor over the memory map's entries.
#[derive(Clone, Copy, PartialEq, Eq, Structural, Debug)]
pub struct MemAreas {
    pub curr: usize,
    pub last: usize,
    pub size: u32,
}

impl MemAreas {
    /// The next available area, moving past it; the areas of other kinds are
    /// skipped. `None` once the cursor is past the last entry.
    pub fn next(&mut self, b: &[u8]) -> (r: Option<MemArea>)
        requires
            old(self).last + 24 <= b@.len(),
            old(self).last + old(self).size <= usize::MAX,
            old(self).size > 0 || old(self).curr > old(self).last || le32(
                b@,
                old(self).curr + 16,
            ) == 1,
        ensures
            final(self).last == old(self).last,
            final(self).size == old(self).size,
            ({
                let (k, c) = scan_areas(
                    b@,
                    old(self).curr as int,
                    old(self).last as int,
                    old(self).size as int,
                );
                &&& k == -1 ==> r is None
                &&& k != -1 ==> r == Some(area_at(b@, k))
                &&& final(self).curr == c
            }),
            r matches Some(a) ==> a.ty == 1,
            forall|j: int|
                is_entry_offset(old(self).curr as int, old(self).size as int, j) && j
                    <= old(self).last && (r is None || j + old(self).size < final(self).curr)
                    ==> #[trigger] le32(b@, j + 16) != 1,
    {
        let n = b.len();
        while self.curr <= self.last
            invariant
                self.last == old(self).last,
                self.size == old(self).size,
                self.last + 24 <= b@.len(),
                n == b@.len(),
                self.last + self.size <= usize::MAX,
                self.size > 0 || self.curr > self.last || le32(b@, self.curr + 16) == 1,
                scan_areas(b@, old(self).curr as int, self.last as int, self.size as int)
                    == scan_areas(b@, self.curr as int, self.last as int, self.size as int),
            decreases (if self.curr > self.last {
                0
            } else {
                self.last + 1 - self.curr
            }),
        {
            let c = self.curr;
            let base = read_u64(b, c);
            let length = read_u64(b, c + 8);
            let ty = read_u32(b, c + 16);
            self.curr = c + self.size as usize;
            if ty == MemAreaType::Available.value() {
                proof {
                    lemma_scan_areas_yields_available(
                        b@,
                        old(self).curr as int,
                        old(self).last as int,
                        old(self).size as int,
                    );
                }
                return Some(MemArea { base, length, ty });
            }
        }
        proof {
            lemma_scan_areas_yields_available(
                b@,
                old(self).curr as int,
                old(self).last as int,
                old(self).size as int,
            );
        }
        None
    }
}

} // verus!
