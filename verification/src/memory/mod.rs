//! Kernel memory management: addresses, pages and frames, and ranges of them.
use vstd::prelude::*;
use crate::math::is_power_of_two;

pub mod x86;

verus! {

/// Shift that converts between addresses and page numbers.
pub const PAGE_SHIFT: u8 = 12;
/// The size of a page (4 KiB), in bytes.
pub const PAGE_SIZE: u64 = 4096;
/// The size of a large page (2 MiB), in bytes.
pub const LARGE_PAGE_SIZE: u64 = 0x20_0000;
/// The size of a huge page (1 GiB), in bytes.
pub const HUGE_PAGE_SIZE: u64 = 0x4000_0000;

/// `x` rounded down to a multiple of `align`.
pub open spec fn align_down_spec(x: nat, align: nat) -> nat {
    (x - x % align) as nat
}

/// `x` rounded up to a multiple of `align`.
pub open spec fn align_up_spec(x: nat, align: nat) -> nat {
    if x % align == 0 {
        x
    } else {
        (x + (align - x % align)) as nat
    }
}

/// Rounding up gives the least multiple of `align` that is at least `x`.
pub proof fn lemma_align_up(x: nat, align: nat)
    requires
        align > 0,
    ensures
        align_up_spec(x, align) % align == 0,
        x <= align_up_spec(x, align) < x + align,
        align_down_spec(x, align) % align == 0,
        x - align < align_down_spec(x, align) <= x,
{
    vstd::arithmetic::div_mod::lemma_fundamental_div_mod(x as int, align as int);
    let q = x / align;
    let r = x % align;
    vstd::arithmetic::div_mod::lemma_mod_multiples_basic(q as int, align as int);
    vstd::arithmetic::div_mod::lemma_mod_multiples_basic(q as int + 1, align as int);
    assert(align * q == q * align) by (nonlinear_arith);
    assert((q + 1) * align == q * align + align) by (nonlinear_arith);
}

/// A virtual address is a machine-sized unsigned integer.
#[derive(Clone, Copy, PartialEq, Eq, Structural, PartialOrd, Ord, Debug, Hash)]
pub struct VAddr(usize);

impl View for VAddr {
    type V = usize;

    closed spec fn view(&self) -> usize {
        self.0
    }
}

/// Index into a table of 512 entries selected by the bits of `addr` from
/// `shift` on.
pub open spec fn table_index(addr: nat, shift: nat) -> nat {
    (addr / crate::math::exp2(shift)) % 512
}

impl VAddr {
    /// Convert a `usize` to a virtual address.
    pub fn new(value: usize) -> (r: Self)
        ensures
            r@ == value,
    {
        VAddr(value)
    }

    /// Convert a `usize` to a virtual address.
    pub fn from_usize(u: usize) -> (r: Self)
        ensures
            r@ == u,
    {
        VAddr(u)
    }

    /// Convert this virtual address to a `usize`.
    pub fn as_usize(&self) -> (r: usize)
        ensures
            r == self@,
    {
        self.0
    }

    /// Calculate the index in the PML4 table corresponding to this address:
    /// bits 39 to 47.
    pub fn pml4_index(&self) -> (r: usize)
        ensures
            r == table_index(self@ as nat, 39),
            r < 512,
    {
        let a = self.0 as u64;
        proof {
            crate::math::lemma_exp2_values();
        }
        assert(((a >> 39u64) & 0x1ff) == (a / 0x80_0000_0000) % 512) by (bit_vector);
        ((a >> 39u64) & 0x1ff) as usize
    }

    /// Calculate the index in the PDPT table corresponding to this address:
    /// bits 30 to 38.
    pub fn pdpt_index(&self) -> (r: usize)
        ensures
            r == table_index(self@ as nat, 30),
            r < 512,
    {
        let a = self.0 as u64;
        proof {
            crate::math::lemma_exp2_values();
        }
        assert(((a >> 30u64) & 0x1ff) == (a / 0x4000_0000) % 512) by (bit_vector);
        ((a >> 30u64) & 0x1ff) as usize
    }

    /// Calculate the index in the PD table corresponding to this address:
    /// bits 21 to 29.
    pub fn pd_index(&self) -> (r: usize)
        ensures
            r == table_index(self@ as nat, 21),
            r < 512,
    {
        let a = self.0 as u64;
        proof {
            crate::math::lemma_exp2_values();
        }
        assert(((a >> 21u64) & 0x1ff) == (a / 0x20_0000) % 512) by (bit_vector);
        ((a >> 21u64) & 0x1ff) as usize
    }

    /// Calculate the index in the PT table corresponding to this address:
    /// bits 12 to 20.
    pub fn pt_index(&self) -> (r: usize)
        ensures
            r == table_index(self@ as nat, 12),
            r < 512,
    {
        let a = self.0 as u64;
        proof {
            crate::math::lemma_exp2_values();
        }
        assert(((a >> 12u64) & 0x1ff) == (a / 0x1000) % 512) by (bit_vector);
        ((a >> 12u64) & 0x1ff) as usize
    }

    /// This address rounded down to a multiple of `align`.
    pub fn align_down(&self, align: usize) -> (r: Self)
        requires
            is_power_of_two(align as nat),
        ensures
            r@ == align_down_spec(self@ as nat, align as nat),
    {
        let rem = self.0 % align;
        assert(rem <= self.0) by (nonlinear_arith)
            requires
                rem == self.0 % align,
                align > 0,
        ;
        VAddr(self.0 - rem)
    }

    /// This address rounded up to a multiple of `align`.
    pub fn align_up(&self, align: usize) -> (r: Self)
        requires
            is_power_of_two(align as nat),
            align_up_spec(self@ as nat, align as nat) <= usize::MAX,
        ensures
            r@ == align_up_spec(self@ as nat, align as nat),
    {
        let rem = self.0 % align;
        if rem == 0 {
            VAddr(self.0)
        } else {
            VAddr(self.0 + (align - rem))
        }
    }

    /// Returns true if this address is aligned on a page boundary.
    pub fn is_page_aligned(&self) -> (r: bool)
        ensures
            r == (self@ % 4096 == 0),
    {
        self.0 % 4096 == 0
    }
}

/// A physical (linear) memory address is a 64-bit unsigned integer.
#[derive(Clone, Copy, PartialEq, Eq, Structural, PartialOrd, Ord, Debug, Hash)]
pub struct PAddr(u64);

impl View for PAddr {
    type V = u64;

    closed spec fn view(&self) -> u64 {
        self.0
    }
}

impl PAddr {
    /// A physical address with the given value.
    pub fn new(value: u64) -> (r: Self)
        ensures
            r@ == value,
    {
        PAddr(value)
    }

    /// The address as a `u64`.
    pub fn as_u64(&self) -> (r: u64)
        ensures
            r == self@,
    {
        self.0
    }

    /// This address rounded down to a multiple of `align`.
    pub fn align_down(&self, align: u64) -> (r: Self)
        requires
            is_power_of_two(align as nat),
        ensures
            r@ == align_down_spec(self@ as nat, align as nat),
    {
        let rem = self.0 % align;
        assert(rem <= self.0) by (nonlinear_arith)
            requires
                rem == self.0 % align,
                align > 0,
        ;
        PAddr(self.0 - rem)
    }

    /// This address rounded up to a multiple of `align`.
    pub fn align_up(&self, align: u64) -> (r: Self)
        requires
            is_power_of_two(align as nat),
            align_up_spec(self@ as nat, align as nat) <= u64::MAX,
        ensures
            r@ == align_up_spec(self@ as nat, align as nat),
    {
        let rem = self.0 % align;
        if rem == 0 {
            PAddr(self.0)
        } else {
            PAddr(self.0 + (align - rem))
        }
    }

    /// Returns true if this address is aligned on a page boundary.
    pub fn is_page_aligned(&self) -> (r: bool)
        ensures
            r == (self@ % 4096 == 0),
    {
        self.0 % 4096 == 0
    }
}

/// A canonical x86_64 address: below the lower half's end or at or above
/// the upper half's start.
pub open spec fn is_canonical(addr: u64) -> bool {
    addr < 0x0000_8000_0000_0000 || addr >= 0xffff_8000_0000_0000
}

/// A frame (physical page).
#[derive(Clone, Copy, PartialEq, Eq, Structural, PartialOrd, Ord, Debug, Hash)]
pub struct PhysicalPage {
    pub number: u64,
}

impl PhysicalPage {
    /// Returns the physical address where this frame starts (the frame
    /// number shifted by the page shift, in 64 bits).
    pub fn base_addr(&self) -> (r: PAddr)
        ensures
            r@ as int == (self.number as int * 4096) % 0x1_0000_0000_0000_0000,
    {
        let n = self.number;
        assert((n << 12u64) as int == (n as int * 4096) % 0x1_0000_0000_0000_0000) by (bit_vector);
        PAddr(n << 12u64)
    }

    /// Returns a new frame containing `addr`.
    pub fn containing_addr(addr: PAddr) -> (r: PhysicalPage)
        ensures
            r.number == addr@ / 4096,
    {
        let a = addr.0;
        assert((a >> 12u64) == a / 4096) by (bit_vector);
        PhysicalPage { number: a >> 12u64 }
    }

    /// Returns the frame containing `addr`, which must be canonical.
    pub fn containing(addr: PAddr) -> (r: PhysicalPage)
        requires
            is_canonical(addr@),
        ensures
            r.number == addr@ / 4096,
    {
        Self::containing_addr(addr)
    }

    /// Return the start address of this frame.
    pub fn base(&self) -> (r: PAddr)
        ensures
            r@ as int == (self.number as int * 4096) % 0x1_0000_0000_0000_0000,
    {
        self.base_addr()
    }

    /// The frame number.
    pub fn number(&self) -> (r: usize)
        ensures
            r == self.number as usize,
    {
        self.number as usize
    }

    /// The next frame.
    pub fn add_one(&self) -> (r: PhysicalPage)
        requires
            self.number < u64::MAX,
        ensures
            r.number == self.number + 1,
    {
        PhysicalPage { number: self.number + 1 }
    }

    /// The frames from this one until `end` (exclusive).
    pub fn range_until(&self, end: PhysicalPage) -> (r: core::ops::Range<PhysicalPage>)
        ensures
            r.start == *self,
            r.end == end,
    {
        core::ops::Range { start: *self, end }
    }

    /// This frame and the `n - 1` frames after it.
    pub fn range_of(&self, n: usize) -> (r: core::ops::Range<PhysicalPage>)
        requires
            self.number + n <= u64::MAX,
        ensures
            r.start == *self,
            r.end.number == self.number + n,
    {
        self.range_until(PhysicalPage { number: self.number + n as u64 })
    }
}

/// A virtual page.
#[derive(Clone, Copy, PartialEq, Eq, Structural, PartialOrd, Ord, Debug, Hash)]
pub struct VirtualPage {
    pub number: usize,
}

impl VirtualPage {
    /// Returns the page containing `addr`, which must be canonical.
    pub fn containing(addr: VAddr) -> (r: VirtualPage)
        requires
            is_canonical(addr@ as u64),
        ensures
            r.number == addr@ / 4096,
    {
        let a = addr.0;
        assert((a >> 12usize) == a / 4096) by (bit_vector);
        VirtualPage { number: a >> 12usize }
    }

    /// Return the start address of this page.
    pub fn base(&self) -> (r: VAddr)
        requires
            self.number * 4096 <= usize::MAX,
        ensures
            r@ == self.number * 4096,
    {
        let n = self.number;
        proof {
            vstd::arithmetic::power2::lemma2_to64();
            vstd::bits::lemma_usize_shl_is_mul(n, 12);
        }
        VAddr(n << 12usize)
    }

    /// The page number.
    pub fn number(&self) -> (r: usize)
        ensures
            r == self.number,
    {
        self.number
    }

    /// The address just past the end of this page.
    pub fn end_address(&self) -> (r: VAddr)
        requires
            self.number * 4096 + 4096 <= usize::MAX,
        ensures
            r@ == self.number * 4096 + 4096,
    {
        let b = self.base();
        VAddr(b.0 + 4096)
    }
}

/// A range of frames.
pub type FrameRange = core::ops::Range<PhysicalPage>;

/// A range of virtual pages.
pub type PageRange = core::ops::Range<VirtualPage>;

/// The number of frames in a frame range (its end's number minus its start's).
pub open spec fn frame_count(r: FrameRange) -> int {
    r.end.number - r.start.number
}

/// Operations on a range of frames.
pub trait MemRange: Sized {
    /// The page numbers where the range starts and ends.
    spec fn bounds(&self) -> (int, int);

    /// The greatest page number.
    spec fn limit() -> int;

    /// Returns the number of pages in this range.
    fn length(&self) -> (r: usize)
        requires
            0 <= self.bounds().1 - self.bounds().0 <= usize::MAX,
    ;

    /// Remove `n` pages from the beginning of this range.
    fn drop_front(&mut self, n: usize)
        requires
            n < old(self).bounds().1 - old(self).bounds().0,
    ;

    /// Remove `n` pages from the end of this range.
    fn drop_back(&mut self, n: usize)
        requires
            n < old(self).bounds().1 - old(self).bounds().0,
    ;

    /// Add `n` pages at the front of this range.
    fn add_front(&mut self, n: usize)
        requires
            n <= old(self).bounds().0,
    ;

    /// Add `n` pages at the back of this range.
    fn add_back(&mut self, n: usize)
        requires
            old(self).bounds().1 + n <= Self::limit(),
    ;
}

impl MemRange for FrameRange {
    open spec fn bounds(&self) -> (int, int) {
        (self.start.number as int, self.end.number as int)
    }

    open spec fn limit() -> int {
        u64::MAX as int
    }

    fn length(&self) -> (r: usize)
        ensures
            r == frame_count(*self),
    {
        (self.end.number - self.start.number) as usize
    }

    fn drop_front(&mut self, n: usize)
        ensures
            final(self).start.number == old(self).start.number + n,
            final(self).end == old(self).end,
    {
        self.start = PhysicalPage { number: self.start.number + n as u64 };
    }

    fn drop_back(&mut self, n: usize)
        ensures
            final(self).end.number == old(self).end.number - n,
            final(self).start == old(self).start,
    {
        self.end = PhysicalPage { number: self.end.number - n as u64 };
    }

    fn add_front(&mut self, n: usize)
        ensures
            final(self).start.number == old(self).start.number - n,
            final(self).end == old(self).end,
    {
        self.start = PhysicalPage { number: self.start.number - n as u64 };
    }

    fn add_back(&mut self, n: usize)
        ensures
            final(self).end.number == old(self).end.number + n,
            final(self).start == old(self).start,
    {
        self.end = PhysicalPage { number: self.end.number + n as u64 };
    }
}

impl MemRange for PageRange {
    open spec fn bounds(&self) -> (int, int) {
        (self.start.number as int, self.end.number as int)
    }

    open spec fn limit() -> int {
        usize::MAX as int
    }

    fn length(&self) -> (r: usize)
        ensures
            r == self.end.number - self.start.number,
    {
        self.end.number - self.start.number
    }

    fn drop_front(&mut self, n: usize)
        ensures
            final(self).start.number == old(self).start.number + n,
            final(self).end == old(self).end,
    {
        self.start = VirtualPage { number: self.start.number + n };
    }

    fn drop_back(&mut self, n: usize)
        ensures
            final(self).end.number == old(self).end.number - n,
            final(self).start == old(self).start,
    {
        self.end = VirtualPage { number: self.end.number - n };
    }

    fn add_front(&mut self, n: usize)
        ensures
            final(self).start.number == old(self).start.number - n,
            final(self).end == old(self).end,
    {
        self.start = VirtualPage { number: self.start.number - n };
    }

    fn add_back(&mut self, n: usize)
        ensures
            final(self).end.number == old(self).end.number + n,
            final(self).start == old(self).start,
    {
        self.end = VirtualPage { number: self.end.number + n };
    }
}

} // verus!
