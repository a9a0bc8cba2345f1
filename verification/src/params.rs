//! Parameters shared between the kernel's subsystems during initialization.
use vstd::prelude::*;
use crate::memory::{PAddr, PhysicalPage, FrameRange, is_canonical};

verus! {

/// A memory area.
#[derive(Clone, Copy, Debug)]
pub struct Area {
    /// The start address of this memory area.
    pub start_addr: PAddr,
    /// The end address of this memory area.
    pub end_addr: PAddr,
    /// Whether or not the memory area is usable.
    pub is_usable: bool,
}

/// Parameters used during the init process.
pub struct InitParams {
    /// The base of the kernel memory range.
    pub kernel_base: PAddr,
    /// The top of the kernel memory range.
    pub kernel_top: PAddr,
    /// The base of the memory range for the kernel heap.
    pub heap_base: PAddr,
    /// The top of the memory range to use for the kernel heap.
    pub heap_top: PAddr,
    /// The start address of the Multiboot info structure, if it exists.
    pub multiboot_start: Option<PAddr>,
    /// The end address of the Multiboot info structure, if it exists.
    pub multiboot_end: Option<PAddr>,
    /// The memory map: the memory areas the boot loader reported.
    pub mem_map: Vec<Area>,
}

impl InitParams {
    /// Returns the start address of the multiboot info struct.
    ///
    /// Only Multiboot kernels (where it is `Some`) may ask.
    pub fn multiboot_start(&self) -> (r: PAddr)
        requires
            self.multiboot_start is Some,
        ensures
            r == self.multiboot_start->0,
    {
        self.multiboot_start.expect("Attempted to access Multiboot info structure on a non-Multiboot kernel!")
    }

    /// Returns the end address of the multiboot info struct.
    ///
    /// Only Multiboot kernels (where it is `Some`) may ask.
    pub fn multiboot_end(&self) -> (r: PAddr)
        requires
            self.multiboot_end is Some,
        ensures
            r == self.multiboot_end->0,
    {
        self.multiboot_end.expect("Attempted to access Multiboot info structure on a non-Multiboot kernel!")
    }

    /// Returns the range of frames containing the kernel binary: from the frame
    /// holding its first byte to the one after the frame holding its last
    /// byte (the byte before `kernel_top`).
    pub fn kernel_frames(&self) -> (r: FrameRange)
        requires
            is_canonical(self.kernel_base@),
            self.kernel_top@ >= 1,
            is_canonical((self.kernel_top@ - 1) as u64),
        ensures
            r.start.number == self.kernel_base@ / 4096,
            r.end.number == (self.kernel_top@ - 1) / 4096 + 1,
    {
        let last = PAddr::new(self.kernel_top.as_u64() - 1);
        PhysicalPage::containing(self.kernel_base).range_until(PhysicalPage::containing(last).add_one())
    }

    /// Returns the range of frames containing the kernel heap: from the frame
    /// holding its first byte to the one after the frame holding its last
    /// byte (the byte before `heap_top`).
    pub fn heap_frames(&self) -> (r: FrameRange)
        requires
            is_canonical(self.heap_base@),
            self.heap_top@ >= 1,
            is_canonical((self.heap_top@ - 1) as u64),
        ensures
            r.start.number == self.heap_base@ / 4096,
            r.end.number == (self.heap_top@ - 1) / 4096 + 1,
    {
        let last = PAddr::new(self.heap_top.as_u64() - 1);
        PhysicalPage::containing(self.heap_base).range_until(PhysicalPage::containing(last).add_one())
    }
}

} // verus!
