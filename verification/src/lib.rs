//! SOS kernel library: memory allocation, address arithmetic, ELF and
//! Multiboot parsing, and x86_64 CPU data structures, each with a contract
//! that Verus proves.
use vstd::prelude::*;

pub mod math;
pub mod allocator;
pub mod memory;
pub mod params;
pub mod list;
pub mod cpu;
pub mod elf;
pub mod bytes;
pub mod multiboot;
pub mod stack;
pub mod boot;
pub mod paging;
pub mod page_table;
