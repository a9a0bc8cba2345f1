# sos_kernel

The logic of a small x86_64 hobby kernel, written in Verus with its
behaviour stated in contracts and proved:

- `math`: powers of two and base-2 logarithms.
- `memory`, `params`: addresses, pages, frames, ranges of frames, and the
  parameters handed to the kernel at boot.
- `allocator`: request layouts and errors; a bump pointer allocator; two
  buddy heaps (`buddy` over vector free lists, `buddy_heap` over counted
  free lists); the system allocator tiers; a first-fit allocator of frame
  ranges; a frame allocator over the boot loader's memory map.
- `list`: a doubly-ended list of owned nodes.
- `cpu`: saved registers, the task state segment, the flags register, the
  interrupt descriptor table and its gates, the programmable interrupt
  controllers (as the port writes to perform), page fault error codes.
- `elf`: file and section headers, string tables.
- `multiboot`: the Multiboot 2 information structure, read from its bytes.
- `boot`, `paging`, `stack`: boot page tables and descriptor table, a frame
  cache, and kernel stacks carved out of a range of pages.
- `page_table`: the four-level page tables as tables stored in frames; the
  walk that translates a page or an address (huge pages included), mapping
  and unmapping a page (with what each leaves as it was), mapping a stack,
  and building the tables that remap the kernel from its plan of identity
  mappings, with the old top table's frame left as a guard page.

The buddy heap of `buddy` also states, over free lists and the blocks
handed out, what every allocation and release keeps: the heap is made up of
free and handed-out blocks, and no two free blocks are the halves of one
block; once nothing is handed out, the whole heap is one free block again.

`app/` holds the glue that touches the machine (port I/O, control
registers, `lidt`, CR3 and the page tables in memory, the VGA buffer) and
the text forms of values.
