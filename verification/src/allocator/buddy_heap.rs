//! A buddy heap over singly linked free lists.
//!
//! Each free list is a stack of block addresses with a counter of the
//! blocks on it. Requests are sized and split as in the buddy heap of
//! `buddy`; a released block is merged with its free buddy, order by order,
//! before it goes back onto a free list.
use vstd::prelude::*;
use crate::math::{
    exp2, ilog2, is_power_of_two, next_pow2_value, PowersOf2, lemma_exp2_monotone,
    lemma_exp2_pos, lemma_exp2_add, lemma_exp2_is_power_of_two, lemma_power_of_two_is_exp2,
    lemma_shl_one, lemma_fill_below_ge, lemma_ilog2_monotone,
};
use super::PAGE_SIZE;
use super::buddy::{max3, lemma_xor_below, last_index_of, lemma_last_index_of};
use crate::math::{lemma_mod_double, lemma_mod_is_mask};
use super::buddy::lemma_xor_aligned_bits;

verus! {

/// The size of a free block's header: one link.
pub const FREE_HEADER_SIZE: usize = 8;

/// One less than `n`, and 0 for 0.
pub open spec fn one_less(n: usize) -> usize {
    if n > 0 {
        (n - 1) as usize
    } else {
        0
    }
}

/// A free list: a stack of block addresses, and the number of blocks on it.
pub struct FreeList {
    blocks: Vec<usize>,
    /// The number of blocks on the list.
    pub length: usize,
}

impl FreeList {
    /// The blocks on the list, the head last.
    pub closed spec fn items(&self) -> Seq<usize> {
        self.blocks@
    }

    /// The counter of blocks on the list.
    pub closed spec fn count(&self) -> usize {
        self.length
    }

    /// An empty list.
    pub fn new() -> (r: Self)
        ensures
            r.items() == Seq::<usize>::empty(),
            r.count() == 0,
    {
        FreeList { blocks: Vec::new(), length: 0 }
    }

    /// Pushes `block` as the new head and counts it.
    pub fn push(&mut self, block: usize)
        requires
            old(self).count() < usize::MAX,
        ensures
            final(self).items() == old(self).items().push(block),
            final(self).count() == old(self).count() + 1,
    {
        self.blocks.push(block);
        self.length = self.length + 1;
    }

    /// Takes the head off the list, if there is one, and counts one block
    /// less.
    pub fn pop(&mut self) -> (r: Option<usize>)
        ensures
            old(self).items().len() == 0 ==> r is None && final(self).items() == old(self).items()
                && final(self).count() == old(self).count(),
            old(self).items().len() > 0 ==> r == Some(old(self).items().last())
                && final(self).items() == old(self).items().drop_last()
                && final(self).count() == one_less(old(self).count()),
    {
        let r = self.blocks.pop();
        if r.is_some() && self.length > 0 {
            self.length = self.length - 1;
        }
        r
    }

    /// Whether the list holds a block.
    pub fn has_free_blocks(&self) -> (r: bool)
        ensures
            r == (self.items().len() > 0),
    {
        self.blocks.len() > 0
    }

    /// Takes `target` off the list (its occurrence nearest the head) and
    /// counts one block less; returns whether it was on the list.
    pub fn remove(&mut self, target: usize) -> (r: bool)
        ensures
            r == old(self).items().contains(target),
            r ==> final(self).items() == old(self).items().remove(
                last_index_of(old(self).items(), target),
            ) && final(self).count() == one_less(old(self).count()),
            !r ==> final(self).items() == old(self).items() && final(self).count() == old(
                self,
            ).count(),
    {
        let ghost s = self.blocks@;
        proof {
            lemma_last_index_of(s, target);
        }
        let mut i = self.blocks.len();
        while i > 0
            invariant
                self.blocks@ == s,
                self.length == old(self).length,
                s == old(self).blocks@,
                i <= s.len(),
                forall|j: int| i <= j < s.len() ==> s[j] != target,
            decreases i,
        {
            if self.blocks[i - 1] == target {
                proof {
                    assert(s[i - 1] == target);
                    assert(s.contains(target));
                    lemma_last_index_of(s, target);
                    let li = last_index_of(s, target);
                    if li < i - 1 {
                        assert(s[i - 1] != target);
                    }
                }
                self.blocks.remove(i - 1);
                if self.length > 0 {
                    self.length = self.length - 1;
                }
                return true;
            }
            i = i - 1;
        }
        proof {
            if s.contains(target) {
                assert(s[last_index_of(s, target)] == target);
            }
        }
        false
    }
}

/// A buddy heap allocator over free lists of `FreeList`.
pub struct BuddyHeapAllocator {
    start_addr: usize,
    free_lists: Vec<FreeList>,
    heap_size: usize,
    min_block_size: usize,
}

impl BuddyHeapAllocator {
    /// Where the heap starts.
    pub closed spec fn start(&self) -> usize {
        self.start_addr
    }

    /// The heap's size in bytes.
    pub closed spec fn size(&self) -> usize {
        self.heap_size
    }

    /// The size of the smallest blocks.
    pub closed spec fn min_size(&self) -> usize {
        self.min_block_size
    }

    /// The number of free lists (one per block order).
    pub closed spec fn num_orders(&self) -> nat {
        self.free_lists@.len()
    }

    /// The blocks on each free list, the head last.
    pub closed spec fn lists(&self) -> Seq<Seq<usize>> {
        Seq::new(self.free_lists@.len(), |k: int| self.free_lists@[k].items())
    }

    /// The counter of each free list.
    pub closed spec fn lengths(&self) -> Seq<usize> {
        Seq::new(self.free_lists@.len(), |k: int| self.free_lists@[k].length)
    }

    /// There is one free list, and one counter, per order.
    pub proof fn lemma_lists_len(&self)
        ensures
            self.lists().len() == self.num_orders(),
            self.lengths().len() == self.num_orders(),
    {
    }

    /// The logarithm of the smallest block size.
    pub open spec fn min_log(&self) -> nat {
        ilog2(self.min_size() as nat)
    }

    /// The size of a block of order `k`.
    pub open spec fn block_size(&self, k: nat) -> nat {
        exp2(self.min_log() + k)
    }

    /// `b` is a block of order `k` inside the heap.
    pub open spec fn is_block(&self, b: int, k: nat) -> bool {
        &&& self.start() <= b
        &&& (b - self.start()) % (self.block_size(k) as int) == 0
        &&& b - self.start() + self.block_size(k) <= self.size()
    }

    /// The heap's invariant: a page-aligned start, power-of-two block sizes
    /// up to the whole heap, and each free list holding blocks of its order.
    pub open spec fn wf(&self) -> bool {
        &&& self.start() > 0
        &&& self.start() % 4096 == 0
        &&& is_power_of_two(self.min_size() as nat)
        &&& self.min_size() >= FREE_HEADER_SIZE
        &&& self.start() + self.size() <= usize::MAX
        &&& self.num_orders() >= 1
        &&& self.size() == self.block_size((self.num_orders() - 1) as nat)
        &&& forall|k: int, i: int|
            0 <= k < self.lists().len() && 0 <= i < self.lists()[k].len() ==> self.is_block(
                #[trigger] self.lists()[k][i] as int,
                k as nat,
            )
    }

    /// The size `alloc_size` computes for a request: `next_pow2` of the
    /// greatest of its size, the smallest block size and its alignment.
    pub open spec fn request_size(&self, size: usize, align: usize) -> int {
        next_pow2_value(max3(size as nat, self.min_size() as nat, align as nat))
    }

    /// `next_pow2` can compute the request's size.
    pub open spec fn request_fits(&self, size: usize, align: usize) -> bool {
        self.request_size(size, align) <= usize::MAX
    }

    /// The heap serves the request: a power-of-two alignment of at most a
    /// page, and a size within the heap.
    pub open spec fn request_ok(&self, size: usize, align: usize) -> bool {
        &&& is_power_of_two(align as nat)
        &&& align <= PAGE_SIZE
        &&& self.request_size(size, align) <= self.size()
    }

    /// The order of the blocks that serve the request.
    pub open spec fn request_order(&self, size: usize, align: usize) -> nat {
        (ilog2(self.request_size(size, align) as nat) - self.min_log()) as nat
    }

    /// The least order from `k` on whose free list holds a block (or the
    /// number of lists, if there is none).
    pub open spec fn first_nonempty(lists: Seq<Seq<usize>>, k: nat) -> nat
        decreases lists.len() - k,
    {
        if k >= lists.len() {
            lists.len()
        } else if lists[k as int].len() > 0 {
            k
        } else {
            Self::first_nonempty(lists, k + 1)
        }
    }

    /// The free lists after splitting the block at `b` from order `k` down
    /// to order `new_order`, with smallest blocks of `2^m` bytes: at each
    /// order on the way down, the upper half is pushed onto that order's
    /// list.
    pub open spec fn split_pushes(m: nat, lists: Seq<Seq<usize>>, b: int, k: nat, new_order: nat) -> Seq<
        Seq<usize>,
    >
        decreases k,
    {
        if k <= new_order {
            lists
        } else {
            let j = (k - 1) as nat;
            Self::split_pushes(
                m,
                lists.update(j as int, lists[j as int].push((b + exp2(m + j)) as usize)),
                b,
                j,
                new_order,
            )
        }
    }

    /// The buddy of the block at `b` among blocks of order `k`.
    pub open spec fn buddy_of(&self, b: int, k: nat) -> int {
        self.start() + (((b - self.start()) as usize) ^ (self.block_size(k) as usize))
    }

    /// The free lists and their counters after releasing the block `nb` of
    /// order `k`: while the buddy of the block merged so far (smaller than
    /// the heap) is on its list, it is taken off that list and the lesser of
    /// the two is carried to the next order; the first order without a free
    /// buddy gets the merged block.
    pub open spec fn release(
        &self,
        lists: Seq<Seq<usize>>,
        lengths: Seq<usize>,
        nb: int,
        k: nat,
    ) -> (Seq<Seq<usize>>, Seq<usize>)
        decreases lists.len() - k,
    {
        if k >= lists.len() {
            (lists, lengths)
        } else if self.block_size(k) < self.size() && lists[k as int].contains(
            self.buddy_of(nb, k) as usize,
        ) {
            let bud = self.buddy_of(nb, k);
            self.release(
                lists.update(
                    k as int,
                    lists[k as int].remove(last_index_of(lists[k as int], bud as usize)),
                ),
                lengths.update(k as int, one_less(lengths[k as int])),
                if bud < nb {
                    bud
                } else {
                    nb
                },
                k + 1,
            )
        } else {
            (
                lists.update(k as int, lists[k as int].push(nb as usize)),
                lengths.update(k as int, (lengths[k as int] + 1) as usize),
            )
        }
    }

    proof fn lemma_sizes(&self, k: nat)
        requires
            self.wf(),
        ensures
            self.block_size(k) >= FREE_HEADER_SIZE,
            self.block_size(k + 1) == 2 * self.block_size(k),
            exp2(self.min_log()) == self.min_block_size,
            self.min_log() + self.num_orders() - 1 < usize::BITS,
            k < self.num_orders() ==> self.block_size(k) <= self.heap_size,
            k + 1 < self.num_orders() ==> self.block_size(k) < self.heap_size,
            k + 1 >= self.num_orders() ==> self.block_size(k) >= self.heap_size,
            is_power_of_two(self.heap_size as nat),
            is_power_of_two(self.block_size(k)),
            ilog2(self.heap_size as nat) == self.min_log() + self.num_orders() - 1,
            self.heap_size <= 0x8000_0000_0000_0000,
    {
        let m = self.min_log();
        let n = self.num_orders();
        lemma_power_of_two_is_exp2(self.min_block_size as nat);
        lemma_exp2_monotone(m, m + k);
        lemma_exp2_is_power_of_two((m + n - 1) as nat);
        lemma_exp2_is_power_of_two(m + k);
        crate::math::lemma_exp2_values();
        if m + n - 1 >= usize::BITS {
            lemma_exp2_monotone(usize::BITS as nat, (m + n - 1) as nat);
        }
        if k < n {
            lemma_exp2_monotone(m + k, (m + n - 1) as nat);
        } else {
            lemma_exp2_monotone((m + n - 1) as nat, m + k);
        }
        if k + 1 < n {
            lemma_exp2_monotone(m + k + 1, (m + n - 1) as nat);
        }
        lemma_power_of_two_is_exp2(self.heap_size as nat);
        lemma_exp2_monotone((m + n - 1) as nat, 63);
        if ilog2(self.heap_size as nat) != m + n - 1 {
            if ilog2(self.heap_size as nat) < m + n - 1 {
                crate::math::lemma_exp2_strict(ilog2(self.heap_size as nat), (m + n - 1) as nat);
            } else {
                crate::math::lemma_exp2_strict((m + n - 1) as nat, ilog2(self.heap_size as nat));
            }
        }
    }

    /// The free lists of a new heap: the whole heap as one block of the
    /// highest order.
    pub open spec fn initial_lists(n: nat, start: usize) -> Seq<Seq<usize>> {
        Seq::new(n, |k: int| if k == n - 1 { seq![start] } else { Seq::<usize>::empty() })
    }

    /// A heap of `heap_size` bytes at `start_addr`, with one free list per
    /// order taken from `free_lists` (which are emptied).
    ///
    /// The smallest block size is `heap_size >> (n - 1)` for `n` free
    /// lists; the whole heap goes onto the list of the highest order.
    pub fn new(start_addr: usize, free_lists: Vec<FreeList>, heap_size: usize) -> (heap: Self)
        requires
            start_addr != 0,
            free_lists@.len() > 0,
            start_addr % 4096 == 0,
            free_lists@.len() - 1 < usize::BITS,
            heap_size as nat / exp2((free_lists@.len() - 1) as nat) >= FREE_HEADER_SIZE,
            is_power_of_two(heap_size as nat),
            start_addr + heap_size <= usize::MAX,
        ensures
            heap.wf(),
            heap.start() == start_addr,
            heap.size() == heap_size,
            heap.min_size() == heap_size as nat / exp2((free_lists@.len() - 1) as nat),
            heap.num_orders() == free_lists@.len(),
            heap.lists() == Self::initial_lists(free_lists@.len(), start_addr),
            heap.lengths() == Seq::new(
                free_lists@.len(),
                |k: int| if k == free_lists@.len() - 1 { 1usize } else { 0usize },
            ),
    {
        let n_free_lists = free_lists.len();
        let shift = n_free_lists - 1;
        let min_block_size = heap_size >> shift;
        proof {
            vstd::bits::lemma_usize_shr_is_div(heap_size, shift);
            crate::math::lemma_exp2_is_pow2(shift as nat);
            let h = ilog2(heap_size as nat);
            lemma_power_of_two_is_exp2(heap_size as nat);
            if h < shift {
                crate::math::lemma_exp2_strict(h, shift as nat);
                lemma_exp2_pos(shift as nat);
                assert(heap_size as nat / exp2(shift as nat) == 0) by (nonlinear_arith)
                    requires
                        heap_size < exp2(shift as nat),
                ;
            }
            let lo = (h - shift) as nat;
            lemma_exp2_add(lo, shift as nat);
            lemma_exp2_pos(shift as nat);
            vstd::arithmetic::div_mod::lemma_div_multiples_vanish(
                exp2(lo) as int,
                exp2(shift as nat) as int,
            );
            assert(exp2(lo) * exp2(shift as nat) == exp2(shift as nat) * exp2(lo))
                by (nonlinear_arith);
            assert(min_block_size == exp2(lo));
            lemma_exp2_is_power_of_two(lo);
            assert(lo + shift == h);
        }
        let mut lists = free_lists;
        let mut i: usize = 0;
        while i < n_free_lists
            invariant
                i <= n_free_lists,
                lists@.len() == n_free_lists,
                forall|k: int| 0 <= k < i ==> (#[trigger] lists@[k]).items().len() == 0 && lists@[k].count() == 0,
            decreases n_free_lists - i,
        {
            lists.set(i, FreeList::new());
            i = i + 1;
        }
        let mut heap = BuddyHeapAllocator {
            start_addr,
            free_lists: lists,
            heap_size,
            min_block_size,
        };
        assert(heap.lists() =~~= Seq::new(n_free_lists as nat, |k: int| Seq::<usize>::empty()));
        proof {
            heap.lemma_sizes(0);
            crate::math::lemma_exp2_values();
            lemma_power_of_two_is_exp2(heap_size as nat);
            lemma_exp2_is_power_of_two(heap_size as nat);
        }
        assert(heap.wf());
        proof {
            crate::math::lemma_exp2_values();
            assert(heap_size as nat <= 0x8000_0000_0000_0000);
            assert(max3(heap_size as nat, min_block_size as nat, 1) == heap_size);
            crate::math::lemma_fill_below((heap_size - 1) as u64);
            let p = (crate::math::fill_below((heap_size - 1) as u64) + 1) as nat;
            if heap_size > 1 {
                crate::math::lemma_pow2_between(heap_size as nat, p);
            }
            assert(heap.request_size(heap_size, 1) == heap_size);
            assert(is_power_of_two(1)) by {
                lemma_exp2_is_power_of_two(0);
            }
            heap.lemma_request_size(heap_size, 1);
        }
        let root_order = match heap.alloc_order(heap_size, 1) {
            Some(o) => o,
            None => {
                proof {
                    assert(false);
                }
                0
            },
        };
        proof {
            heap.lemma_sizes(root_order as nat);
            assert(root_order == n_free_lists - 1);
            assert(heap.block_size(root_order as nat) == heap_size);
            assert(0int % (heap_size as int) == 0);
        }
        heap.push_block(start_addr, root_order);
        assert(heap.lists() =~~= Self::initial_lists(n_free_lists as nat, start_addr));
        assert(heap.lengths() =~= Seq::new(
            n_free_lists as nat,
            |k: int| if k == n_free_lists - 1 { 1usize } else { 0usize },
        ));
        heap
    }

    /// Pushes `ptr` onto the free list of order `order`.
    fn push_block(&mut self, ptr: usize, order: usize)
        requires
            order < old(self).num_orders(),
            old(self).lengths()[order as int] < usize::MAX,
            old(self).wf() ==> old(self).is_block(ptr as int, order as nat),
        ensures
            final(self).lists() == old(self).lists().update(
                order as int,
                old(self).lists()[order as int].push(ptr),
            ),
            final(self).lengths() == old(self).lengths().update(
                order as int,
                (old(self).lengths()[order as int] + 1) as usize,
            ),
            final(self).num_orders() == old(self).num_orders(),
            final(self).start_addr == old(self).start_addr,
            final(self).heap_size == old(self).heap_size,
            final(self).min_block_size == old(self).min_block_size,
            old(self).wf() ==> final(self).wf(),
    {
        self.free_lists[order].push(ptr);
        assert(self.lists() =~= old(self).lists().update(
            order as int,
            old(self).lists()[order as int].push(ptr),
        ));
        assert(self.lengths() =~= old(self).lengths().update(
            order as int,
            (old(self).lengths()[order as int] + 1) as usize,
        ));
        proof {
            if old(self).wf() {
                assert forall|k: int, i: int|
                    0 <= k < self.lists().len() && 0 <= i < self.lists()[k].len() implies self.is_block(
                    #[trigger] self.lists()[k][i] as int,
                    k as nat,
                ) by {
                    if k != order || i < old(self).lists()[k].len() {
                        assert(self.lists()[k][i] == old(self).lists()[k][i]);
                    }
                }
            }
        }
    }

    /// The facts about the size of a request that the code relies on.
    proof fn lemma_request_size(&self, size: usize, align: usize)
        requires
            self.wf(),
            self.request_ok(size, align),
        ensures
            self.request_size(size, align) >= self.min_block_size,
            ilog2(self.request_size(size, align) as nat) >= self.min_log(),
            ilog2(self.request_size(size, align) as nat) <= self.min_log() + self.num_orders() - 1,
            self.request_order(size, align) < self.num_orders(),
    {
        let m = max3(size as nat, self.min_block_size as nat, align as nat);
        self.lemma_sizes(0);
        crate::math::lemma_exp2_values();
        if m > 0 {
            lemma_fill_below_ge((m - 1) as u64);
        }
        let s = self.request_size(size, align);
        assert(s >= m);
        lemma_ilog2_monotone(self.min_block_size as nat, s as nat);
        lemma_power_of_two_is_exp2(self.min_block_size as nat);
        lemma_ilog2_monotone(s as nat, self.heap_size as nat);
    }

    /// The size of a request: `next_pow2` of the greatest of its size, the
    /// smallest block size and its alignment. `None` for an alignment that
    /// is not a power of two or exceeds a page, and for a size beyond the
    /// heap.
    pub fn alloc_size(&self, size: usize, align: usize) -> (r: Option<usize>)
        requires
            self.wf(),
            is_power_of_two(align as nat) && align <= PAGE_SIZE ==> self.request_fits(size, align),
        ensures
            self.request_ok(size, align) ==> r == Some(self.request_size(size, align) as usize),
            !self.request_ok(size, align) ==> r is None,
    {
        if !align.is_pow2() || align > PAGE_SIZE {
            None
        } else {
            let rest = if self.min_block_size >= align { self.min_block_size } else { align };
            let biggest = if size >= rest { size } else { rest };
            assert(biggest == max3(size as nat, self.min_block_size as nat, align as nat));
            let alloc_size = biggest.next_pow2();
            if alloc_size > self.heap_size {
                None
            } else {
                Some(alloc_size)
            }
        }
    }

    /// The order of a request: the number of times the smallest block size
    /// doubles to reach its size. `None` where `alloc_size` is.
    pub fn alloc_order(&self, size: usize, align: usize) -> (r: Option<usize>)
        requires
            self.wf(),
            is_power_of_two(align as nat) && align <= PAGE_SIZE ==> self.request_fits(size, align),
        ensures
            self.request_ok(size, align) ==> r == Some(self.request_order(size, align) as usize)
                && self.request_order(size, align) < self.num_orders(),
            !self.request_ok(size, align) ==> r is None,
    {
        match self.alloc_size(size, align) {
            Some(s) => {
                proof {
                    self.lemma_request_size(size, align);
                }
                Some(s.log2() - self.min_block_size.log2())
            },
            None => None,
        }
    }

    /// The size of a block of order `order`.
    fn order_alloc_size(&self, order: usize) -> (r: usize)
        requires
            self.wf(),
            self.min_log() + order < usize::BITS,
        ensures
            r == self.block_size(order as nat),
    {
        let shift = self.min_block_size.log2() + order;
        proof {
            lemma_shl_one(shift);
        }
        1usize << shift
    }

    /// The buddy of the block at `block` among blocks of order `order`, or
    /// `None` when a block of that order is as large as the heap.
    pub fn get_buddy(&self, order: usize, block: usize) -> (r: Option<usize>)
        requires
            self.wf(),
            self.min_log() + order < usize::BITS,
            self.start() <= block,
            self.block_size(order as nat) < self.size() ==> self.buddy_of(block as int, order as nat)
                <= usize::MAX,
        ensures
            r == if self.block_size(order as nat) < self.size() {
                Some(self.buddy_of(block as int, order as nat) as usize)
            } else {
                None::<usize>
            },
            r matches Some(b) ==> b == self.buddy_of(block as int, order as nat),
    {
        proof {
            self.lemma_sizes(order as nat);
        }
        let block_size = self.order_alloc_size(order);
        if block_size < self.heap_size {
            let block_pos = block - self.start_addr;
            Some(self.start_addr + (block_pos ^ block_size))
        } else {
            None
        }
    }
}

/// `ls` with one added to each entry from `lo` (inclusive) to `hi`
/// (exclusive).
pub open spec fn counted(ls: Seq<usize>, lo: nat, hi: nat) -> Seq<usize> {
    Seq::new(ls.len(), |k: int| if lo <= k < hi { (ls[k] + 1) as usize } else { ls[k] })
}

impl BuddyHeapAllocator {
    /// Takes the head off the free list of order `order`, if it has one.
    fn pop_block(&mut self, order: usize) -> (r: Option<usize>)
        requires
            order < old(self).num_orders(),
        ensures
            old(self).lists()[order as int].len() == 0 ==> r is None && final(self).lists()
                == old(self).lists(),
            old(self).lists()[order as int].len() == 0 ==> final(self).lengths() == old(
                self,
            ).lengths(),
            old(self).lists()[order as int].len() > 0 ==> r == Some(
                old(self).lists()[order as int].last(),
            ) && final(self).lists() == old(self).lists().update(
                order as int,
                old(self).lists()[order as int].drop_last(),
            ) && final(self).lengths() == old(self).lengths().update(
                order as int,
                one_less(old(self).lengths()[order as int]),
            ),
            final(self).num_orders() == old(self).num_orders(),
            final(self).start_addr == old(self).start_addr,
            final(self).heap_size == old(self).heap_size,
            final(self).min_block_size == old(self).min_block_size,
            old(self).wf() ==> final(self).wf(),
    {
        let r = self.free_lists[order].pop();
        if r.is_some() {
            assert(self.lists() =~= old(self).lists().update(
                order as int,
                old(self).lists()[order as int].drop_last(),
            ));
            assert(self.lengths() =~= old(self).lengths().update(
                order as int,
                one_less(old(self).lengths()[order as int]),
            ));
        } else {
            assert(self.lists() =~= old(self).lists());
            assert(self.lengths() =~= old(self).lengths());
        }
        proof {
            if old(self).wf() {
                assert forall|k: int, i: int|
                    0 <= k < self.lists().len() && 0 <= i < self.lists()[k].len() implies self.is_block(
                    #[trigger] self.lists()[k][i] as int,
                    k as nat,
                ) by {
                    assert(self.lists()[k][i] == old(self).lists()[k][i]);
                }
            }
        }
        r
    }

    /// Splits the block at `block` from order `order` down to order
    /// `new_order`, pushing the upper half onto the free list of each order
    /// on the way down.
    fn split_block(&mut self, block: usize, order: usize, new_order: usize)
        requires
            old(self).wf(),
            new_order < order < old(self).num_orders(),
            old(self).is_block(block as int, order as nat),
            forall|k: int| new_order <= k < order ==> #[trigger] old(self).lengths()[k] < usize::MAX,
        ensures
            final(self).wf(),
            final(self).lists() == Self::split_pushes(
                old(self).min_log(),
                old(self).lists(),
                block as int,
                order as nat,
                new_order as nat,
            ),
            final(self).lengths() == counted(old(self).lengths(), new_order as nat, order as nat),
            final(self).num_orders() == old(self).num_orders(),
            final(self).start_addr == old(self).start_addr,
            final(self).heap_size == old(self).heap_size,
            final(self).min_block_size == old(self).min_block_size,
    {
        proof {
            old(self).lemma_sizes(order as nat);
            assert(old(self).lengths() =~= counted(old(self).lengths(), order as nat, order as nat));
        }
        let mut split_size = self.order_alloc_size(order);
        let mut curr = order;
        while curr > new_order
            invariant
                self.wf(),
                self.num_orders() == old(self).num_orders(),
                self.start_addr == old(self).start_addr,
                self.heap_size == old(self).heap_size,
                self.min_block_size == old(self).min_block_size,
                new_order <= curr <= order < self.num_orders(),
                split_size == self.block_size(curr as nat),
                self.is_block(block as int, curr as nat),
                Self::split_pushes(old(self).min_log(), self.lists(), block as int, curr as nat, new_order as nat)
                    == Self::split_pushes(
                    old(self).min_log(),
                    old(self).lists(),
                    block as int,
                    order as nat,
                    new_order as nat,
                ),
                self.lengths() == counted(old(self).lengths(), curr as nat, order as nat),
                forall|k: int| new_order <= k < order ==> #[trigger] old(self).lengths()[k] < usize::MAX,
                old(self).lengths().len() == self.num_orders(),
            decreases curr,
        {
            proof {
                self.lemma_sizes((curr - 1) as nat);
                lemma_mod_double(block - self.start_addr, self.block_size((curr - 1) as nat) as int);
            }
            let prev = split_size;
            split_size = split_size >> 1;
            curr = curr - 1;
            proof {
                vstd::bits::lemma_usize_shr_is_div(prev, 1);
                vstd::arithmetic::power2::lemma2_to64();
                assert(split_size == self.block_size(curr as nat));
            }
            let ghost before = self.lists();
            assert(self.lengths()[curr as int] == old(self).lengths()[curr as int]);
            self.push_block(block + split_size, curr);
            proof {
                assert(self.lists() == before.update(
                    curr as int,
                    before[curr as int].push((block + old(self).block_size(curr as nat)) as usize),
                ));
                assert(self.lengths() =~= counted(old(self).lengths(), curr as nat, order as nat));
            }
        }
        proof {
            assert(self.lengths() =~= counted(old(self).lengths(), new_order as nat, order as nat));
        }
    }

    /// Allocates a block for a request of `size` bytes aligned to `align`.
    ///
    /// The block is the head of the first non-empty free list from the
    /// request's order on, split down to the request's order. `None` when
    /// the heap does not serve the request or no such list holds a block.
    pub fn allocate(&mut self, size: usize, align: usize) -> (r: Option<usize>)
        requires
            old(self).wf(),
            is_power_of_two(align as nat) && align <= PAGE_SIZE ==> old(self).request_fits(
                size,
                align,
            ),
            forall|k: int| 0 <= k < old(self).num_orders() ==> #[trigger] old(self).lengths()[k]
                < usize::MAX,
        ensures
            final(self).wf(),
            final(self).start() == old(self).start(),
            final(self).size() == old(self).size(),
            final(self).min_size() == old(self).min_size(),
            final(self).num_orders() == old(self).num_orders(),
            !old(self).request_ok(size, align) ==> r is None && final(self).lists() == old(
                self,
            ).lists() && final(self).lengths() == old(self).lengths(),
            r matches Some(b) ==> final(self).is_block(b as int, old(self).request_order(size, align)),
            r matches Some(b) ==> (b as int) % (align as int) == 0 && b - old(self).start() + size
                <= old(self).size(),
            old(self).request_ok(size, align) ==> ({
                let lists = old(self).lists();
                let o = old(self).request_order(size, align);
                let j = Self::first_nonempty(lists, o);
                if j == lists.len() {
                    r is None && final(self).lists() == lists && final(self).lengths() == old(
                        self,
                    ).lengths()
                } else {
                    &&& r == Some(lists[j as int].last())
                    &&& final(self).lists() == Self::split_pushes(
                        old(self).min_log(),
                        lists.update(j as int, lists[j as int].drop_last()),
                        lists[j as int].last() as int,
                        j,
                        o,
                    )
                    &&& final(self).lengths() == counted(
                        old(self).lengths().update(j as int, one_less(old(self).lengths()[j as int])),
                        o,
                        j,
                    )
                }
            }),
    {
        let min_order = match self.alloc_order(size, align) {
            Some(o) => o,
            None => {
                return None;
            },
        };
        let n = self.free_lists.len();
        let mut order = min_order;
        while order < n
            invariant
                self.lists() == old(self).lists(),
                self.lengths() == old(self).lengths(),
                self.start_addr == old(self).start_addr,
                self.heap_size == old(self).heap_size,
                self.min_block_size == old(self).min_block_size,
                n == self.num_orders(),
                n == old(self).num_orders(),
                self.wf(),
                old(self).request_ok(size, align),
                min_order == old(self).request_order(size, align),
                min_order <= order <= n,
                Self::first_nonempty(self.lists(), min_order as nat) == Self::first_nonempty(
                    self.lists(),
                    order as nat,
                ),
                forall|k: int| 0 <= k < n ==> #[trigger] self.lengths()[k] < usize::MAX,
            decreases n - order,
        {
            let ghost lists = self.lists();
            match self.pop_block(order) {
                Some(block) => {
                    proof {
                        assert(Self::first_nonempty(lists, order as nat) == order);
                        assert(lists[order as int].len() > 0);
                        assert(lists[order as int].last() == lists[order as int][lists[order as int].len() - 1]);
                        assert(old(self).is_block(block as int, order as nat));
                    }
                    proof {
                        self.lemma_sizes(order as nat);
                        self.lemma_sizes(min_order as nat);
                        crate::math::lemma_exp2_monotone(
                            (self.min_log() + min_order) as nat,
                            (self.min_log() + order) as nat,
                        );
                        crate::math::lemma_pow2_multiple(
                            (block - self.start_addr) as nat,
                            self.block_size(min_order as nat),
                            self.block_size(order as nat),
                        );
                        assert(self.is_block(block as int, min_order as nat));
                        self.lemma_block_serves_request(size, align, block as int);
                    }
                    if order > min_order {
                        self.split_block(block, order, min_order);
                    } else {
                        assert(self.lengths() =~= counted(
                            old(self).lengths().update(order as int, one_less(old(self).lengths()[order as int])),
                            min_order as nat,
                            order as nat,
                        ));
                        assert(Self::split_pushes(old(self).min_log(), self.lists(), block as int, order as nat, min_order as nat) == self.lists());
                    }
                    return Some(block);
                },
                None => {},
            }
            order = order + 1;
        }
        None
    }
}

impl BuddyHeapAllocator {
    proof fn lemma_merge(&self, ptr: int, nb: int, k: nat)
        requires
            self.wf(),
            k + 1 < self.num_orders(),
            self.is_block(nb, k),
            nb <= ptr < nb + self.block_size(k),
            self.is_block(self.buddy_of(ptr, k), k),
        ensures
            ({
                let buddy = self.buddy_of(ptr, k);
                let merged = if buddy < nb { buddy } else { nb };
                &&& self.is_block(merged, k + 1)
                &&& merged <= ptr < merged + self.block_size(k + 1)
                &&& 0 <= buddy <= usize::MAX
            }),
    {
        self.lemma_sizes(k);
        let kk = (self.min_log() + k) as usize;
        lemma_shl_one(kk);
        lemma_shl_one((kk + 1) as usize);
        let sz = 1usize << kk;
        let p = (ptr - self.start_addr) as usize;
        assert(self.block_size(k) as usize == sz);
        let hk = (self.min_log() + self.num_orders() - 1) as usize;
        lemma_shl_one(hk);
        lemma_xor_below(p, sz, hk);
        assert(self.buddy_of(ptr, k) == self.start_addr + (p ^ sz));
        let buddy = self.buddy_of(ptr, k);
        let q = nb - self.start_addr;
        lemma_mod_is_mask(p ^ sz, kk);
        lemma_mod_is_mask(p, kk);
        lemma_mod_is_mask(p, (kk + 1) as usize);
        lemma_xor_aligned_bits(p, kk);
        assert(p % sz == 0);
        let pi = p as int;
        let si = sz as int;
        assert(pi == q) by (nonlinear_arith)
            requires
                pi % si == 0,
                q % si == 0,
                q <= pi < q + si,
                si > 0,
        {
            let a = pi / si;
            let b = q / si;
            assert(pi == si * a);
            assert(q == si * b);
        }
        let merged = if buddy < nb { buddy } else { nb };
        if p & sz == 0 {
            assert(p ^ sz == p + sz);
            lemma_mod_is_mask(p, (kk + 1) as usize);
        } else {
            assert(p ^ sz == p - sz);
            lemma_mod_is_mask((p - sz) as usize, (kk + 1) as usize);
        }
        assert(self.is_block(merged, k + 1));
    }

    /// Releases the block at `block`, allocated for a request of `old_size`
    /// bytes aligned to `align`.
    ///
    /// From the request's order up, while the buddy of the block merged so
    /// far is on its free list, the buddy is taken off that list and the
    /// lesser of the two is carried to the next order; the merged block is
    /// pushed onto the first list without its buddy.
    pub fn deallocate(&mut self, block: usize, old_size: usize, align: usize)
        requires
            old(self).wf(),
            old(self).request_ok(old_size, align),
            old(self).request_fits(old_size, align),
            old(self).is_block(block as int, old(self).request_order(old_size, align)),
            forall|k: int| 0 <= k < old(self).num_orders() ==> #[trigger] old(self).lengths()[k]
                < usize::MAX,
        ensures
            final(self).wf(),
            final(self).start() == old(self).start(),
            final(self).size() == old(self).size(),
            final(self).min_size() == old(self).min_size(),
            final(self).num_orders() == old(self).num_orders(),
            (final(self).lists(), final(self).lengths()) == old(self).release(
                old(self).lists(),
                old(self).lengths(),
                block as int,
                old(self).request_order(old_size, align),
            ),
    {
        proof {
            self.lemma_request_size(old_size, align);
            self.lemma_sizes(0);
        }
        let min_order = match self.alloc_order(old_size, align) {
            Some(o) => o,
            None => {
                proof {
                    assert(false);
                }
                0
            },
        };
        proof {
            self.lemma_sizes(min_order as nat);
        }
        let n = self.free_lists.len();
        let mut new_block = block;
        let mut order = min_order;
        while order < n
            invariant
                self.wf(),
                self.start_addr == old(self).start_addr,
                self.heap_size == old(self).heap_size,
                self.min_block_size == old(self).min_block_size,
                n == self.num_orders(),
                n == old(self).num_orders(),
                min_order <= order < n,
                min_order == old(self).request_order(old_size, align),
                self.is_block(new_block as int, order as nat),
                old(self).release(old(self).lists(), old(self).lengths(), block as int, min_order as nat)
                    == old(self).release(self.lists(), self.lengths(), new_block as int, order as nat),
                forall|k: int| 0 <= k < n ==> #[trigger] self.lengths()[k] < usize::MAX,
            decreases n - order,
        {
            proof {
                self.lemma_sizes(order as nat);
            }
            let ghost before_lists = self.lists();
            let ghost before_lengths = self.lengths();
            let ghost heap = *self;
            proof {
                if self.block_size(order as nat) < self.heap_size {
                    let hk = (self.min_log() + self.num_orders() - 1) as usize;
                    lemma_shl_one(hk);
                    lemma_xor_below((new_block - self.start_addr) as usize, self.block_size(order as nat) as usize, hk);
                }
            }
            if let Some(buddy) = self.get_buddy(order, new_block) {
                let found = self.free_lists[order].remove(buddy);
                if found {
                    proof {
                        let s = before_lists[order as int];
                        lemma_last_index_of(s, buddy);
                        let li = last_index_of(s, buddy);
                        assert(self.lists() =~= before_lists.update(order as int, s.remove(li)));
                        assert(self.lengths() =~= before_lengths.update(
                            order as int,
                            one_less(before_lengths[order as int]),
                        ));
                        assert(heap.is_block(s[li] as int, order as nat));
                        heap.lemma_merge(new_block as int, new_block as int, order as nat);
                        assert forall|k: int, i: int|
                            0 <= k < self.lists().len() && 0 <= i < self.lists()[k].len() implies self.is_block(
                            #[trigger] self.lists()[k][i] as int,
                            k as nat,
                        ) by {
                            if k == order {
                                if i < li {
                                    assert(self.lists()[k][i] == before_lists[k][i]);
                                } else {
                                    assert(self.lists()[k][i] == before_lists[k][i + 1]);
                                }
                            } else {
                                assert(self.lists()[k][i] == before_lists[k][i]);
                            }
                        }
                        assert(order + 1 < n);
                    }
                    new_block = if buddy < new_block {
                        buddy
                    } else {
                        new_block
                    };
                    order = order + 1;
                    continue;
                } else {
                    assert(self.lists() =~= before_lists);
                    assert(self.lengths() =~= before_lengths);
                }
            }
            self.push_block(new_block, order);
            return;
        }
        proof {
            assert(false);
        }
    }
}

impl BuddyHeapAllocator {
    /// A block of the order that serves a request meets it: the block is
    /// aligned to the request's alignment and the request's size fits in the
    /// heap from there.
    pub proof fn lemma_block_serves_request(&self, size: usize, align: usize, b: int)
        requires
            self.wf(),
            self.request_ok(size, align),
            self.is_block(b, self.request_order(size, align)),
        ensures
            b % (align as int) == 0,
            b - self.start() + size <= self.size(),
    {
        self.lemma_request_size(size, align);
        let m = max3(size as nat, self.min_block_size as nat, align as nat);
        let rs = self.request_size(size, align);
        self.lemma_sizes(0);
        lemma_fill_below_ge((m - 1) as u64);
        assert(m <= self.heap_size);
        crate::math::lemma_fill_below((m - 1) as u64);
        assert(is_power_of_two(rs as nat));
        lemma_power_of_two_is_exp2(rs as nat);
        assert(self.block_size(self.request_order(size, align)) == rs);
        crate::math::lemma_pow2_multiple((b - self.start_addr) as nat, align as nat, rs as nat);
        crate::math::lemma_exp2_values();
        crate::math::lemma_exp2_is_power_of_two(12);
        crate::math::lemma_pow2_multiple(self.start_addr as nat, align as nat, 4096);
        vstd::arithmetic::div_mod::lemma_mod_adds(
            self.start_addr as int,
            b - self.start_addr,
            align as int,
        );
    }
}

} // verus!
