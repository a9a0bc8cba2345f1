//! Buddy-block heap allocator.
//!
//! The heap is a power-of-two sized region split into blocks whose sizes are
//! the minimum block size times a power of two (the block's *order*). Free
//! blocks of each order are kept on a free list; allocation pops a block of
//! the least sufficient order and splits it, and deallocation merges a block
//! with its free buddy as far as it can.
use vstd::prelude::*;
use crate::math::{
    exp2, is_power_of_two, ilog2, PowersOf2, lemma_exp2_pos, lemma_exp2_add,
    lemma_exp2_monotone, lemma_shl_one, lemma_mod_is_mask, lemma_mod_double,
    lemma_power_of_two_is_exp2, lemma_exp2_is_power_of_two,
};
use super::{
    Layout, AllocErr, AllocResult, Allocator, PAGE_SIZE, least_pow2_at_least,
    next_power_of_two, lemma_least_pow2, lemma_least_pow2_minimal,
};

verus! {

/// The error of a request the heap cannot serve: an alignment beyond a page,
/// or else a size beyond the heap.
pub open spec fn request_error(layout: Layout) -> AllocErr {
    if layout.spec_align() > PAGE_SIZE {
        AllocErr::Unsupported {
            details: "Cannot allocate requests with alignments greater than the base alignment of the heap!",
        }
    } else {
        AllocErr::Unsupported { details: "Cannot allocate requests larger than the heap!" }
    }
}


/// Size in bytes of a free block header (a link to the next and the previous
/// free block).
pub const FREE_BLOCK_SIZE: usize = 16;

/// The intervals `[a, a + sa)` and `[b, b + sb)` share a byte.
pub open spec fn overlap(a: int, sa: nat, b: int, sb: nat) -> bool {
    a < b + sb && b < a + sa
}

/// The largest of three numbers.
pub open spec fn max3(a: nat, b: nat, c: nat) -> nat {
    if a >= b && a >= c {
        a
    } else if b >= c {
        b
    } else {
        c
    }
}

/// The index of the last occurrence of `v` in `s` (or -1).
pub open spec fn last_index_of(s: Seq<usize>, v: usize) -> int
    decreases s.len(),
{
    if s.len() == 0 {
        -1
    } else if s.last() == v {
        s.len() - 1
    } else {
        last_index_of(s.drop_last(), v)
    }
}

pub proof fn lemma_last_index_of(s: Seq<usize>, v: usize)
    ensures
        s.contains(v) <==> 0 <= last_index_of(s, v) < s.len(),
        s.contains(v) ==> s[last_index_of(s, v)] == v,
        forall|j: int| last_index_of(s, v) < j < s.len() ==> s[j] != v,
        -1 <= last_index_of(s, v) < s.len(),
    decreases s.len(),
{
    if s.len() > 0 {
        lemma_last_index_of(s.drop_last(), v);
        if s.last() != v {
            assert forall|j: int| last_index_of(s, v) < j < s.len() implies s[j] != v by {
                if j < s.len() - 1 {
                    assert(s.drop_last()[j] == s[j]);
                }
            }
            if s.contains(v) {
                let i = choose|i: int| 0 <= i < s.len() && s[i] == v;
                assert(s.drop_last()[i] == v);
            }
        } else {
            assert(s[s.len() - 1] == v);
        }
    }
}

/// Structure with data for implementing the buddy block allocation strategy.
pub struct Heap {
    /// Address of the base of the heap.
    pub start_addr: usize,
    /// The allocator's free lists, one per order; the front of each list is
    /// its last element.
    free_lists: Vec<Vec<usize>>,
    /// Size of the heap in bytes (a power of 2).
    pub heap_size: usize,
    /// Minimum block size.
    pub min_block_size: usize,
}

impl Heap {
    /// Address of the base of the heap.
    pub closed spec fn start(&self) -> usize {
        self.start_addr
    }

    /// Size of the heap in bytes.
    pub closed spec fn size(&self) -> usize {
        self.heap_size
    }

    /// Minimum block size in bytes.
    pub closed spec fn min_size(&self) -> usize {
        self.min_block_size
    }

    /// The number of free lists (block orders).
    pub closed spec fn num_orders(&self) -> nat {
        self.free_lists@.len()
    }

    /// The free lists; the front of each list is its last element.
    pub closed spec fn lists(&self) -> Seq<Seq<usize>> {
        Seq::new(self.free_lists@.len(), |k: int| self.free_lists@[k]@)
    }

    /// There is one free list per order.
    pub proof fn lemma_lists_len(&self)
        ensures
            self.lists().len() == self.num_orders(),
    {
    }

    /// `log2` of the minimum block size.
    pub open spec fn min_log(&self) -> nat {
        ilog2(self.min_size() as nat)
    }

    /// The size of a block of order `k`.
    pub open spec fn block_size(&self, k: nat) -> nat {
        exp2(self.min_log() + k)
    }

    /// `b` is the address of a block of order `k` inside this heap.
    pub open spec fn is_block(&self, b: int, k: nat) -> bool {
        &&& self.start() <= b
        &&& (b - self.start()) % (self.block_size(k) as int) == 0
        &&& b - self.start() + self.block_size(k) <= self.size()
    }

    /// The block of order `k` at `b` shares no byte with any block of `lists`.
    pub open spec fn disjoint_from_free(&self, lists: Seq<Seq<usize>>, b: int, k: nat) -> bool {
        forall|j: int, i: int|
            0 <= j < lists.len() && 0 <= i < lists[j].len() ==> !overlap(
                b,
                self.block_size(k),
                #[trigger] lists[j][i] as int,
                self.block_size(j as nat),
            )
    }

    /// Every entry of `lists[k]` is a block of order `k`, and no two entries
    /// share a byte.
    pub open spec fn blocks_wf(&self, lists: Seq<Seq<usize>>) -> bool {
        &&& forall|k: int, i: int|
            0 <= k < lists.len() && 0 <= i < lists[k].len() ==> self.is_block(
                #[trigger] lists[k][i] as int,
                k as nat,
            )
        &&& forall|k1: int, i1: int, k2: int, i2: int|
            0 <= k1 < lists.len() && 0 <= i1 < lists[k1].len() && 0 <= k2 < lists.len() && 0
                <= i2 < lists[k2].len() && (k1 != k2 || i1 != i2) ==> !overlap(
                #[trigger] lists[k1][i1] as int,
                self.block_size(k1 as nat),
                #[trigger] lists[k2][i2] as int,
                self.block_size(k2 as nat),
            )
    }

    /// Parameters of a well-formed heap.
    pub open spec fn params_wf(&self) -> bool {
        &&& self.start() > 0
        &&& is_power_of_two(self.min_size() as nat)
        &&& self.min_size() >= FREE_BLOCK_SIZE
        &&& self.start() + self.size() <= usize::MAX
    }

    /// The heap's invariant: valid parameters, one free list per order up to
    /// the whole heap, and free lists holding disjoint blocks of the heap.
    pub open spec fn wf(&self) -> bool {
        &&& self.params_wf()
        &&& self.num_orders() >= 1
        &&& self.size() == self.block_size((self.num_orders() - 1) as nat)
        &&& self.blocks_wf(self.lists())
    }

    /// The size allocated for a request: the least power of two that is at
    /// least the request's size, its alignment and the minimum block size.
    pub open spec fn request_size(&self, layout: Layout) -> nat {
        least_pow2_at_least(
            max3(layout.spec_size() as nat, self.min_size() as nat, layout.spec_align() as nat),
        )
    }

    /// The heap can serve requests of this layout.
    pub open spec fn request_ok(&self, layout: Layout) -> bool {
        &&& layout.spec_align() <= PAGE_SIZE
        &&& self.request_size(layout) <= self.size()
    }

    /// The order of the blocks that serve requests of this layout.
    pub open spec fn request_order(&self, layout: Layout) -> nat {
        (ilog2(self.request_size(layout)) - self.min_log()) as nat
    }

    /// The least order from `k` on whose free list is not empty (or the
    /// number of lists, if there is none).
    pub open spec fn first_available(lists: Seq<Seq<usize>>, k: nat) -> nat
        decreases lists.len() - k,
    {
        if k >= lists.len() {
            lists.len()
        } else if lists[k as int].len() > 0 {
            k
        } else {
            Self::first_available(lists, k + 1)
        }
    }

    /// The free lists after splitting the block at `b` from order `hi` down
    /// to order `lo`: the upper half at each order `lo <= k < hi` is pushed
    /// onto free list `k`.
    pub open spec fn split_lists(&self, lists: Seq<Seq<usize>>, b: int, lo: nat, hi: nat) -> Seq<
        Seq<usize>,
    > {
        Seq::new(
            lists.len(),
            |k: int|
                if lo <= k < hi {
                    lists[k].push((b + self.block_size(k as nat)) as usize)
                } else {
                    lists[k]
                },
        )
    }

    /// The buddy of the block at `b` among blocks of order `k`.
    pub open spec fn buddy_of(&self, b: int, k: nat) -> int {
        self.start() + (((b - self.start()) as usize) ^ (self.block_size(k) as usize))
    }

    /// The free lists after releasing the block `nb` of order `k`: while
    /// its buddy is free, the buddy is taken off its list and the two merge
    /// into the block of the next order (at the lesser address); then the
    /// merged block is pushed.
    pub open spec fn release_lists(&self, lists: Seq<Seq<usize>>, nb: int, k: nat) -> Seq<
        Seq<usize>,
    >
        decreases lists.len() - k,
    {
        if k >= lists.len() {
            lists
        } else if self.block_size(k) < self.size() && lists[k as int].contains(
            self.buddy_of(nb, k) as usize,
        ) {
            let buddy = self.buddy_of(nb, k);
            self.release_lists(
                lists.update(
                    k as int,
                    lists[k as int].remove(last_index_of(lists[k as int], buddy as usize)),
                ),
                if buddy < nb {
                    buddy
                } else {
                    nb
                },
                k + 1,
            )
        } else {
            lists.update(k as int, lists[k as int].push(nb as usize))
        }
    }
}

} // verus!

verus! {

impl Heap {
    /// Facts about block sizes of a well-formed heap.
    proof fn lemma_sizes(&self, k: nat)
        requires
            self.wf(),
        ensures
            self.block_size(k) >= FREE_BLOCK_SIZE,
            self.block_size(k + 1) == 2 * self.block_size(k),
            exp2(self.min_log()) == self.min_block_size,
            self.min_log() + self.num_orders() - 1 < usize::BITS,
            k < self.num_orders() ==> self.block_size(k) <= self.heap_size,
            k + 1 < self.num_orders() ==> self.block_size(k) < self.heap_size,
            k + 1 >= self.num_orders() ==> self.block_size(k) >= self.heap_size,
            is_power_of_two(self.heap_size as nat),
            self.heap_size as nat * 2 <= usize::MAX as nat + 1,
    {
        let m = self.min_log();
        let n = self.num_orders();
        lemma_power_of_two_is_exp2(self.min_block_size as nat);
        lemma_exp2_monotone(m, m + k);
        lemma_exp2_is_power_of_two((m + n - 1) as nat);
        crate::math::lemma_exp2_values();
        if m + n - 1 >= usize::BITS {
            lemma_exp2_monotone(usize::BITS as nat, (m + n - 1) as nat);
        }
        if k < n {
            lemma_exp2_monotone(m + k, (m + n - 1) as nat);
        } else {
            lemma_exp2_monotone((m + n - 1) as nat, m + k);
        }
        if k + 1 < n {
            lemma_exp2_monotone(m + k + 1, (m + n - 1) as nat);
        }
        assert(self.block_size(k + 1) == 2 * exp2((m + k + 1 - 1) as nat));
        lemma_exp2_monotone((m + n - 1) as nat, (m + n) as nat);
        assert(exp2((m + n) as nat) == 2 * exp2((m + n - 1) as nat));
        if m + n >= usize::BITS + 1 {
            lemma_exp2_monotone(usize::BITS as nat, (m + n - 1) as nat);
        } else {
            lemma_exp2_monotone((m + n) as nat, usize::BITS as nat);
        }
    }

    /// Pushing a block that is disjoint from every free block keeps the free
    /// lists well formed.
    proof fn lemma_push_block(&self, lists: Seq<Seq<usize>>, k: int, b: usize)
        requires
            self.blocks_wf(lists),
            0 <= k < lists.len(),
            self.is_block(b as int, k as nat),
            self.disjoint_from_free(lists, b as int, k as nat),
        ensures
            self.blocks_wf(lists.update(k, lists[k].push(b))),
    {
        let nl = lists.update(k, lists[k].push(b));
        assert forall|k1: int, i1: int|
            0 <= k1 < nl.len() && 0 <= i1 < nl[k1].len() implies self.is_block(
            #[trigger] nl[k1][i1] as int,
            k1 as nat,
        ) by {
            if k1 == k && i1 == lists[k].len() {
            } else {
                assert(nl[k1][i1] == lists[k1][i1]);
            }
        }
        assert forall|k1: int, i1: int, k2: int, i2: int|
            0 <= k1 < nl.len() && 0 <= i1 < nl[k1].len() && 0 <= k2 < nl.len() && 0 <= i2
                < nl[k2].len() && (k1 != k2 || i1 != i2) implies !overlap(
            #[trigger] nl[k1][i1] as int,
            self.block_size(k1 as nat),
            #[trigger] nl[k2][i2] as int,
            self.block_size(k2 as nat),
        ) by {
            let new1 = k1 == k && i1 == lists[k].len();
            let new2 = k2 == k && i2 == lists[k].len();
            if !new1 {
                assert(nl[k1][i1] == lists[k1][i1]);
            }
            if !new2 {
                assert(nl[k2][i2] == lists[k2][i2]);
            }
            if new1 && !new2 {
                assert(!overlap(b as int, self.block_size(k as nat), lists[k2][i2] as int, self.block_size(k2 as nat)));
            }
            if new2 && !new1 {
                assert(!overlap(b as int, self.block_size(k as nat), lists[k1][i1] as int, self.block_size(k1 as nat)));
            }
        }
    }

    /// Taking a block off a free list keeps the lists well formed, and the
    /// block taken is disjoint from every block left.
    proof fn lemma_remove_block(&self, lists: Seq<Seq<usize>>, k: int, i: int)
        requires
            self.blocks_wf(lists),
            0 <= k < lists.len(),
            0 <= i < lists[k].len(),
        ensures
            self.blocks_wf(lists.update(k, lists[k].remove(i))),
            self.disjoint_from_free(lists.update(k, lists[k].remove(i)), lists[k][i] as int, k as nat),
            self.is_block(lists[k][i] as int, k as nat),
    {
        let nl = lists.update(k, lists[k].remove(i));
        assert forall|k1: int, i1: int|
            0 <= k1 < nl.len() && 0 <= i1 < nl[k1].len() implies nl[k1][i1] == lists[k1][if k1 == k
            && i1 >= i {
            i1 + 1
        } else {
            i1
        }] by {}
        assert forall|k1: int, i1: int|
            0 <= k1 < nl.len() && 0 <= i1 < nl[k1].len() implies self.is_block(
            #[trigger] nl[k1][i1] as int,
            k1 as nat,
        ) by {
            let j1 = if k1 == k && i1 >= i { i1 + 1 } else { i1 };
            assert(nl[k1][i1] == lists[k1][j1]);
        }
        assert forall|k1: int, i1: int, k2: int, i2: int|
            0 <= k1 < nl.len() && 0 <= i1 < nl[k1].len() && 0 <= k2 < nl.len() && 0 <= i2
                < nl[k2].len() && (k1 != k2 || i1 != i2) implies !overlap(
            #[trigger] nl[k1][i1] as int,
            self.block_size(k1 as nat),
            #[trigger] nl[k2][i2] as int,
            self.block_size(k2 as nat),
        ) by {
            let j1 = if k1 == k && i1 >= i { i1 + 1 } else { i1 };
            let j2 = if k2 == k && i2 >= i { i2 + 1 } else { i2 };
            assert(nl[k1][i1] == lists[k1][j1]);
            assert(nl[k2][i2] == lists[k2][j2]);
            assert(!overlap(lists[k1][j1] as int, self.block_size(k1 as nat), lists[k2][j2] as int, self.block_size(k2 as nat)));
        }
        assert forall|j: int, i1: int|
            0 <= j < nl.len() && 0 <= i1 < nl[j].len() implies !overlap(
            lists[k][i] as int,
            self.block_size(k as nat),
            #[trigger] nl[j][i1] as int,
            self.block_size(j as nat),
        ) by {
            let j1 = if j == k && i1 >= i { i1 + 1 } else { i1 };
            assert(nl[j][i1] == lists[j][j1]);
            assert(!overlap(lists[k][i] as int, self.block_size(k as nat), lists[j][j1] as int, self.block_size(j as nat)));
        }
    }
}

} // verus!

verus! {

impl Heap {
    /// The number of free lists.
    pub fn num_free_lists(&self) -> (r: usize)
        ensures
            r == self.num_orders(),
    {
        self.free_lists.len()
    }

    /// Computes the size allocated for a request of the given order.
    fn order_alloc_size(&self, order: usize) -> (r: usize)
        requires
            self.wf(),
            self.min_log() + order < usize::BITS,
        ensures
            r == self.block_size(order as nat),
    {
        let shift = self.min_block_size.log2() + order;
        proof {
            lemma_shl_one(shift);
        }
        1usize << shift
    }

    #[inline]
    fn push_block(&mut self, ptr: usize, order: usize)
        requires
            order < old(self).num_orders(),
        ensures
            final(self).lists() == old(self).lists().update(
                order as int,
                old(self).lists()[order as int].push(ptr),
            ),
            final(self).num_orders() == old(self).num_orders(),
            final(self).start_addr == old(self).start_addr,
            final(self).heap_size == old(self).heap_size,
            final(self).min_block_size == old(self).min_block_size,
    {
        self.free_lists[order].push(ptr);
        assert(self.lists() =~= old(self).lists().update(
            order as int,
            old(self).lists()[order as int].push(ptr),
        ));
    }

    #[inline]
    fn pop_block(&mut self, order: usize) -> (r: Option<usize>)
        requires
            order < old(self).num_orders(),
        ensures
            old(self).lists()[order as int].len() == 0 ==> r is None && final(self).lists()
                == old(self).lists(),
            old(self).lists()[order as int].len() > 0 ==> r == Some(
                old(self).lists()[order as int].last(),
            ) && final(self).lists() == old(self).lists().update(
                order as int,
                old(self).lists()[order as int].drop_last(),
            ),
            final(self).num_orders() == old(self).num_orders(),
            final(self).start_addr == old(self).start_addr,
            final(self).heap_size == old(self).heap_size,
            final(self).min_block_size == old(self).min_block_size,
    {
        let r = self.free_lists[order].pop();
        assert(self.lists() =~= if old(self).lists()[order as int].len() == 0 {
            old(self).lists()
        } else {
            old(self).lists().update(order as int, old(self).lists()[order as int].drop_last())
        });
        r
    }

    /// Finds and removes the target block from the free list of the given
    /// order, returning whether it was there.
    pub fn remove_block(&mut self, order: usize, block: usize) -> (r: bool)
        requires
            order < old(self).num_orders(),
        ensures
            r == old(self).lists()[order as int].contains(block),
            r ==> final(self).lists() == old(self).lists().update(
                order as int,
                old(self).lists()[order as int].remove(
                    last_index_of(old(self).lists()[order as int], block),
                ),
            ),
            !r ==> final(self).lists() == old(self).lists(),
            final(self).num_orders() == old(self).num_orders(),
            final(self).start() == old(self).start(),
            final(self).size() == old(self).size(),
            final(self).min_size() == old(self).min_size(),
    {
        let ghost s = old(self).lists()[order as int];
        proof {
            lemma_last_index_of(s, block);
        }
        let mut i = self.free_lists[order].len();
        while i > 0
            invariant
                self == old(self),
                order < self.num_orders(),
                s == self.lists()[order as int],
                i <= s.len(),
                forall|j: int| i <= j < s.len() ==> s[j] != block,
            decreases i,
        {
            if self.free_lists[order][i - 1] == block {
                assert(s[i - 1] == block);
                assert(s.contains(block));
                proof {
                    lemma_last_index_of(s, block);
                    let li = last_index_of(s, block);
                    assert(s[li] == block);
                    if li < i - 1 {
                        assert(s[i - 1] != block);
                    }
                }
                assert(last_index_of(s, block) == i - 1);
                self.free_lists[order].remove(i - 1);
                assert(self.lists() =~= old(self).lists().update(order as int, s.remove(i - 1)));
                return true;
            }
            i = i - 1;
        }
        proof {
            lemma_last_index_of(s, block);
            if s.contains(block) {
                assert(s[last_index_of(s, block)] == block);
            }
        }
        false
    }

    /// Finds the buddy block of the block at `block` among blocks of the
    /// given order, or `None` if a block of that order is the whole heap.
    pub fn get_buddy(&self, order: usize, block: usize) -> (r: Option<usize>)
        requires
            self.wf(),
            self.min_log() + order < usize::BITS,
            self.start() <= block,
            self.block_size(order as nat) < self.size() ==> self.buddy_of(block as int, order as nat)
                <= usize::MAX,
        ensures
            r == if self.block_size(order as nat) < self.size() {
                Some(self.buddy_of(block as int, order as nat) as usize)
            } else {
                None::<usize>
            },
            r matches Some(b) ==> b == self.buddy_of(block as int, order as nat),
    {
        proof {
            self.lemma_sizes(order as nat);
        }
        let block_size = self.order_alloc_size(order);
        if block_size < self.heap_size {
            let block_pos = block - self.start_addr;
            Some(self.start_addr + (block_pos ^ block_size))
        } else {
            None
        }
    }
}

pub(crate) proof fn lemma_xor_aligned_bits(p: usize, k: usize)
    requires
        k + 1 < usize::BITS,
    ensures
        (p ^ (1usize << k)) & (((1usize << k) - 1) as usize) == 0 ==> p & (((1usize << k) - 1) as usize) == 0,
        p & (((1usize << k) - 1) as usize) == 0 && p & (1usize << k) == 0 ==> (p ^ (1usize << k)) == p + (1usize << k) && p & (((1usize << ((k + 1) as usize)) - 1) as usize) == 0,
        p & (((1usize << k) - 1) as usize) == 0 && p & (1usize << k) != 0 ==> (p ^ (1usize << k)) == p - (1usize << k) && ((p - (1usize << k)) as usize) & (((1usize << ((k + 1) as usize)) - 1) as usize) == 0,
{
    assert(k + 1 < usize::BITS ==> ((p ^ (1usize << k)) & (((1usize << k) - 1) as usize) == 0 ==> p & (((1usize << k) - 1) as usize) == 0)) by (bit_vector);
    assert(k + 1 < usize::BITS ==> (p & (((1usize << k) - 1) as usize) == 0 && p & (1usize << k) == 0 ==> (p ^ (1usize << k)) == p + (1usize << k) && p & (((1usize << ((k + 1) as usize)) - 1) as usize) == 0)) by (bit_vector);
    assert(k + 1 < usize::BITS ==> (p & (((1usize << k) - 1) as usize) == 0 && p & (1usize << k) != 0 ==> (p ^ (1usize << k)) == p - (1usize << k) && ((p - (1usize << k)) as usize) & (((1usize << ((k + 1) as usize)) - 1) as usize) == 0)) by (bit_vector);
}

pub(crate) proof fn lemma_xor_below(p: usize, s: usize, kk: usize)
    requires
        kk < usize::BITS,
        p < (1usize << kk),
        s < (1usize << kk),
    ensures
        (p ^ s) < (1usize << kk),
{
    assert(kk < usize::BITS && p < (1usize << kk) && s < (1usize << kk) ==> (p ^ s) < (1usize << kk)) by (bit_vector);
}

} // verus!

verus! {

impl Heap {
    /// Facts about the size and order that serve a request.
    proof fn lemma_request(&self, layout: Layout)
        requires
            self.wf(),
            self.request_ok(layout),
        ensures
            is_power_of_two(self.request_size(layout)),
            self.request_size(layout) >= self.min_block_size,
            self.request_size(layout) >= layout.spec_size(),
            self.request_size(layout) >= layout.spec_align(),
            ilog2(self.request_size(layout)) >= self.min_log(),
            self.block_size(self.request_order(layout)) == self.request_size(layout),
            self.request_order(layout) < self.num_orders(),
    {
        let s = self.request_size(layout);
        let m = self.min_log();
        lemma_least_pow2(
            max3(layout.spec_size() as nat, self.min_block_size as nat, layout.spec_align() as nat),
        );
        self.lemma_sizes(0);
        crate::math::lemma_ilog2_monotone_pow2(self.min_block_size as nat, s);
        lemma_power_of_two_is_exp2(s);
        crate::math::lemma_ilog2_le_of_le_exp2(s, (m + self.num_orders() - 1) as nat);
    }

    /// Computes the size of an allocation request: the next power of 2 after
    /// the size of the request, its alignment, or the minimum block size
    /// (whichever is greatest).
    ///
    /// Requests aligned beyond a page, or larger than the heap, are
    /// unsupported.
    pub fn alloc_size(&self, layout: &Layout) -> (r: AllocResult<usize>)
        requires
            self.wf(),
            layout.spec_size() as nat * 2 <= usize::MAX as nat + 1,
        ensures
            self.request_ok(*layout) ==> r == Ok::<usize, AllocErr>(
                self.request_size(*layout) as usize,
            ),
            !self.request_ok(*layout) ==> r == Err::<usize, AllocErr>(request_error(*layout)),
    {
        proof {
            self.lemma_sizes(0);
        }
        let align = layout.align();
        if align > PAGE_SIZE {
            Err(
                AllocErr::Unsupported {
                    details: "Cannot allocate requests with alignments greater than the base alignment of the heap!",
                },
            )
        } else {
            let size = layout.size();
            let rest = if self.min_block_size >= align {
                self.min_block_size
            } else {
                align
            };
            let biggest = if size >= rest {
                size
            } else {
                rest
            };
            let alloc_size = next_power_of_two(biggest);
            if alloc_size > self.heap_size {
                Err(AllocErr::Unsupported { details: "Cannot allocate requests larger than the heap!" })
            } else {
                Ok(alloc_size)
            }
        }
    }

    /// Computes the order of an allocation request: the number of times the
    /// minimum block size must be doubled to serve it.
    pub fn alloc_order(&self, layout: &Layout) -> (r: AllocResult<usize>)
        requires
            self.wf(),
            layout.spec_size() as nat * 2 <= usize::MAX as nat + 1,
        ensures
            self.request_ok(*layout) ==> r == Ok::<usize, AllocErr>(
                self.request_order(*layout) as usize,
            ) && self.request_order(*layout) < self.num_orders(),
            !self.request_ok(*layout) ==> r == Err::<usize, AllocErr>(request_error(*layout)),
    {
        match self.alloc_size(layout) {
            Ok(s) => {
                proof {
                    self.lemma_request(*layout);
                }
                Ok(s.log2() - self.min_block_size.log2())
            },
            Err(e) => Err(e),
        }
    }
}

} // verus!

verus! {

impl Heap {
    /// The free lists of a new heap: the whole heap as one free block of the
    /// highest order.
    pub open spec fn initial_lists(n: nat, start: usize) -> Seq<Seq<usize>> {
        Seq::new(
            n,
            |k: int|
                if k == n - 1 {
                    seq![start]
                } else {
                    Seq::<usize>::empty()
                },
        )
    }

    /// Construct a new `Heap` at `start_addr` of `heap_size` bytes with
    /// `n_free_lists` free lists (the number of block orders).
    ///
    /// The minimum block size is `heap_size >> (n_free_lists - 1)`; the whole
    /// heap is pushed onto the free lists as one block.
    pub fn new(start_addr: usize, n_free_lists: usize, heap_size: usize) -> (heap: Heap)
        requires
            start_addr != 0,
            start_addr % 4096 == 0,
            n_free_lists > 0,
            n_free_lists - 1 < usize::BITS,
            heap_size as nat / exp2((n_free_lists - 1) as nat) >= FREE_BLOCK_SIZE,
            is_power_of_two(heap_size as nat),
            start_addr + heap_size <= usize::MAX,
        ensures
            heap.wf(),
            heap.start() == start_addr,
            heap.size() == heap_size,
            heap.min_size() == heap_size as nat / exp2((n_free_lists - 1) as nat),
            heap.num_orders() == n_free_lists,
            heap.lists() == Self::initial_lists(n_free_lists as nat, start_addr),
    {
        let shift = n_free_lists - 1;
        let min_block_size = heap_size >> shift;
        proof {
            vstd::bits::lemma_usize_shr_is_div(heap_size, shift);
            crate::math::lemma_exp2_is_pow2(shift as nat);
            let h = ilog2(heap_size as nat);
            lemma_power_of_two_is_exp2(heap_size as nat);
            if h < shift {
                crate::math::lemma_exp2_strict(h, shift as nat);
                lemma_exp2_pos(shift as nat);
                assert(heap_size as nat / exp2(shift as nat) == 0) by (nonlinear_arith)
                    requires heap_size < exp2(shift as nat);
            }
            let lo = (h - shift) as nat;
            lemma_exp2_add(lo, shift as nat);
            lemma_exp2_pos(shift as nat);
            vstd::arithmetic::div_mod::lemma_div_multiples_vanish(
                exp2(lo) as int,
                exp2(shift as nat) as int,
            );
            assert(exp2(lo) * exp2(shift as nat) == exp2(shift as nat) * exp2(lo)) by (nonlinear_arith);
            assert(min_block_size == exp2(lo));
            lemma_exp2_is_power_of_two(lo);
            assert(lo + shift == h);
        }
        let mut free_lists: Vec<Vec<usize>> = Vec::new();
        let mut i: usize = 0;
        while i < n_free_lists
            invariant
                i <= n_free_lists,
                free_lists@.len() == i,
                forall|k: int| 0 <= k < i ==> (#[trigger] free_lists@[k])@.len() == 0,
            decreases n_free_lists - i,
        {
            free_lists.push(Vec::new());
            i = i + 1;
        }
        let mut heap = Heap { start_addr, free_lists, heap_size, min_block_size };
        assert(heap.lists() =~~= Seq::new(n_free_lists as nat, |k: int| Seq::<usize>::empty()));
        assert(heap.wf());
        let layout = Layout::from_size_align(heap_size, 1);
        proof {
            lemma_least_pow2(heap_size as nat);
            heap.lemma_sizes(0);
            assert(heap.request_size(layout) == heap_size);
            assert(heap.request_ok(layout));
            heap.lemma_request(layout);
            crate::math::lemma_power_of_two_is_exp2(heap_size as nat);
            lemma_exp2_is_power_of_two((heap.min_log() + n_free_lists - 1) as nat);
        }
        let root_order = heap.alloc_order(&layout).expect(
            "Couldn't determine heap root allocation order!",
        );
        proof {
            assert(root_order == n_free_lists - 1);
            assert(heap.block_size(root_order as nat) == heap_size);
            assert(0int % (heap_size as int) == 0);
            assert(heap.is_block(start_addr as int, root_order as nat));
            heap.lemma_push_block(heap.lists(), root_order as int, start_addr);
        }
        heap.push_block(start_addr, root_order);
        assert(heap.lists() =~~= Self::initial_lists(n_free_lists as nat, start_addr));
        heap
    }
}

} // verus!

verus! {

impl Heap {
    /// Splitting a block of order `k + 1` that no free block overlaps: both
    /// halves are blocks of order `k`, the upper half is disjoint from every
    /// free block, and once it is pushed the lower half still is.
    proof fn lemma_split_step(&self, lists: Seq<Seq<usize>>, b: int, k: nat)
        requires
            self.wf(),
            k + 1 < self.num_orders(),
            self.is_block(b, k + 1),
            self.disjoint_from_free(lists, b, k + 1),
            b + self.block_size(k) <= usize::MAX,
        ensures
            self.is_block(b, k),
            self.is_block(b + self.block_size(k), k),
            self.disjoint_from_free(lists, b + self.block_size(k), k),
            forall|kk: int| 0 <= kk < lists.len() ==> self.disjoint_from_free(
                lists.update(kk, lists[kk].push((b + self.block_size(k)) as usize)),
                b,
                k,
            ),
    {
        self.lemma_sizes(k);
        let s = self.block_size(k);
        lemma_mod_double(b - self.start_addr, s as int);
        let nb = (b + s) as usize;
        assert forall|kk: int| 0 <= kk < lists.len() implies self.disjoint_from_free(
            lists.update(kk, lists[kk].push(nb)),
            b,
            k,
        ) by {
            let nl = lists.update(kk, lists[kk].push(nb));
            assert forall|j: int, i: int| 0 <= j < nl.len() && 0 <= i < nl[j].len() implies !overlap(
                b,
                self.block_size(k),
                #[trigger] nl[j][i] as int,
                self.block_size(j as nat),
            ) by {
                if j == kk && i == lists[kk].len() {
                } else {
                    assert(nl[j][i] == lists[j][i]);
                    assert(!overlap(b, self.block_size(k + 1), lists[j][i] as int, self.block_size(j as nat)));
                }
            }
        }
        assert forall|j: int, i: int| 0 <= j < lists.len() && 0 <= i < lists[j].len() implies !overlap(
            b + s,
            self.block_size(k),
            #[trigger] lists[j][i] as int,
            self.block_size(j as nat),
        ) by {
            assert(!overlap(b, self.block_size(k + 1), lists[j][i] as int, self.block_size(j as nat)));
        }
    }

    /// Merging a block with its free buddy: the merged block is a block of
    /// the next order that no remaining free block overlaps, and it still
    /// holds `ptr`.
    proof fn lemma_merge_step(&self, lists: Seq<Seq<usize>>, ptr: int, nb: int, k: nat)
        requires
            self.wf(),
            self.blocks_wf(lists),
            k + 1 < self.num_orders(),
            0 <= k < lists.len(),
            self.is_block(nb, k),
            self.disjoint_from_free(lists, nb, k),
            nb <= ptr < nb + self.block_size(k),
            lists[k as int].contains(self.buddy_of(ptr, k) as usize),
        ensures
            ({
                let buddy = self.buddy_of(ptr, k);
                let nl = lists.update(
                    k as int,
                    lists[k as int].remove(last_index_of(lists[k as int], buddy as usize)),
                );
                let merged = if buddy < nb {
                    buddy
                } else {
                    nb
                };
                &&& self.blocks_wf(nl)
                &&& self.is_block(merged, k + 1)
                &&& self.disjoint_from_free(nl, merged, k + 1)
                &&& merged <= ptr < merged + self.block_size(k + 1)
                &&& 0 <= buddy <= usize::MAX
            }),
    {
        self.lemma_sizes(k);
        let kk = (self.min_log() + k) as usize;
        lemma_shl_one(kk);
        lemma_shl_one((kk + 1) as usize);
        let sz = 1usize << kk;
        let p = (ptr - self.start_addr) as usize;
        assert(self.block_size(k) as usize == sz);
        let hk = (self.min_log() + self.num_orders() - 1) as usize;
        lemma_shl_one(hk);
        lemma_xor_below(p, sz, hk);
        assert(self.buddy_of(ptr, k) == self.start_addr + (p ^ sz));
        let buddy_u = self.buddy_of(ptr, k) as usize;
        let s = lists[k as int];
        lemma_last_index_of(s, buddy_u);
        let i = last_index_of(s, buddy_u);
        self.lemma_remove_block(lists, k as int, i);
        let buddy = buddy_u as int;
        let q = nb - self.start_addr;
        assert(buddy == self.start_addr + (p ^ sz));
        lemma_mod_is_mask(p ^ sz, kk);
        lemma_mod_is_mask(p, kk);
        lemma_mod_is_mask(p, (kk + 1) as usize);
        lemma_xor_aligned_bits(p, kk);
        assert(p % sz == 0);
        let pi = p as int;
        let si = sz as int;
        assert(pi == q) by (nonlinear_arith)
            requires
                pi % si == 0,
                q % si == 0,
                q <= pi < q + si,
                si > 0,
        {
            let a = pi / si;
            let b = q / si;
            assert(pi == si * a);
            assert(q == si * b);
        }
        let nl = lists.update(k as int, s.remove(i));
        let merged = if buddy < nb { buddy } else { nb };
        if p & sz == 0 {
            assert(p ^ sz == p + sz);
            lemma_mod_is_mask(p, (kk + 1) as usize);
        } else {
            assert(p ^ sz == p - sz);
            lemma_mod_is_mask((p - sz) as usize, (kk + 1) as usize);
        }
        assert(self.is_block(merged, k + 1));
        assert((merged == nb && buddy == nb + self.block_size(k)) || (merged == buddy && nb == buddy
            + self.block_size(k)));
        assert forall|j: int, i1: int| 0 <= j < nl.len() && 0 <= i1 < nl[j].len() implies !overlap(
            merged,
            self.block_size(k + 1),
            #[trigger] nl[j][i1] as int,
            self.block_size(j as nat),
        ) by {
            let j1 = if j == k && i1 >= i { i1 + 1 } else { i1 };
            self.lemma_sizes(j as nat);
            assert(nl[j][i1] == lists[j][j1]);
            assert(!overlap(nb, self.block_size(k), lists[j][j1] as int, self.block_size(j as nat)));
            assert(!overlap(buddy, self.block_size(k), nl[j][i1] as int, self.block_size(j as nat)));
        }
    }

    /// Splits a block of order `old_order` down to order `new_order`, pushing
    /// the upper half at each order onto that order's free list.
    fn split_block(&mut self, block: usize, old_order: usize, new_order: usize)
        requires
            old(self).wf(),
            new_order < old_order < old(self).num_orders(),
            old(self).is_block(block as int, old_order as nat),
            old(self).disjoint_from_free(old(self).lists(), block as int, old_order as nat),
        ensures
            final(self).wf(),
            final(self).lists() == old(self).split_lists(
                old(self).lists(),
                block as int,
                new_order as nat,
                old_order as nat,
            ),
            final(self).is_block(block as int, new_order as nat),
            final(self).disjoint_from_free(final(self).lists(), block as int, new_order as nat),
            final(self).num_orders() == old(self).num_orders(),
            final(self).start_addr == old(self).start_addr,
            final(self).heap_size == old(self).heap_size,
            final(self).min_block_size == old(self).min_block_size,
    {
        proof {
            old(self).lemma_sizes(old_order as nat);
            assert(old(self).lists() =~~= old(self).split_lists(
                old(self).lists(),
                block as int,
                old_order as nat,
                old_order as nat,
            ));
        }
        let mut split_size = self.order_alloc_size(old_order);
        let mut order = old_order;
        while order > new_order
            invariant
                self.wf(),
                self.num_orders() == old(self).num_orders(),
                self.start_addr == old(self).start_addr,
                self.heap_size == old(self).heap_size,
                self.min_block_size == old(self).min_block_size,
                new_order <= order <= old_order < self.num_orders(),
                split_size == self.block_size(order as nat),
                self.lists() == old(self).split_lists(
                    old(self).lists(),
                    block as int,
                    order as nat,
                    old_order as nat,
                ),
                self.is_block(block as int, order as nat),
                self.disjoint_from_free(self.lists(), block as int, order as nat),
            decreases order,
        {
            order = order - 1;
            proof {
                self.lemma_sizes(order as nat);
            }
            assert(split_size >> 1 == split_size / 2) by (bit_vector);
            split_size = split_size >> 1;
            let ghost before = self.lists();
            proof {
                self.lemma_split_step(before, block as int, order as nat);
                self.lemma_push_block(before, order as int, (block + split_size) as usize);
            }
            self.push_block(block + split_size, order);
            assert(self.lists() =~~= old(self).split_lists(
                old(self).lists(),
                block as int,
                order as nat,
                old_order as nat,
            ));
        }
    }
}

} // verus!

verus! {

/// What `allocate` does: the heap's geometry stays; a request the heap
/// cannot serve fails with `request_error` and changes nothing; otherwise
/// the block at the back of the first non-empty free list of a sufficient
/// order is taken and split down to the request's order, or the heap is
/// exhausted when there is none.
pub open spec fn heap_allocated(old: Heap, new: Heap, layout: Layout, r: AllocResult<usize>) -> bool {
    &&& new.start() == old.start()
    &&& new.size() == old.size()
    &&& new.min_size() == old.min_size()
    &&& new.num_orders() == old.num_orders()
    &&& !old.request_ok(layout) ==> r == Err::<usize, AllocErr>(request_error(layout))
        && new.lists() == old.lists()
    &&& old.request_ok(layout) ==> ({
        let lists = old.lists();
        let o = old.request_order(layout);
        let j = Heap::first_available(lists, o);
        if j == lists.len() {
            r == Err::<usize, AllocErr>(AllocErr::Exhausted { request: layout })
                && new.lists() == lists
        } else {
            r == Ok::<usize, AllocErr>(lists[j as int].last()) && new.lists() == old.split_lists(
                lists.update(j as int, lists[j as int].drop_last()),
                lists[j as int].last() as int,
                o,
                j,
            )
        }
    })
}

impl Allocator for Heap {
    open spec fn inv(&self) -> bool {
        self.wf()
    }

    /// A block may be released when it is a block of the order that serves
    /// `layout` and no free block overlaps it (it was allocated and has not
    /// been released since).
    open spec fn can_release(&self, ptr: usize, layout: Layout) -> bool {
        &&& self.request_ok(layout)
        &&& self.is_block(ptr as int, self.request_order(layout))
        &&& self.disjoint_from_free(self.lists(), ptr as int, self.request_order(layout))
    }

    open spec fn request_fits(&self, layout: Layout) -> bool {
        layout.spec_size() as nat * 2 <= usize::MAX as nat + 1
    }

    /// Returns a block meeting the size and alignment of `layout`.
    ///
    /// The block is taken from the free list of the least sufficient order
    /// that has one, and split down to the order of the request; the upper
    /// halves go back onto the free lists. Requests the heap cannot serve are
    /// `Unsupported`; when every sufficient free list is empty the heap is
    /// `Exhausted`.
    fn allocate(&mut self, layout: Layout) -> (r: AllocResult<usize>)
        ensures
            heap_allocated(*old(self), *final(self), layout, r),
            r matches Ok(b) ==> final(self).is_block(b as int, old(self).request_order(layout))
                && final(self).disjoint_from_free(
                final(self).lists(),
                b as int,
                old(self).request_order(layout),
            ),
            r matches Ok(b) ==> (b - old(self).start()) % (layout.spec_align() as int) == 0 && b
                - old(self).start() + layout.spec_size() <= old(self).size(),
    {
        let align = layout.align();
        let min_order = match self.alloc_order(&layout) {
            Ok(order) => {
                if order > self.free_lists.len() - 1 {
                    return Err(AllocErr::Exhausted { request: layout });
                } else {
                    order
                }
            },
            Err(e) => {
                return Err(e);
            },
        };
        let ghost lists = old(self).lists();
        let mut order = min_order;
        while order < self.free_lists.len()
            invariant
                self.wf(),
                self.lists() == lists,
                lists == old(self).lists(),
                self.start_addr == old(self).start_addr,
                self.heap_size == old(self).heap_size,
                self.min_block_size == old(self).min_block_size,
                self.num_orders() == old(self).num_orders(),
                min_order == old(self).request_order(layout),
                old(self).request_ok(layout),
                is_power_of_two(layout.spec_align() as nat),
                min_order <= order <= self.num_orders(),
                Self::first_available(lists, min_order as nat) == Self::first_available(
                    lists,
                    order as nat,
                ),
            decreases self.num_orders() - order,
        {
            if let Some(block) = self.pop_block(order) {
                proof {
                    assert(Self::first_available(lists, order as nat) == order);
                    let s = lists[order as int];
                    assert(s.drop_last() =~= s.remove(s.len() - 1));
                    self.lemma_remove_block(lists, order as int, s.len() - 1);
                }
                if order > min_order {
                    self.split_block(block, order, min_order);
                    assert(self.lists() =~~= old(self).split_lists(
                        lists.update(order as int, lists[order as int].drop_last()),
                        block as int,
                        min_order as nat,
                        order as nat,
                    ));
                } else {
                    assert(self.lists() =~~= old(self).split_lists(
                        self.lists(),
                        block as int,
                        min_order as nat,
                        order as nat,
                    ));
                }
                proof {
                    old(self).lemma_block_serves_request(layout, block as int);
                }
                return Ok(block);
            }
            order = order + 1;
        }
        Err(AllocErr::Exhausted { request: layout })
    }

    /// Releases a block: while the buddy of the block merged so far is free,
    /// it is taken off its free list and merged with the block; the merged
    /// block is then pushed onto the free list of its order.
    fn deallocate(&mut self, ptr: usize, layout: Layout)
        ensures
            final(self).start() == old(self).start(),
            final(self).size() == old(self).size(),
            final(self).min_size() == old(self).min_size(),
            final(self).num_orders() == old(self).num_orders(),
            final(self).lists() == old(self).release_lists(
                old(self).lists(),
                ptr as int,
                old(self).request_order(layout),
            ),
    {
        proof {
            self.lemma_request(layout);
            self.lemma_sizes(0);
        }
        let min_order = self.alloc_order(&layout).unwrap();
        proof {
            self.lemma_sizes(min_order as nat);
        }
        let mut new_block = ptr;
        let mut order = min_order;
        while order < self.free_lists.len()
            invariant
                self.wf(),
                self.start_addr == old(self).start_addr,
                self.heap_size == old(self).heap_size,
                self.min_block_size == old(self).min_block_size,
                self.num_orders() == old(self).num_orders(),
                min_order <= order < self.num_orders(),
                min_order == old(self).request_order(layout),
                self.is_block(new_block as int, order as nat),
                self.disjoint_from_free(self.lists(), new_block as int, order as nat),
                old(self).release_lists(old(self).lists(), ptr as int, min_order as nat)
                    == old(self).release_lists(self.lists(), new_block as int, order as nat),
            decreases self.num_orders() - order,
        {
            proof {
                self.lemma_sizes(order as nat);
            }
            let ghost before = self.lists();
            let ghost heap = *self;
            proof {
                if self.block_size(order as nat) < self.heap_size {
                    let hk = (self.min_log() + self.num_orders() - 1) as usize;
                    lemma_shl_one(hk);
                    lemma_xor_below((new_block - self.start_addr) as usize, self.block_size(order as nat) as usize, hk);
                }
            }
            if let Some(buddy) = self.get_buddy(order, new_block) {
                if self.remove_block(order, buddy) {
                    proof {
                        heap.lemma_merge_step(before, new_block as int, new_block as int, order as nat);
                    }
                    new_block = if buddy < new_block {
                        buddy
                    } else {
                        new_block
                    };
                    order = order + 1;
                    continue;
                }
            }
            proof {
                self.lemma_push_block(before, order as int, new_block);
                assert(old(self).release_lists(before, new_block as int, order as nat)
                    == before.update(order as int, before[order as int].push(new_block)));
            }
            self.push_block(new_block, order);
            return;
        }
    }

}

} // verus!

verus! {

impl Heap {
    /// Adds a block of the maximum order to the free lists.
    ///
    /// The caller guarantees that the block is a block of the heap's highest
    /// order that is not in use (no free block overlaps it).
    pub fn add_block(&mut self, block: usize)
        requires
            old(self).wf(),
            old(self).is_block(block as int, (old(self).num_orders() - 1) as nat),
            old(self).disjoint_from_free(
                old(self).lists(),
                block as int,
                (old(self).num_orders() - 1) as nat,
            ),
        ensures
            final(self).wf(),
            final(self).start() == old(self).start(),
            final(self).size() == old(self).size(),
            final(self).min_size() == old(self).min_size(),
            final(self).lists() == old(self).lists().update(
                old(self).num_orders() - 1,
                old(self).lists()[old(self).num_orders() - 1].push(block),
            ),
    {
        let order = self.free_lists.len() - 1;
        proof {
            self.lemma_push_block(self.lists(), order as int, block);
        }
        self.push_block(block, order);
    }

    /// Buddies are mutual: the buddy of a block of order `k` (below the whole
    /// heap) is itself a block of order `k`, and its buddy is the block.
    pub proof fn lemma_buddy_symmetric(&self, b: int, k: nat)
        requires
            self.wf(),
            k + 1 < self.num_orders(),
            self.is_block(b, k),
        ensures
            self.is_block(self.buddy_of(b, k), k),
            self.buddy_of(self.buddy_of(b, k), k) == b,
    {
        self.lemma_sizes(k);
        self.lemma_sizes(k + 1);
        let kk = (self.min_log() + k) as usize;
        lemma_shl_one(kk);
        lemma_shl_one((kk + 1) as usize);
        let sz = 1usize << kk;
        let p = (b - self.start_addr) as usize;
        let hk = (self.min_log() + self.num_orders() - 1) as usize;
        lemma_shl_one(hk);
        lemma_xor_below(p, sz, hk);
        let x = p ^ sz;
        assert((p ^ sz) ^ sz == p) by (bit_vector);
        assert(self.buddy_of(self.buddy_of(b, k), k) == b);
        lemma_mod_is_mask(p, kk);
        lemma_mod_is_mask(x, kk);
        lemma_mod_is_mask(p, (kk + 1) as usize);
        lemma_xor_aligned_bits(p, kk);
        assert(x & ((sz - 1) as usize) == 0) by (bit_vector)
            requires
                p & ((sz - 1) as usize) == 0,
                x == p ^ sz,
                sz == 1usize << kk,
                kk + 1 < usize::BITS,
        ;
        if p & sz == 0 {
            // p is a multiple of 2 * size, so p + 2 * size stays within the heap
            let h = self.heap_size as int;
            let s2 = 2 * (sz as int);
            lemma_exp2_add((self.min_log() + k + 1) as nat, (self.num_orders() - 1 - k - 1) as nat);
            assert(h == s2 * exp2((self.num_orders() - 1 - k - 1) as nat));
            let a = (p as int) / s2;
            let c = exp2((self.num_orders() - 1 - k - 1) as nat) as int;
            assert((p as int) + s2 <= h) by (nonlinear_arith)
                requires
                    (p as int) % s2 == 0,
                    (p as int) + s2 / 2 <= h,
                    h == s2 * c,
                    s2 > 0,
                    s2 % 2 == 0,
            {
                let a = (p as int) / s2;
                assert(p as int == s2 * a);
                assert(a < c);
            }
        }
    }
}

} // verus!

verus! {

impl Heap {
    proof fn lemma_first_available(lists: Seq<Seq<usize>>, k: nat)
        ensures
            Self::first_available(lists, k) == lists.len() || (k <= Self::first_available(lists, k)
                < lists.len() && lists[Self::first_available(lists, k) as int].len() > 0),
        decreases lists.len() - k,
    {
        if k < lists.len() && lists[k as int].len() == 0 {
            Self::lemma_first_available(lists, k + 1);
        }
    }

    /// Releasing the lower block of a split walks back up the split: each
    /// upper half pushed by the split is the front of its free list and is
    /// merged back, until the order the split started from.
    proof fn lemma_release_split(&self, lists: Seq<Seq<usize>>, b: int, k: nat, j: nat)
        requires
            self.wf(),
            lists.len() == self.num_orders(),
            k <= j < self.num_orders(),
            self.is_block(b, j),
            j + 1 == self.num_orders() || !lists[j as int].contains(self.buddy_of(b, j) as usize),
        ensures
            self.release_lists(self.split_lists(lists, b, k, j), b, k) == lists.update(
                j as int,
                lists[j as int].push(b as usize),
            ),
        decreases j - k,
    {
        let sl = self.split_lists(lists, b, k, j);
        self.lemma_sizes(k);
        self.lemma_sizes(j);
        if k == j {
            assert(sl =~~= lists);
        } else {
            let kk = (self.min_log() + k) as usize;
            lemma_shl_one(kk);
            lemma_shl_one((kk + 1) as usize);
            let sz = 1usize << kk;
            let p = (b - self.start_addr) as usize;
            // p is a multiple of the order-j size, hence of twice the order-k size
            lemma_exp2_add((self.min_log() + k + 1) as nat, (j - k - 1) as nat);
            let big = self.block_size(j) as int;
            let s2 = self.block_size(k + 1) as int;
            let c = exp2((j - k - 1) as nat) as int;
            lemma_exp2_pos((j - k - 1) as nat);
            assert(big == s2 * c);
            assert((p as int) % s2 == 0) by (nonlinear_arith)
                requires
                    (p as int) % big == 0,
                    big == s2 * c,
                    s2 > 0,
                    c > 0,
            {
                let a = (p as int) / big;
                assert(p as int == big * a);
                assert(p as int == s2 * (c * a));
                vstd::arithmetic::div_mod::lemma_mod_multiples_basic(c * a, s2);
            }
            lemma_mod_is_mask(p, (kk + 1) as usize);
            assert(p & ((sz - 1) as usize) == 0 && p & sz == 0) by (bit_vector)
                requires
                    p & ((((1usize << ((kk + 1) as usize)) - 1) as usize)) == 0,
                    sz == 1usize << kk,
                    kk + 1 < usize::BITS,
            ;
            lemma_xor_aligned_bits(p, kk);
            let s = self.block_size(k) as int;
            assert(self.buddy_of(b, k) == b + s);
            let top = lists[k as int].push((b + s) as usize);
            assert(sl[k as int] == top);
            assert(last_index_of(top, (b + s) as usize) == lists[k as int].len());
            assert(top.remove(lists[k as int].len() as int) =~= lists[k as int]);
            assert(sl[k as int].contains((b + s) as usize)) by {
                assert(top[top.len() - 1] == (b + s) as usize);
            }
            let next = sl.update(k as int, lists[k as int]);
            assert(next =~~= self.split_lists(lists, b, k + 1, j));
            self.lemma_release_split(lists, b, k + 1, j);
        }
    }

    /// A block of the order that serves a request meets it: it lies at an
    /// offset from the heap's start that is a multiple of the request's
    /// alignment, and the request's size fits in the heap from there.
    pub proof fn lemma_block_serves_request(&self, layout: Layout, b: int)
        requires
            self.wf(),
            is_power_of_two(layout.spec_align() as nat),
            self.request_ok(layout),
            self.is_block(b, self.request_order(layout)),
        ensures
            (b - self.start()) % (layout.spec_align() as int) == 0,
            b - self.start() + layout.spec_size() <= self.size(),
    {
        self.lemma_request(layout);
        crate::math::lemma_pow2_multiple(
            (b - self.start_addr) as nat,
            layout.spec_align() as nat,
            self.request_size(layout),
        );
    }

    /// Releasing the block that `allocate` has just returned, with the same
    /// layout, gives back exactly the free lists from before the allocation,
    /// unless the block taken off its free list had a free buddy (so that
    /// the release merges further than the allocation split).
    pub proof fn lemma_release_undoes_allocate(&self, layout: Layout)
        requires
            self.wf(),
            self.request_ok(layout),
            ({
                let lists = self.lists();
                let j = Self::first_available(lists, self.request_order(layout));
                &&& j < lists.len()
                &&& (j + 1 == lists.len() || !lists[j as int].drop_last().contains(
                    self.buddy_of(lists[j as int].last() as int, j) as usize,
                ))
            }),
        ensures
            ({
                let lists = self.lists();
                let o = self.request_order(layout);
                let j = Self::first_available(lists, o);
                let b = lists[j as int].last() as int;
                self.release_lists(
                    self.split_lists(lists.update(j as int, lists[j as int].drop_last()), b, o, j),
                    b,
                    o,
                ) == lists
            }),
    {
        let lists = self.lists();
        let o = self.request_order(layout);
        Self::lemma_first_available(lists, o);
        let j = Self::first_available(lists, o);
        let s = lists[j as int];
        let b = s.last() as int;
        assert(self.is_block(b, j)) by {
            assert(s[s.len() - 1] == s.last());
        }
        let l1 = lists.update(j as int, s.drop_last());
        self.lemma_release_split(l1, b, o, j);
        assert(l1.update(j as int, l1[j as int].push(b as usize)) =~~= lists);
    }
}

} // verus!

verus! {

impl Heap {
    /// The block of order `k` at `b` is on the free list of order `k`.
    pub open spec fn is_free(lists: Seq<Seq<usize>>, k: nat, b: int) -> bool {
        &&& k < lists.len()
        &&& 0 <= b <= usize::MAX
        &&& lists[k as int].contains(b as usize)
    }

    /// Both halves of the block of order `k + 1` at `b` are free.
    pub open spec fn halves_free(&self, lists: Seq<Seq<usize>>, k: nat, b: int) -> bool {
        Self::is_free(lists, k, b) && Self::is_free(lists, k, b + self.block_size(k))
    }

    /// No block below the whole heap has both its halves free.
    pub open spec fn coalesced(&self, lists: Seq<Seq<usize>>) -> bool {
        forall|k: nat, b: int|
            #[trigger] self.halves_free(lists, k, b) ==> !(k + 1 < lists.len() && self.is_block(
                b,
                k + 1,
            ))
    }

    /// The block of order `k` at `b` is free or handed out (one of `used`).
    pub open spec fn held(lists: Seq<Seq<usize>>, used: Set<(nat, int)>, k: nat, b: int) -> bool {
        Self::is_free(lists, k, b) || used.contains((k, b))
    }

    /// The block of order `k` at `b` is made up of blocks that are free or
    /// handed out: it is one of them, or both its halves are made up so.
    pub open spec fn made_up(&self, lists: Seq<Seq<usize>>, used: Set<(nat, int)>, k: nat, b: int) -> bool
        decreases k,
    {
        Self::held(lists, used, k, b) || (k > 0 && self.made_up(lists, used, (k - 1) as nat, b)
            && self.made_up(lists, used, (k - 1) as nat, b + self.block_size((k - 1) as nat)))
    }

    /// The free lists account for the heap with the blocks of `used` handed
    /// out: the whole heap is made up of free and handed-out blocks, and no
    /// two free blocks are the halves of one block.
    pub open spec fn accounts_for(&self, lists: Seq<Seq<usize>>, used: Set<(nat, int)>) -> bool {
        &&& self.made_up(lists, used, (self.num_orders() - 1) as nat, self.start() as int)
        &&& self.coalesced(lists)
    }

    /// The halves of a block of order `k + 1` are each other's buddies.
    proof fn lemma_halves_are_buddies(&self, x: int, k: nat)
        requires
            self.wf(),
            k + 1 < self.num_orders(),
            self.is_block(x, k + 1),
        ensures
            self.is_block(x, k),
            self.is_block(x + self.block_size(k), k),
            self.buddy_of(x, k) == x + self.block_size(k),
            self.buddy_of(x + self.block_size(k), k) == x,
    {
        self.lemma_sizes(k);
        self.lemma_sizes(k + 1);
        let s = self.block_size(k);
        lemma_mod_double(x - self.start_addr, s as int);
        let kk = (self.min_log() + k) as usize;
        lemma_shl_one(kk);
        lemma_shl_one((kk + 1) as usize);
        let sz = 1usize << kk;
        let p = (x - self.start_addr) as usize;
        lemma_mod_is_mask(p, (kk + 1) as usize);
        assert(p & (((1usize << ((kk + 1) as usize)) - 1) as usize) == 0);
        assert(p & (((1usize << kk) - 1) as usize) == 0 && p & (1usize << kk) == 0) by (bit_vector)
            requires
                p & (((1usize << ((kk + 1) as usize)) - 1) as usize) == 0,
                kk + 1 < usize::BITS,
        ;
        lemma_xor_aligned_bits(p, kk);
        assert(self.buddy_of(x, k) == x + s);
        self.lemma_buddy_symmetric(x, k);
    }

    /// A made-up block that is not free holds, at or below its order, a
    /// block whose halves are both free.
    proof fn lemma_free_halves(&self, lists: Seq<Seq<usize>>, k: nat, b: int) -> (r: (nat, int))
        requires
            self.wf(),
            k < self.num_orders(),
            self.is_block(b, k),
            self.made_up(lists, Set::empty(), k, b),
            !Self::is_free(lists, k, b),
        ensures
            r.0 + 1 <= k,
            self.is_block(r.1, r.0 + 1),
            self.halves_free(lists, r.0, r.1),
        decreases k,
    {
        assert(!Set::<(nat, int)>::empty().contains((k, b)));
        let j = (k - 1) as nat;
        self.lemma_sizes(j);
        let s = self.block_size(j);
        lemma_mod_double(b - self.start_addr, s as int);
        assert(self.is_block(b, j));
        assert(self.is_block(b + s, j));
        if !Self::is_free(lists, j, b) {
            self.lemma_free_halves(lists, j, b)
        } else if !Self::is_free(lists, j, b + s) {
            self.lemma_free_halves(lists, j, b + s)
        } else {
            (j, b)
        }
    }

    /// Once no block is handed out, free lists that account for the heap
    /// hold the whole heap as one free block, as a new heap's lists do.
    pub proof fn lemma_all_released(&self)
        requires
            self.wf(),
            self.accounts_for(self.lists(), Set::empty()),
        ensures
            self.lists() == Self::initial_lists(self.num_orders(), self.start()),
    {
        let lists = self.lists();
        let n = self.num_orders();
        let top = (n - 1) as nat;
        let st = self.start_addr as int;
        self.lemma_sizes(top);
        vstd::arithmetic::div_mod::lemma_small_mod(0, self.block_size(top));
        assert(self.is_block(st, top));
        if !Self::is_free(lists, top, st) {
            let r = self.lemma_free_halves(lists, top, st);
            assert(self.halves_free(lists, r.0, r.1));
        }
        let i0 = choose|i: int| 0 <= i < lists[top as int].len() && lists[top as int][i] == st;
        assert forall|k: int, i: int| 0 <= k < n && 0 <= i < lists[k].len() implies #[trigger] lists[k][i]
            == st && k == top && i == i0 by {
            if !(k == top && i == i0) {
                self.lemma_sizes(k as nat);
                assert(self.is_block(lists[k][i] as int, k as nat));
                assert(!overlap(
                    lists[top as int][i0] as int,
                    self.block_size(top),
                    lists[k][i] as int,
                    self.block_size(k as nat),
                ));
            }
        }
        assert forall|k: int| 0 <= k < n && k != top implies lists[k].len() == 0 by {
            if lists[k].len() > 0 {
                assert(lists[k][0] == st);
            }
        }
        assert(lists[top as int].len() == 1) by {
            if lists[top as int].len() > 1 {
                assert(lists[top as int][0] == st);
                assert(lists[top as int][1] == st);
            }
        }
        assert(lists =~~= Self::initial_lists(n, self.start()));
    }

    /// A new heap's free lists account for the heap with nothing handed out.
    pub proof fn lemma_initial_accounts(&self)
        requires
            self.wf(),
            self.lists() == Self::initial_lists(self.num_orders(), self.start()),
        ensures
            self.accounts_for(self.lists(), Set::empty()),
    {
        let lists = self.lists();
        let n = self.num_orders();
        let top = (n - 1) as nat;
        assert(lists[top as int][0] == self.start_addr);
        assert(Self::is_free(lists, top, self.start() as int));
        assert forall|k: nat, b: int| #[trigger] self.halves_free(lists, k, b) implies !(k + 1
            < lists.len() && self.is_block(b, k + 1)) by {
            if k + 1 < lists.len() {
                assert(lists[k as int].len() == 0);
            }
        }
    }
}

/// Between two multiples of `m`, the lesser is at least `m` below the greater.
proof fn lemma_multiple_gap(a: int, c1: int, c2: int, m: int)
    requires
        m > 0,
        a >= 0,
        c1 >= 0,
        c2 >= 0,
        a % m == 0,
        c1 % m == 0,
        c2 % m == 0,
        a < c1 + c2,
    ensures
        a + m <= c1 + c2,
{
    let qa = a / m;
    let q1 = c1 / m;
    let q2 = c2 / m;
    assert(a == m * qa) by (nonlinear_arith)
        requires
            a % m == 0,
            m > 0,
            qa == a / m,
    ;
    assert(c1 + c2 == m * (q1 + q2)) by (nonlinear_arith)
        requires
            c1 % m == 0,
            c2 % m == 0,
            m > 0,
            q1 == c1 / m,
            q2 == c2 / m,
    ;
    assert(qa < q1 + q2) by (nonlinear_arith)
        requires
            m * qa < m * (q1 + q2),
            m > 0,
    ;
    assert(m * qa + m <= m * (q1 + q2)) by (nonlinear_arith)
        requires
            qa + 1 <= q1 + q2,
            m > 0,
    ;
}

impl Heap {
    /// Blocks of a lower order divide those of a higher one.
    proof fn lemma_block_divides(&self, lo: nat, hi: nat, x: int)
        requires
            self.wf(),
            lo <= hi,
            x >= 0,
            x % (self.block_size(hi) as int) == 0,
        ensures
            x % (self.block_size(lo) as int) == 0,
            self.block_size(lo) <= self.block_size(hi),
            self.block_size(lo) > 0,
    {
        self.lemma_sizes(lo);
        lemma_exp2_monotone(self.min_log() + lo, self.min_log() + hi);
        lemma_exp2_is_power_of_two(self.min_log() + lo);
        lemma_exp2_is_power_of_two(self.min_log() + hi);
        crate::math::lemma_pow2_multiple(x as nat, self.block_size(lo), self.block_size(hi));
    }

    /// A made-up block stays made up when the blocks held change, as long as
    /// every held block but the one at `b` of order `j` stays held and that
    /// one is made up afterwards.
    proof fn lemma_made_up_replace(
        &self,
        l1: Seq<Seq<usize>>,
        u1: Set<(nat, int)>,
        l2: Seq<Seq<usize>>,
        u2: Set<(nat, int)>,
        j: nat,
        b: int,
        kk: nat,
        bb: int,
    )
        requires
            self.made_up(l1, u1, kk, bb),
            self.made_up(l2, u2, j, b),
            forall|k: nat, x: int|
                #[trigger] Self::held(l1, u1, k, x) && (k != j || x != b) ==> Self::held(l2, u2, k, x),
        ensures
            self.made_up(l2, u2, kk, bb),
        decreases kk,
    {
        if Self::held(l1, u1, kk, bb) {
            if kk != j || bb != b {
                assert(Self::held(l2, u2, kk, bb));
            }
        } else {
            let h = (kk - 1) as nat;
            self.lemma_made_up_replace(l1, u1, l2, u2, j, b, h, bb);
            self.lemma_made_up_replace(l1, u1, l2, u2, j, b, h, bb + self.block_size(h));
        }
    }

    /// A made-up block stays made up when the two halves of the block of
    /// order `q` at `p` give way to that block: every held block but those
    /// halves stays held, and the block at `p` is held. The block at `bb`
    /// contains the one at `p` or shares no byte with it.
    proof fn lemma_made_up_merge(
        &self,
        l1: Seq<Seq<usize>>,
        u1: Set<(nat, int)>,
        l2: Seq<Seq<usize>>,
        u2: Set<(nat, int)>,
        q: nat,
        p: int,
        kk: nat,
        bb: int,
    )
        requires
            self.wf(),
            1 <= q < self.num_orders(),
            kk < self.num_orders(),
            self.is_block(p, q),
            self.is_block(bb, kk),
            Self::held(l2, u2, q, p),
            self.made_up(l1, u1, kk, bb),
            forall|k: nat, x: int|
                #[trigger] Self::held(l1, u1, k, x) && !(k + 1 == q && p <= x < p + self.block_size(
                    q,
                )) ==> Self::held(l2, u2, k, x),
            (q <= kk && bb <= p && p + self.block_size(q) <= bb + self.block_size(kk)) || !overlap(
                bb,
                self.block_size(kk),
                p,
                self.block_size(q),
            ),
        ensures
            self.made_up(l2, u2, kk, bb),
        decreases kk,
    {
        self.lemma_sizes(kk);
        self.lemma_sizes(q);
        if kk == q && bb == p {
        } else if Self::held(l1, u1, kk, bb) {
            if kk + 1 == q && p <= bb < p + self.block_size(q) {
                assert(false);
            }
            assert(Self::held(l2, u2, kk, bb));
        } else {
            let h = (kk - 1) as nat;
            self.lemma_sizes(h);
            let hs = self.block_size(h);
            let st = self.start_addr as int;
            lemma_mod_double(bb - st, hs as int);
            assert(self.is_block(bb, h));
            assert(self.is_block(bb + hs, h));
            if q <= kk && bb <= p && p + self.block_size(q) <= bb + self.block_size(kk) {
                if kk == q {
                    assert(false);
                }
                self.lemma_block_divides(q, kk, bb - st);
                self.lemma_block_divides(q, q, p - st);
                self.lemma_block_divides(q, h, hs as int);
                assert((hs as int) % (hs as int) == 0) by (nonlinear_arith)
                    requires
                        hs > 0,
                ;
                self.lemma_block_divides(q, h, hs as int);
                if p < bb + hs {
                    lemma_multiple_gap(
                        p - st,
                        bb - st,
                        hs as int,
                        self.block_size(q) as int,
                    );
                }
            }
            self.lemma_made_up_merge(l1, u1, l2, u2, q, p, h, bb);
            self.lemma_made_up_merge(l1, u1, l2, u2, q, p, h, bb + hs);
        }
    }
}

impl Heap {
    proof fn lemma_first_available_empty(lists: Seq<Seq<usize>>, o: nat, k: nat)
        requires
            o <= k < Self::first_available(lists, o),
        ensures
            k < lists.len(),
            lists[k as int].len() == 0,
        decreases k - o,
    {
        if o < k {
            Self::lemma_first_available_empty(lists, o + 1, k);
        }
    }

    /// After a split of the block at `b` from order `j` down to order `o`,
    /// with the lower block of order `o` handed out, the block of order `k`
    /// at `b` is made up, for `o <= k <= j`.
    proof fn lemma_split_made_up(
        &self,
        l1: Seq<Seq<usize>>,
        used: Set<(nat, int)>,
        b: int,
        o: nat,
        j: nat,
        k: nat,
    )
        requires
            self.wf(),
            o <= k <= j < self.num_orders(),
            j < l1.len(),
            self.is_block(b, j),
            used.contains((o, b)),
        ensures
            self.made_up(self.split_lists(l1, b, o, j), used, k, b),
        decreases k,
    {
        if k > o {
            let h = (k - 1) as nat;
            self.lemma_split_made_up(l1, used, b, o, j, h);
            let l2 = self.split_lists(l1, b, o, j);
            self.lemma_sizes(j);
            vstd::arithmetic::div_mod::lemma_small_mod(0, self.block_size(j));
            self.lemma_block_divides(h, j, 0);
            self.lemma_sizes(h);
            assert(l2[h as int] == l1[h as int].push((b + self.block_size(h)) as usize));
            assert(l2[h as int][l1[h as int].len() as int] == (b + self.block_size(h)) as usize);
            assert(Self::is_free(l2, h, b + self.block_size(h)));
            assert(self.made_up(l2, used, h, b + self.block_size(h)));
        } else {
            assert(Self::held(self.split_lists(l1, b, o, j), used, k, b));
        }
    }

    /// Allocating keeps the accounting, with the block handed out added to
    /// `used`.
    pub proof fn lemma_allocate_accounts(&self, layout: Layout, used: Set<(nat, int)>)
        requires
            self.wf(),
            self.request_ok(layout),
            self.accounts_for(self.lists(), used),
            Self::first_available(self.lists(), self.request_order(layout)) < self.num_orders(),
        ensures
            ({
                let lists = self.lists();
                let o = self.request_order(layout);
                let j = Self::first_available(lists, o);
                let b = lists[j as int].last();
                self.accounts_for(
                    self.split_lists(lists.update(j as int, lists[j as int].drop_last()), b as int, o, j),
                    used.insert((o, b as int)),
                )
            }),
    {
        let lists = self.lists();
        let n = self.num_orders();
        let top = (n - 1) as nat;
        let st = self.start_addr as int;
        let o = self.request_order(layout);
        Self::lemma_first_available(lists, o);
        let j = Self::first_available(lists, o);
        let s = lists[j as int];
        let b = s.last() as int;
        assert(self.is_block(b, j)) by {
            assert(s[s.len() - 1] == s.last());
        }
        let l1 = lists.update(j as int, s.drop_last());
        let l2 = self.split_lists(l1, b, o, j);
        let u2 = used.insert((o, b));
        assert forall|k: nat, x: int| #[trigger] Self::held(lists, used, k, x) && (k != j || x != b)
            implies Self::held(l2, u2, k, x) by {
            if Self::is_free(lists, k, x) {
                let i = choose|i: int| 0 <= i < lists[k as int].len() && lists[k as int][i] == x as usize;
                if k == j {
                    assert(i != s.len() - 1);
                    assert(l1[k as int][i] == x as usize);
                    assert(l2[k as int] == l1[k as int]);
                    assert(l2[k as int][i] == x as usize);
                } else {
                    assert(l1[k as int] == lists[k as int]);
                    assert(l2[k as int][i] == x as usize);
                }
            }
        }
        self.lemma_split_made_up(l1, u2, b, o, j, j);
        self.lemma_made_up_replace(lists, used, l2, u2, j, b, top, st);
        assert forall|k: nat, x: int| #[trigger] self.halves_free(l2, k, x) implies !(k + 1 < l2.len()
            && self.is_block(x, k + 1)) by {
            if o <= k < j {
                Self::lemma_first_available_empty(lists, o, k);
                self.lemma_sizes(k);
                assert(l2[k as int] =~= seq![(b + self.block_size(k)) as usize]);
            } else if k < l2.len() {
                assert(l2[k as int] == l1[k as int]);
                let i1 = choose|i: int| 0 <= i < l2[k as int].len() && l2[k as int][i] == x as usize;
                let i2 = choose|i: int|
                    0 <= i < l2[k as int].len() && l2[k as int][i] == (x + self.block_size(k)) as usize;
                assert(lists[k as int][i1] == x as usize);
                assert(lists[k as int][i2] == (x + self.block_size(k)) as usize);
                assert(self.halves_free(lists, k, x));
            }
        }
    }

    /// Releasing the block `nb` of order `k`, with `nb` counted as handed
    /// out, keeps the accounting without it.
    #[verifier::rlimit(60)]
    proof fn lemma_release_accounts_from(
        &self,
        lists: Seq<Seq<usize>>,
        used: Set<(nat, int)>,
        nb: int,
        k: nat,
    )
        requires
            self.wf(),
            lists.len() == self.num_orders(),
            self.blocks_wf(lists),
            k < self.num_orders(),
            self.is_block(nb, k),
            self.disjoint_from_free(lists, nb, k),
            self.made_up(
                lists,
                used.insert((k, nb)),
                (self.num_orders() - 1) as nat,
                self.start() as int,
            ),
            self.coalesced(lists),
        ensures
            self.made_up(
                self.release_lists(lists, nb, k),
                used,
                (self.num_orders() - 1) as nat,
                self.start() as int,
            ),
            self.coalesced(self.release_lists(lists, nb, k)),
        decreases self.num_orders() - k,
    {
        let n = self.num_orders();
        let top = (n - 1) as nat;
        let st = self.start_addr as int;
        self.lemma_sizes(k);
        self.lemma_sizes(top);
        vstd::arithmetic::div_mod::lemma_small_mod(0, self.block_size(top));
        assert(self.is_block(st, top));
        let bud = self.buddy_of(nb, k);
        let u1 = used.insert((k, nb));
        if self.block_size(k) < self.size() && lists[k as int].contains(bud as usize) {
            self.lemma_merge_step(lists, nb, nb, k);
            let li = last_index_of(lists[k as int], bud as usize);
            lemma_last_index_of(lists[k as int], bud as usize);
            let l1 = lists.update(k as int, lists[k as int].remove(li));
            let parent = if bud < nb {
                bud
            } else {
                nb
            };
            self.lemma_halves_are_buddies(parent, k);
            self.lemma_buddy_symmetric(nb, k);
            self.lemma_sizes(k + 1);
            let u2 = used.insert((k + 1, parent));
            assert forall|k2: nat, x: int| #[trigger] Self::held(lists, u1, k2, x) && !(k2 + 1 == k
                + 1 && parent <= x < parent + self.block_size(k + 1)) implies Self::held(
                l1,
                u2,
                k2,
                x,
            ) by {
                if Self::is_free(lists, k2, x) {
                    let i = choose|i: int|
                        0 <= i < lists[k2 as int].len() && lists[k2 as int][i] == x as usize;
                    if k2 == k {
                        if i < li {
                            assert(l1[k2 as int][i] == x as usize);
                        } else {
                            assert(i != li);
                            assert(l1[k2 as int][i - 1] == x as usize);
                        }
                    } else {
                        assert(l1[k2 as int] == lists[k2 as int]);
                    }
                }
            }
            self.lemma_made_up_merge(lists, u1, l1, u2, k + 1, parent, top, st);
            assert forall|k2: nat, x: int| #[trigger] self.halves_free(l1, k2, x) implies !(k2 + 1
                < l1.len() && self.is_block(x, k2 + 1)) by {
                if k2 < l1.len() {
                    let i1 = choose|i: int| 0 <= i < l1[k2 as int].len() && l1[k2 as int][i] == x as usize;
                    let i2 = choose|i: int|
                        0 <= i < l1[k2 as int].len() && l1[k2 as int][i] == (x + self.block_size(k2)) as usize;
                    if k2 == k {
                        let j1 = if i1 < li { i1 } else { i1 + 1 };
                        let j2 = if i2 < li { i2 } else { i2 + 1 };
                        assert(lists[k2 as int][j1] == x as usize);
                        assert(lists[k2 as int][j2] == (x + self.block_size(k2)) as usize);
                    } else {
                        assert(lists[k2 as int][i1] == x as usize);
                        assert(lists[k2 as int][i2] == (x + self.block_size(k2)) as usize);
                    }
                    assert(self.halves_free(lists, k2, x));
                }
            }
            self.lemma_release_accounts_from(l1, used, parent, k + 1);
            assert(self.release_lists(lists, nb, k) == self.release_lists(l1, parent, k + 1));
        } else {
            let l2 = lists.update(k as int, lists[k as int].push(nb as usize));
            assert(self.release_lists(lists, nb, k) == l2);
            assert(l2[k as int][lists[k as int].len() as int] == nb as usize);
            assert forall|k2: nat, x: int| #[trigger] Self::held(lists, u1, k2, x) && (k2 != k || x
                != nb) implies Self::held(l2, used, k2, x) by {
                if Self::is_free(lists, k2, x) {
                    let i = choose|i: int|
                        0 <= i < lists[k2 as int].len() && lists[k2 as int][i] == x as usize;
                    assert(l2[k2 as int][i] == x as usize);
                }
            }
            self.lemma_made_up_replace(lists, u1, l2, used, k, nb, top, st);
            assert forall|k2: nat, x: int| #[trigger] self.halves_free(l2, k2, x) implies !(k2 + 1
                < l2.len() && self.is_block(x, k2 + 1)) by {
                if k2 + 1 < l2.len() && self.is_block(x, k2 + 1) {
                    let s2 = self.block_size(k2);
                    self.lemma_sizes(k2);
                    let i1 = choose|i: int| 0 <= i < l2[k2 as int].len() && l2[k2 as int][i] == x as usize;
                    let i2 = choose|i: int|
                        0 <= i < l2[k2 as int].len() && l2[k2 as int][i] == (x + s2) as usize;
                    if k2 != k {
                        assert(lists[k2 as int][i1] == x as usize);
                        assert(lists[k2 as int][i2] == (x + s2) as usize);
                        assert(self.halves_free(lists, k2, x));
                    } else {
                        self.lemma_halves_are_buddies(x, k);
                        let m = lists[k as int].len() as int;
                        if i1 < m && i2 < m {
                            assert(lists[k as int][i1] == x as usize);
                            assert(lists[k as int][i2] == (x + s2) as usize);
                            assert(self.halves_free(lists, k, x));
                        } else if i1 == m {
                            assert(lists[k as int][i2] == (x + s2) as usize);
                            assert(lists[k as int].contains(bud as usize));
                        } else {
                            assert(lists[k as int][i1] == x as usize);
                            assert(lists[k as int].contains(bud as usize));
                        }
                    }
                }
            }
        }
    }

    /// Releasing a handed-out block as `deallocate` does keeps the
    /// accounting, with the block taken out of `used`.
    pub proof fn lemma_release_accounts(&self, ptr: int, o: nat, used: Set<(nat, int)>)
        requires
            self.wf(),
            o < self.num_orders(),
            self.is_block(ptr, o),
            used.contains((o, ptr)),
            self.disjoint_from_free(self.lists(), ptr, o),
            self.accounts_for(self.lists(), used),
        ensures
            self.accounts_for(self.release_lists(self.lists(), ptr, o), used.remove((o, ptr))),
    {
        let u = used.remove((o, ptr));
        assert(u.insert((o, ptr)) =~= used);
        self.lemma_release_accounts_from(self.lists(), u, ptr, o);
    }
}

} // verus!
