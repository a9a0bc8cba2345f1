//! Carving kernel stacks out of a range of virtual pages.
use vstd::prelude::*;
use core::ops::Range;
use crate::memory::{VAddr, VirtualPage, PageRange};
use crate::allocator::{AllocErr, AllocResult, Layout, PAGE_SIZE};
use crate::math::lemma_4096_is_power_of_two;

verus! {

/// A stack: from its top (the end of its last page) down to its bottom (the
/// base of its first page).
pub type Stack = Range<VAddr>;

/// The pages of a new stack, and the stack they make.
#[derive(Debug)]
pub struct StackPages {
    /// The stack's first page (the guard page lies just before it).
    pub start_page: VirtualPage,
    /// The stack's last page.
    pub end_page: VirtualPage,
    /// The stack.
    pub stack: Stack,
}

/// Takes a stack of `num_pages` pages from the front of `pages`, after one
/// guard page.
///
/// A stack of no pages is unsupported; when `pages` has fewer than
/// `num_pages + 1` pages the request is exhausted and `pages` stays as it
/// was. Otherwise the guard page and the stack's pages leave `pages`;
/// `PageTables::map_stack` then maps the pages from `start_page` to
/// `end_page`.
pub fn allocate_stack(pages: &mut PageRange, num_pages: usize) -> (r: AllocResult<StackPages>)
    requires
        num_pages * 4096 <= usize::MAX,
        old(pages).end.number * 4096 + 4096 <= usize::MAX,
    ensures
        num_pages == 0 ==> r == Err::<StackPages, AllocErr>(
            AllocErr::Unsupported { details: "Why would you try to allocate a zero-page stack?" },
        ) && *final(pages) == *old(pages),
        num_pages > 0 && old(pages).start.number + num_pages >= old(pages).end.number ==> r
            == Err::<StackPages, AllocErr>(
            AllocErr::Exhausted {
                request: Layout::from_size_align_spec((num_pages * 4096) as usize, PAGE_SIZE),
            },
        ) && *final(pages) == *old(pages),
        num_pages > 0 && old(pages).start.number + num_pages < old(pages).end.number ==> ({
            let s = old(pages).start.number;
            &&& r matches Ok(p) && p.start_page.number == s + 1 && p.end_page.number == s
                + num_pages && p.stack.start@ == (s + num_pages) * 4096 + 4096 && p.stack.end@
                == (s + 1) * 4096
            &&& final(pages).start.number == s + num_pages + 1
            &&& final(pages).end == old(pages).end
        }),
{
    if num_pages == 0 {
        return Err(
            AllocErr::Unsupported { details: "Why would you try to allocate a zero-page stack?" },
        );
    }
    let s = pages.start.number;
    let e = pages.end.number;
    if s >= e || e - s <= num_pages {
        proof {
            lemma_4096_is_power_of_two();
        }
        return Err(
            AllocErr::Exhausted { request: Layout::from_size_align(PAGE_SIZE * num_pages, PAGE_SIZE) },
        );
    }
    let start_page = VirtualPage { number: s + 1 };
    let end_page = VirtualPage { number: s + num_pages };
    pages.start = VirtualPage { number: s + num_pages + 1 };
    proof {
        assert(end_page.number * 4096 + 4096 <= usize::MAX) by (nonlinear_arith)
            requires
                end_page.number < e,
                e * 4096 + 4096 <= usize::MAX,
        ;
        assert(start_page.number * 4096 <= usize::MAX) by (nonlinear_arith)
            requires
                start_page.number < e,
                e * 4096 + 4096 <= usize::MAX,
        ;
    }
    let top = end_page.end_address();
    let bottom = start_page.base();
    Ok(StackPages { start_page, end_page, stack: top..bottom })
}

} // verus!
