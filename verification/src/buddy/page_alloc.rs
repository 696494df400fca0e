//! The page allocator over a buddy-block allocator: it hands out ranges of
//! pages no larger than the minimum block size, and takes them back.
use vstd::prelude::*;

use super::{block_size_for, layout_ok, max_size, Alloc, Free, FreeView, NUM_ORDERS};
use crate::addr::PAddr;
use crate::math::log2_ceil_spec;
use crate::mem::page::{AllocErr, PageRange, Size};

verus! {

/// A page allocator backed by a buddy-block allocator.
pub struct BuddyAlloc {
    min_size: usize,
    alloc: Alloc,
}

impl BuddyAlloc {
    /// The buddy-block allocator that backs this one.
    pub closed spec fn inner(&self) -> Alloc {
        self.alloc
    }

    /// The minimum page size this allocator was made with: no page larger
    /// than it is handed out.
    pub closed spec fn min_size_spec(&self) -> usize {
        self.min_size
    }

    /// Returns the minimum page size this allocator was made with.
    pub fn min_size(&self) -> (r: usize)
        ensures
            r == self.min_size_spec(),
    {
        self.min_size
    }

    /// Returns a page allocator with the default number of free lists, all
    /// empty, and minimum page size `min_size`. The blocks it splits memory
    /// into are never smaller than `min_size` rounded up to a power of two
    /// large enough for a block header.
    pub fn new_default(min_size: usize) -> (r: Self)
        requires
            log2_ceil_spec(max_size(min_size, vstd::layout::size_of::<Free>() as usize) as nat)
                + NUM_ORDERS <= usize::BITS,
        ensures
            r.min_size_spec() == min_size,
            r.inner().wf(),
            r.inner().min_size_spec() == block_size_for(min_size),
            r.inner().lists() == Seq::new(NUM_ORDERS as nat, |o: int| Seq::<FreeView>::empty()),
            r.inner().vm_offset_spec() == 0,
            r.inner().base_vaddr_spec() == usize::MAX,
            r.inner().heap_size_spec() == 0,
    {
        BuddyAlloc { min_size, alloc: Alloc::new_default(min_size) }
    }

    /// Returns a page allocator backed by `alloc`, whose minimum page size
    /// is that of `alloc`.
    pub fn from_alloc(alloc: Alloc) -> (r: Self)
        ensures
            r.inner() == alloc,
            r.min_size_spec() == alloc.min_size_spec(),
    {
        let min_size = alloc.min_size();
        BuddyAlloc { min_size, alloc }
    }

    /// Returns the buddy-block allocator that backs this one.
    pub fn into_inner(self) -> (r: Alloc)
        ensures
            r == self.inner(),
    {
        self.alloc
    }

    /// Returns the size of the block to allocate for `len` pages of
    /// `page_size`: their byte size rounded up to the minimum block size and
    /// to a power of two. Returns an error if the byte size overflows or
    /// the rounded size is larger than the heap.
    pub fn size_for<S: Size>(&self, page_size: S, len: usize) -> (r: Result<usize, AllocErr>)
        requires
            self.inner().wf(),
            page_size.spec_size() * len <= usize::MAX ==> layout_ok(
                (page_size.spec_size() * len) as usize,
                page_size.spec_size(),
            ),
        ensures
            page_size.spec_size() * len > usize::MAX ==> r is Err,
            page_size.spec_size() * len <= usize::MAX ==> {
                let total = (page_size.spec_size() * len) as usize;
                match self.inner().size_for_spec(total, page_size.spec_size()) {
                    Some(v) => r == Ok::<usize, AllocErr>(v),
                    None => r is Err,
                }
            },
    {
        let total = match page_size.as_usize().checked_mul(len) {
            Some(t) => t,
            None => return Err(AllocErr::oom()),
        };
        match self.alloc.size_for(total, page_size.as_usize()) {
            Some(v) => Ok(v),
            None => Err(AllocErr::oom()),
        }
    }

    /// Allocates a range of at least `len` pages of `size` (see
    /// [`Alloc::alloc_range`]). Pages larger than the minimum page size
    /// this allocator was made with are refused.
    pub fn alloc_range<S: Size>(&mut self, size: S, len: usize) -> (r: Result<
        PageRange<PAddr, S>,
        AllocErr,
    >)
        requires
            old(self).inner().wf(),
            size.spec_size() <= old(self).min_size_spec() ==> old(self).inner().alloc_range_pre(
                size,
                len,
            ),
        ensures
            size.spec_size() > old(self).min_size_spec() ==> r is Err && *final(self) == *old(
                self,
            ),
            size.spec_size() <= old(self).min_size_spec() ==> {
                &&& final(self).min_size_spec() == old(self).min_size_spec()
                &&& old(self).inner().alloc_range_post(final(self).inner(), size, len, r)
            },
    {
        if size.as_usize() > self.min_size {
            return Err(AllocErr::oom());
        }
        self.alloc.alloc_range(size, len)
    }

    /// Deallocates a range of pages (see [`Alloc::dealloc_range`]).
    pub fn dealloc_range<S: Size>(&mut self, range: PageRange<PAddr, S>) -> (r: Result<
        (),
        AllocErr,
    >)
        requires
            old(self).inner().dealloc_range_pre(range),
        ensures
            final(self).min_size_spec() == old(self).min_size_spec(),
            old(self).inner().dealloc_range_post(final(self).inner(), range, r),
    {
        self.alloc.dealloc_range(range)
    }
}

} // verus!
