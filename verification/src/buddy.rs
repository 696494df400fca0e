//! A buddy-block allocator for physical pages.
//!
//! Free memory is kept in blocks whose sizes are the minimum block size
//! times a power of two: the *order* of a block is that power. Each order has
//! a free list. Allocating takes a block from the lowest non-empty order that
//! is large enough and splits it down, pushing the halves it does not need
//! onto the lower free lists; freeing a block merges it with its *buddy* (the
//! other half of the block it was split from) as long as that buddy is free.
//!
//! The free lists hold [`Free`] block headers. A header records the virtual
//! address at which it lives (the block's physical base plus the kernel's
//! virtual memory offset), its magic word, and the region it covers.
use vstd::prelude::*;

pub mod disjoint;
pub mod page_alloc;

use vstd::arithmetic::power2::{pow2, lemma_pow2_pos, lemma_pow2_strictly_increases};

use crate::addr::{Address, PAddr, VAddr, align_up_spec, paddr_valid, is_power_of_two};
use crate::list::List;
use crate::math::{
    is_pow2_spec, is_power_of_two_usize, log2_ceil, log2_ceil_spec, next_pow2_spec,
    prev_power_of_two, prev_pow2_spec, lemma_prev_pow2, bit_len,
    next_power_of_two, lemma_log2_ceil, lemma_log2_ceil_pow2, lemma_power_of_two_bits,
};
use crate::mem::{Region, RegionKind};
use crate::mem::page::{AllocErr, PageRange, Size};
use crate::addr::is_aligned_spec;

verus! {

/// The magic word of a free block.
pub const FREE_MAGIC: usize = 0xF4EE_B10C;

/// The magic word of a block that has been handed out.
pub const BUSY_MAGIC: usize = 0xB4D_B10C;

/// The header of a block of memory, linked into a free list while the block
/// is free.
#[derive(Debug)]
pub struct Free {
    magic: usize,
    addr: usize,
    meta: Region<PAddr>,
}

/// What a [`Free`] header records, as plain values.
pub struct FreeView {
    /// The magic word.
    pub magic: usize,
    /// The virtual address of the header.
    pub addr: usize,
    /// The physical base address of the block.
    pub base: usize,
    /// The size of the block, in bytes.
    pub size: usize,
    /// The kind of the block's memory region.
    pub kind: RegionKind,
}

impl View for Free {
    type V = FreeView;

    closed spec fn view(&self) -> FreeView {
        FreeView {
            magic: self.magic,
            addr: self.addr,
            base: self.meta.base_spec(),
            size: self.meta.size_spec(),
            kind: self.meta.kind_spec(),
        }
    }
}

impl Free {
    /// The region covered by this block.
    pub closed spec fn meta_spec(&self) -> Region<PAddr> {
        self.meta
    }

    /// Writes a free block header for `region`, which is mapped at `offset`
    /// bytes above its physical address. Its header lives at the region's
    /// base, mapped into virtual memory, which must not be the zero address.
    pub fn new(region: Region<PAddr>, offset: usize) -> (r: Free)
        requires
            region.base_spec() + offset <= usize::MAX,
            region.base_spec() + offset != 0,
        ensures
            r@.magic == FREE_MAGIC,
            r@.addr == region.base_spec() + offset,
            r.meta_spec() == region,
    {
        let addr = region.base_addr().as_usize() + offset;
        Free { magic: FREE_MAGIC, addr, meta: region }
    }

    /// Splits `size` bytes off the front of this block into a new free block,
    /// which is returned; `self` keeps the rest. Returns `None` if the block
    /// is smaller than `size`.
    pub fn split_front(&mut self, size: usize, offset: usize) -> (r: Option<Free>)
        requires
            old(self)@.magic == FREE_MAGIC,
            size <= old(self)@.size ==> {
                &&& old(self)@.base + size <= usize::MAX
                &&& paddr_valid((old(self)@.base + size) as usize)
                &&& old(self)@.base + offset <= usize::MAX
                &&& old(self)@.base + offset != 0
            },
        ensures
            size > old(self)@.size ==> r is None && final(self)@ == old(self)@,
            size <= old(self)@.size ==> (r matches Some(front) && {
                &&& front@ == (FreeView {
                    magic: FREE_MAGIC,
                    addr: (old(self)@.base + offset) as usize,
                    base: old(self)@.base,
                    size: size,
                    kind: old(self)@.kind,
                })
                &&& final(self)@ == (FreeView {
                    base: (old(self)@.base + size) as usize,
                    size: (old(self)@.size - size) as usize,
                    ..old(self)@
                })
            }),
    {
        let new_meta = match self.meta.split_front(size) {
            Some(m) => m,
            None => return None,
        };
        Some(Free::new(new_meta, offset))
    }

    /// Splits this block so that it keeps its first `size` bytes, and returns
    /// a new free block covering the rest. Returns `None` if the block is not
    /// larger than `size`. The new block's header must not land on this
    /// block's own header, so `size` is not zero.
    pub fn split_back(&mut self, size: usize, offset: usize) -> (r: Option<Free>)
        requires
            old(self)@.magic == FREE_MAGIC,
            size < old(self)@.size ==> {
                &&& old(self)@.base + size + offset <= usize::MAX
                &&& paddr_valid((old(self)@.base + size) as usize)
                &&& old(self)@.base + size + offset != old(self)@.addr
                &&& old(self)@.base + size + offset != 0
            },
        ensures
            size >= old(self)@.size ==> r is None && final(self)@ == old(self)@,
            size < old(self)@.size ==> (r matches Some(back) && {
                &&& back@ == (FreeView {
                    magic: FREE_MAGIC,
                    addr: (old(self)@.base + size + offset) as usize,
                    base: (old(self)@.base + size) as usize,
                    size: (old(self)@.size - size) as usize,
                    kind: old(self)@.kind,
                })
                &&& final(self)@ == (FreeView { size: size, ..old(self)@ })
            }),
    {
        let new_meta = match self.meta.split_back(size) {
            Some(m) => m,
            None => return None,
        };
        Some(Free::new(new_meta, offset))
    }

    /// Merges `other`, which must directly follow or precede this block in
    /// memory, into this block.
    pub fn merge(&mut self, other: &mut Self)
        requires
            old(self)@.magic == FREE_MAGIC,
            old(self)@.kind == old(other)@.kind,
            old(self)@.size + old(other)@.size <= usize::MAX,
        ensures
            final(self)@ == (FreeView {
                base: if old(self)@.base <= old(other)@.base {
                    old(self)@.base
                } else {
                    old(other)@.base
                },
                size: (old(self)@.size + old(other)@.size) as usize,
                ..old(self)@
            }),
            old(self)@.base <= old(other)@.base ==> final(other)@ == old(other)@,
            old(self)@.base > old(other)@.base ==> final(other)@ == (FreeView {
                addr: old(other)@.addr,
                magic: old(other)@.magic,
                ..old(self)@
            }),
    {
        self.meta.merge(&mut other.meta);
    }

    /// Returns the region covered by this block.
    pub fn region(&self) -> (r: Region<PAddr>)
        ensures
            r == self.meta_spec(),
    {
        self.meta
    }

    /// Returns the size of this block, in bytes.
    pub fn size(&self) -> (r: usize)
        ensures
            r == self@.size,
    {
        self.meta.size()
    }

    /// Returns the virtual address at which this block's header lives.
    pub fn addr(&self) -> (r: usize)
        ensures
            r == self@.addr,
    {
        self.addr
    }

    /// Returns `true` if the block *might* be free: a block whose magic word
    /// is not the free one is certainly in use.
    pub fn is_maybe_free(&self) -> (r: bool)
        ensures
            r == (self@.magic == FREE_MAGIC),
    {
        self.magic == FREE_MAGIC
    }

    /// Marks this block as handed out.
    pub fn make_busy(&mut self)
        ensures
            final(self)@ == (FreeView { magic: BUSY_MAGIC, ..old(self)@ }),
    {
        self.magic = BUSY_MAGIC;
    }
}

/// The number of free lists of [`Alloc::new_default`].
pub const NUM_ORDERS: usize = 32;

/// A buddy-block allocator.
///
/// Free blocks on `free_lists[0]` are one minimum-size block each; each free
/// list after it holds blocks twice as large as the one before.
pub struct Alloc {
    min_size: usize,
    base_vaddr: usize,
    vm_offset: usize,
    min_size_log2: usize,
    heap_size: usize,
    free_lists: Vec<List<Free>>,
}

/// The larger of two sizes.
pub open spec fn max_size(a: usize, b: usize) -> usize {
    if a < b {
        b
    } else {
        a
    }
}

/// The minimum block size of an allocator asked for blocks of at least
/// `min_size` bytes: large enough for a block header, and a power of two.
pub open spec fn block_size_for(min_size: usize) -> nat {
    next_pow2_spec(max_size(min_size, vstd::layout::size_of::<Free>() as usize) as nat)
}

impl Alloc {
    /// The minimum block size.
    pub closed spec fn min_size_spec(&self) -> usize {
        self.min_size
    }

    /// The base-2 logarithm of the minimum block size.
    pub closed spec fn min_log2(&self) -> nat {
        self.min_size_log2 as nat
    }

    /// The offset of the kernel's virtual mapping of physical memory.
    pub closed spec fn vm_offset_spec(&self) -> usize {
        self.vm_offset
    }

    /// The lowest virtual address of any region added to the heap, or
    /// `usize::MAX` before the first one.
    pub closed spec fn base_vaddr_spec(&self) -> usize {
        self.base_vaddr
    }

    /// The total size of the regions added to the heap.
    pub closed spec fn heap_size_spec(&self) -> usize {
        self.heap_size
    }

    /// The free lists, by order.
    pub closed spec fn lists(&self) -> Seq<Seq<FreeView>> {
        Seq::new(self.free_lists@.len(), |o: int| self.free_lists@[o]@.map_values(|f: Free| f@))
    }

    /// The size of the blocks of order `order`.
    pub open spec fn order_size(&self, order: int) -> nat {
        pow2((self.min_log2() + order) as nat)
    }

    /// `b` is a well-formed free block of order `order`.
    pub open spec fn block_ok(&self, b: FreeView, order: int) -> bool {
        &&& b.magic == FREE_MAGIC
        &&& b.size == self.order_size(order)
        &&& b.kind == RegionKind::Free
        &&& b.addr == b.base + self.vm_offset_spec()
        &&& b.addr + b.size <= usize::MAX
        &&& paddr_valid(b.base)
        &&& paddr_valid((b.base + b.size) as usize)
        &&& self.base_vaddr_spec() <= b.addr
    }

    /// The allocator's invariant: the minimum block size is a power of two
    /// whose multiples by the orders fit in a `usize`, and every block on
    /// each free list is a well-formed block of that list's order. No block
    /// exists before the virtual memory offset is set.
    pub closed spec fn wf(&self) -> bool {
        &&& self.min_size == pow2(self.min_size_log2 as nat)
        &&& self.min_size_log2 + self.free_lists@.len() <= usize::BITS
        &&& forall|o: int| 0 <= o < self.free_lists@.len() ==> (#[trigger] self.free_lists@[o]).wf()
        &&& forall|o: int, k: int|
            0 <= o < self.lists().len() && 0 <= k < self.lists()[o].len() ==> self.block_ok(
                #[trigger] self.lists()[o][k],
                o,
            )
        &&& self.vm_offset == 0 ==> forall|o: int|
            0 <= o < self.lists().len() ==> #[trigger] self.lists()[o].len() == 0
    }

    /// Returns an allocator with the default number of free lists, all empty.
    pub fn new_default(min_size: usize) -> (r: Alloc)
        requires
            log2_ceil_spec(max_size(min_size, vstd::layout::size_of::<Free>() as usize) as nat)
                + NUM_ORDERS <= usize::BITS,
        ensures
            r.wf(),
            r.min_size_spec() == block_size_for(min_size),
            r.lists() == Seq::new(NUM_ORDERS as nat, |o: int| Seq::<FreeView>::empty()),
            r.vm_offset_spec() == 0,
            r.base_vaddr_spec() == usize::MAX,
            r.heap_size_spec() == 0,
    {
        let mut lists: Vec<List<Free>> = Vec::new();
        let mut i: usize = 0;
        while i < NUM_ORDERS
            invariant
                i <= NUM_ORDERS,
                lists@.len() == i,
                forall|o: int| 0 <= o < i ==> (#[trigger] lists@[o]).wf() && lists@[o]@.len() == 0,
            decreases NUM_ORDERS - i,
        {
            lists.push(List::new());
            i = i + 1;
        }
        let r = Self::new(min_size, lists);
        assert forall|o: int| 0 <= o < r.lists().len() implies r.lists()[o] =~= Seq::<
            FreeView,
        >::empty() by {
            assert(r.lists()[o].len() == 0);
        }
        assert(r.lists() =~= Seq::new(NUM_ORDERS as nat, |o: int| Seq::<FreeView>::empty()));
        r
    }

    /// Returns an allocator with the given free lists, which must be empty.
    /// The minimum block size is `min_size` rounded up to hold a block header
    /// and to a power of two.
    pub fn new(min_size: usize, free_lists: Vec<List<Free>>) -> (r: Alloc)
        requires
            forall|o: int|
                0 <= o < free_lists@.len() ==> (#[trigger] free_lists@[o]).wf()
                    && free_lists@[o]@.len() == 0,
            log2_ceil_spec(max_size(min_size, vstd::layout::size_of::<Free>() as usize) as nat)
                + free_lists@.len() <= usize::BITS,
            log2_ceil_spec(max_size(min_size, vstd::layout::size_of::<Free>() as usize) as nat)
                < usize::BITS,
        ensures
            r.wf(),
            r.min_size_spec() == block_size_for(min_size),
            r.min_log2() == log2_ceil_spec(block_size_for(min_size)),
            r.lists().len() == free_lists@.len(),
            forall|o: int| 0 <= o < free_lists@.len() ==> #[trigger] r.lists()[o].len() == 0,
            r.vm_offset_spec() == 0,
            r.base_vaddr_spec() == usize::MAX,
            r.heap_size_spec() == 0,
    {
        vstd::layout::layout_for_type_is_valid::<Free>();
        let free_block_size = core::mem::size_of::<Free>();
        let mut size = min_size;
        if size < free_block_size {
            size = free_block_size;
        }
        proof {
            let k = log2_ceil_spec(size as nat);
            lemma_log2_ceil(size as nat);
            vstd::arithmetic::power2::lemma2_to64();
            vstd::arithmetic::power2::lemma2_to64_rest();
            if k < usize::BITS {
                vstd::arithmetic::power2::lemma_pow2_strictly_increases(k, usize::BITS as nat);
            }
            assert(pow2(k) <= usize::MAX);
        }
        let size = next_power_of_two(size);
        let min_size_log2 = log2_ceil(size);
        proof {
            lemma_log2_ceil_pow2(log2_ceil_spec(max_size(min_size, free_block_size) as nat));
        }
        let r = Alloc {
            min_size: size,
            base_vaddr: usize::MAX,
            vm_offset: 0,
            min_size_log2,
            heap_size: 0,
            free_lists,
        };
        assert forall|o: int| 0 <= o < r.lists().len() implies #[trigger] r.lists()[o].len() == 0 by {
            assert(r.free_lists@[o]@.len() == 0);
        }
        r
    }

    /// Sets the offset at which physical memory is mapped into virtual
    /// memory. This may be done once.
    pub fn set_vm_offset(&mut self, offset: VAddr)
        requires
            old(self).wf(),
            old(self).vm_offset_spec() == 0,
        ensures
            final(self).wf(),
            final(self).vm_offset_spec() == offset.addr(),
            final(self).lists() == old(self).lists(),
            final(self).min_size_spec() == old(self).min_size_spec(),
            final(self).min_log2() == old(self).min_log2(),
            final(self).base_vaddr_spec() == old(self).base_vaddr_spec(),
            final(self).heap_size_spec() == old(self).heap_size_spec(),
    {
        self.vm_offset = offset.as_usize();
        assert(self.lists() =~= old(self).lists());
    }

    /// Returns the minimum allocatable size, in bytes.
    pub fn min_size(&self) -> (r: usize)
        ensures
            r == self.min_size_spec(),
    {
        self.min_size
    }

    /// Returns the total size of the memory added to the heap, in bytes.
    pub fn free_size(&self) -> (r: usize)
        ensures
            r == self.heap_size_spec(),
    {
        self.heap_size
    }

    /// Returns the virtual memory offset, which must have been set.
    fn offset(&self) -> (r: usize)
        requires
            self.vm_offset_spec() != 0,
        ensures
            r == self.vm_offset_spec(),
    {
        self.vm_offset
    }

    /// The size of the block allocated for `size` bytes aligned to `align`:
    /// the larger of the two, at least the minimum block size, rounded up to
    /// a power of two.
    pub open spec fn rounded_size(&self, size: usize, align: usize) -> nat {
        next_pow2_spec(max_size(max_size(size, align), self.min_size_spec()) as nat)
    }

    /// The order of a block of `size` bytes.
    pub open spec fn order_of(&self, size: nat) -> int {
        log2_ceil_spec(size) - self.min_log2()
    }

    /// The block size for an allocation of `size` bytes aligned to `align`,
    /// or `None` if it exceeds the memory added to the heap.
    pub open spec fn size_for_spec(&self, size: usize, align: usize) -> Option<usize> {
        if self.rounded_size(size, align) > self.heap_size_spec() {
            None
        } else {
            Some(self.rounded_size(size, align) as usize)
        }
    }

    /// The rounded size of a valid layout is a power of two, at most half
    /// the `usize` range, at least the layout's size and alignment and the
    /// minimum block size, and the size of the blocks of its order.
    proof fn lemma_rounded(&self, size: usize, align: usize)
        requires
            self.wf(),
            layout_ok(size, align),
        ensures
            self.rounded_size(size, align) <= half_range(),
            self.rounded_size(size, align) >= max_size(max_size(size, align), self.min_size_spec()),
            self.order_of(self.rounded_size(size, align)) >= 0,
            self.rounded_size(size, align) == self.order_size(
                self.order_of(self.rounded_size(size, align)),
            ),
    {
        let sz = max_size(max_size(size, align), self.min_size_spec());
        lemma_half_range();
        lemma_power_of_two_le_half(align);
        lemma_pow2_le_half(self.min_size_log2 as nat);
        let l = log2_ceil_spec(sz as nat);
        lemma_log2_ceil(sz as nat);
        lemma_log2_ceil_le(sz as nat, (usize::BITS - 1) as nat);
        lemma_pow2_mono(l, (usize::BITS - 1) as nat);
        lemma_log2_ceil_pow2(self.min_size_log2 as nat);
        lemma_log2_ceil_le(self.min_size as nat, l);
        lemma_log2_ceil_pow2(l);
    }

    /// Returns the size of the block to allocate for `size` bytes aligned to
    /// `align`, or `None` if the heap is not that large.
    fn size_for(&self, size: usize, align: usize) -> (r: Option<usize>)
        requires
            self.wf(),
            layout_ok(size, align),
        ensures
            r == self.size_for_spec(size, align),
            self.rounded_size(size, align) <= half_range(),
            self.rounded_size(size, align) >= self.min_size_spec(),
            self.order_of(self.rounded_size(size, align)) >= 0,
            self.rounded_size(size, align) == self.order_size(
                self.order_of(self.rounded_size(size, align)),
            ),
    {
        let mut sz = size;
        if sz < align {
            sz = align;
        }
        if sz < self.min_size {
            sz = self.min_size;
        }
        proof {
            self.lemma_rounded(size, align);
            lemma_half_range();
            assert(sz == max_size(max_size(size, align), self.min_size_spec()));
        }
        let rounded = if is_power_of_two_usize(sz) {
            proof {
                lemma_next_pow2_of_pow2(sz);
            }
            sz
        } else {
            next_power_of_two(sz)
        };
        if rounded > self.heap_size {
            return None;
        }
        Some(rounded)
    }

    /// Returns the order of a block of `size` bytes, which is at least the
    /// minimum block size.
    fn order_for_size(&self, size: usize) -> (r: usize)
        requires
            self.wf(),
            log2_ceil_spec(size as nat) >= self.min_log2(),
        ensures
            r == self.order_of(size as nat),
    {
        log2_ceil(size) - self.min_size_log2
    }

    /// The order of the block allocated for `size` bytes aligned to `align`,
    /// if the heap is large enough.
    pub open spec fn order_for_spec(&self, size: usize, align: usize) -> Option<int> {
        match self.size_for_spec(size, align) {
            Some(s) => Some(self.order_of(s as nat)),
            None => None,
        }
    }

    /// Returns the order of the block to allocate for `size` bytes aligned
    /// to `align`, or `None` if the heap is not that large.
    pub fn order_for(&self, size: usize, align: usize) -> (r: Option<usize>)
        requires
            self.wf(),
            layout_ok(size, align),
        ensures
            r matches Some(o) ==> self.order_for_spec(size, align) == Some(o as int),
            r is None ==> self.order_for_spec(size, align) is None,
    {
        match self.size_for(size, align) {
            Some(s) => Some(self.order_for_size(s)),
            None => None,
        }
    }

    /// Removes the block at the back of the free list of order `o`.
    fn list_pop_back(&mut self, o: usize) -> (r: Option<Free>)
        requires
            old(self).wf(),
            o < old(self).lists().len(),
        ensures
            final(self).wf(),
            old(self).lists()[o as int].len() == 0 ==> r is None && final(self).lists() == old(self).lists(),
            old(self).lists()[o as int].len() > 0 ==> (r matches Some(b) && b@ == old(self).lists()[o as int].last() && final(self).lists() == old(self).lists().update(
                o as int,
                old(self).lists()[o as int].drop_last(),
            )),
            final(self).same_config(*old(self)),
    {
        let mut list = List::new();
        std::mem::swap(&mut self.free_lists[o], &mut list);
        let ghost mid = self.free_lists@;
        let r = list.pop_back();
        std::mem::swap(&mut self.free_lists[o], &mut list);
        proof {
            let l0 = old(self).free_lists@[o as int]@;
            if l0.len() > 0 {
                assert(self.lists() =~= old(self).lists().update(
                    o as int,
                    old(self).lists()[o as int].drop_last(),
                )) by {
                    assert(self.lists()[o as int] =~= old(self).lists()[o as int].drop_last());
                }
            } else {
                assert(self.lists() =~= old(self).lists()) by {
                    assert(self.lists()[o as int] =~= old(self).lists()[o as int]);
                }
            }
            self.lemma_wf_after_update(*old(self), o as int);
        }
        r
    }

    /// Pushes `b`, a well-formed block of order `o`, onto the front of that
    /// order's free list.
    fn list_push_front(&mut self, o: usize, b: Free)
        requires
            old(self).wf(),
            o < old(self).lists().len(),
            old(self).block_ok(b@, o as int),
            old(self).vm_offset_spec() != 0,
        ensures
            final(self).wf(),
            final(self).lists() == old(self).lists().update(
                o as int,
                seq![b@] + old(self).lists()[o as int],
            ),
            final(self).same_config(*old(self)),
    {
        let ghost bv = b@;
        let mut list = List::new();
        std::mem::swap(&mut self.free_lists[o], &mut list);
        list.push_front(b);
        std::mem::swap(&mut self.free_lists[o], &mut list);
        proof {
            assert(self.lists() =~= old(self).lists().update(
                o as int,
                seq![bv] + old(self).lists()[o as int],
            )) by {
                assert(self.lists()[o as int] =~= seq![bv] + old(self).lists()[o as int]);
            }
            self.lemma_wf_after_update(*old(self), o as int);
        }
    }

    /// `self` has the same sizes, offsets and counters as `other`; only the
    /// free lists may differ.
    pub open spec fn same_config(&self, other: Alloc) -> bool {
        &&& self.min_size_spec() == other.min_size_spec()
        &&& self.min_log2() == other.min_log2()
        &&& self.vm_offset_spec() == other.vm_offset_spec()
        &&& self.base_vaddr_spec() == other.base_vaddr_spec()
        &&& self.heap_size_spec() == other.heap_size_spec()
        &&& self.lists().len() == other.lists().len()
    }

    /// The invariant survives replacing the free list of order `o` by a
    /// well-formed list of well-formed blocks.
    proof fn lemma_wf_after_update(&self, old: Alloc, o: int)
        requires
            old.wf(),
            0 <= o < old.free_lists@.len(),
            self.free_lists@.len() == old.free_lists@.len(),
            forall|j: int| 0 <= j < old.free_lists@.len() && j != o ==> self.free_lists@[j]
                == old.free_lists@[j],
            self.free_lists@[o].wf(),
            forall|k: int| 0 <= k < self.lists()[o].len() ==> old.block_ok(
                #[trigger] self.lists()[o][k],
                o,
            ),
            self.min_size == old.min_size,
            self.min_size_log2 == old.min_size_log2,
            self.vm_offset == old.vm_offset,
            self.base_vaddr == old.base_vaddr,
            old.vm_offset == 0 ==> self.lists()[o].len() == 0,
        ensures
            self.wf(),
    {
        assert forall|j: int, k: int|
            0 <= j < self.lists().len() && 0 <= k < self.lists()[j].len() implies self.block_ok(
            #[trigger] self.lists()[j][k],
            j,
        ) by {
            if j != o {
                assert(self.lists()[j] == old.lists()[j]);
            }
        }
        assert forall|j: int| 0 <= j < self.free_lists@.len() implies (#[trigger] self.free_lists@[j]).wf() by {
        }
        if self.vm_offset == 0 {
            assert forall|j: int| 0 <= j < self.lists().len() implies #[trigger] self.lists()[j].len() == 0 by {
                if j != o {
                    assert(self.lists()[j] == old.lists()[j]);
                }
            }
        }
    }

    /// Splits `block`, a free block of order `order`, down to order
    /// `target`: at each order below `order` down to `target`, the block's
    /// back half is pushed onto that order's free list and the block keeps
    /// its front half.
    fn split_down(&mut self, block: &mut Free, order: usize, target: usize)
        requires
            old(self).wf(),
            target <= order < old(self).lists().len(),
            old(self).block_ok(old(block)@, order as int),
            old(self).vm_offset_spec() != 0,
        ensures
            final(self).wf(),
            final(self).same_config(*old(self)),
            final(self).lists() == split_lists(
                old(self).lists(),
                old(block)@,
                order as int,
                target as int,
                old(self).vm_offset_spec(),
            ),
            final(block)@ == (FreeView { size: old(self).order_size(target as int) as usize, ..old(block)@ }),
    {
        let mut size = block.size();
        let mut order = order;
        let ghost b0 = block@;
        let ghost goal = split_lists(self.lists(), b0, order as int, target as int, self.vm_offset);
        while order > target
            invariant
                self.wf(),
                self.same_config(*old(self)),
                self.vm_offset_spec() != 0,
                target <= order < self.lists().len(),
                block@ == (FreeView { size: self.order_size(order as int) as usize, ..b0 }),
                size == block@.size,
                self.block_ok(block@, order as int),
                split_lists(self.lists(), block@, order as int, target as int, self.vm_offset)
                    == goal,
            decreases order,
        {
            proof {
                vstd::arithmetic::power2::lemma_pow2_unfold(self.min_log2() + order as nat);
                lemma_pow2_pos((self.min_log2() + order - 1) as nat);
            }
            order = order - 1;
            size = size / 2;
            let ghost before = self.lists();
            let ghost bb = block@;
            let new_block = block.split_back(size, self.offset()).unwrap();
            self.list_push_front(order, new_block);
            proof {
                assert(self.lists() == before.update(
                    order as int,
                    seq![new_block@] + before[order as int],
                ));
            }
        }
        proof {
            assert(split_lists(self.lists(), block@, order as int, target as int, self.vm_offset)
                == self.lists());
        }
    }

    /// The free lists after taking a block of order `order`, and the block
    /// taken: the block at the back of the lowest non-empty free list at or
    /// above `order`, split down to `order` and marked busy.
    pub open spec fn take_block(&self, order: int) -> (Seq<Seq<FreeView>>, Option<FreeView>) {
        match first_nonempty(self.lists(), order) {
            None => (self.lists(), None),
            Some(j) => {
                let b = self.lists()[j].last();
                (
                    split_lists(
                        self.lists().update(j, self.lists()[j].drop_last()),
                        b,
                        j,
                        order,
                        self.vm_offset_spec(),
                    ),
                    Some(FreeView { magic: BUSY_MAGIC, size: self.order_size(order) as usize, ..b }),
                )
            },
        }
    }

    /// Allocates a block for `size` bytes aligned to `align`: the block of
    /// the order that fits, taken from the lowest non-empty free list at or
    /// above that order. Returns `None` if the heap is too small or no free
    /// list has a large enough block.
    fn alloc_inner(&mut self, size: usize, align: usize) -> (r: Option<Free>)
        requires
            old(self).wf(),
            layout_ok(size, align),
            old(self).order_for_spec(size, align) matches Some(o) ==> o <= old(self).lists().len(),
        ensures
            final(self).wf(),
            final(self).same_config(*old(self)),
            old(self).order_for_spec(size, align) is None ==> r is None && final(self).lists()
                == old(self).lists(),
            old(self).order_for_spec(size, align) matches Some(o) ==> {
                &&& final(self).lists() == old(self).take_block(o).0
                &&& opt_view(r) == old(self).take_block(o).1
            },
    {
        let order = match self.order_for(size, align) {
            Some(o) => o,
            None => return None,
        };
        let len = self.free_lists.len();
        let mut idx = order;
        let ghost lists0 = self.lists();
        while idx < len
            invariant
                self.wf(),
                self.same_config(*old(self)),
                self.lists() == lists0,
                lists0 == old(self).lists(),
                len == lists0.len(),
                old(self).order_for_spec(size, align) == Some(order as int),
                order <= idx <= len,
                first_nonempty(lists0, order as int) == first_nonempty(lists0, idx as int),
            decreases len - idx,
        {
            let popped = self.list_pop_back(idx);
            match popped {
                Some(block) => {
                    let mut block = block;
                    proof {
                        assert(lists0[idx as int].len() > 0);
                        assert(first_nonempty(lists0, idx as int) == Some(idx as int));
                        let k = lists0[idx as int].len() - 1;
                        assert(old(self).block_ok(lists0[idx as int][k], idx as int));
                        assert(old(self).vm_offset_spec() != 0) by {
                            if old(self).vm_offset_spec() == 0 {
                                assert(old(self).lists()[idx as int].len() == 0);
                            }
                        }
                    }
                    if idx > order {
                        self.split_down(&mut block, idx, order);
                    }
                    block.make_busy();
                    return Some(block);
                },
                None => {},
            }
            idx = idx + 1;
        }
        None
    }

    /// Pushes `block`, a free block of some order, onto that order's free
    /// list and adds its size to the heap size.
    fn push_block(&mut self, block: Free)
        requires
            old(self).wf(),
            old(self).vm_offset_spec() != 0,
            0 <= old(self).order_of(block@.size as nat) < old(self).lists().len(),
            old(self).block_ok(block@, old(self).order_of(block@.size as nat)),
            old(self).heap_size_spec() + block@.size <= usize::MAX,
        ensures
            final(self).wf(),
            final(self).lists() == old(self).lists().update(
                old(self).order_of(block@.size as nat),
                seq![block@] + old(self).lists()[old(self).order_of(block@.size as nat)],
            ),
            final(self).heap_size_spec() == old(self).heap_size_spec() + block@.size,
            final(self).min_size_spec() == old(self).min_size_spec(),
            final(self).min_log2() == old(self).min_log2(),
            final(self).vm_offset_spec() == old(self).vm_offset_spec(),
            final(self).base_vaddr_spec() == old(self).base_vaddr_spec(),
    {
        let block_size = block.size();
        let order = self.order_for_size(block_size);
        self.list_push_front(order, block);
        self.heap_size = self.heap_size + block_size;
        proof {
            assert(self.lists() =~= old(self).lists().update(
                order as int,
                seq![block@] + old(self).lists()[order as int],
            ));
        }
    }

    /// The position, in the free list of order `order`, of the free buddy
    /// of the block at `addr`, if that buddy is free.
    pub open spec fn free_buddy(&self, addr: usize, order: int) -> Option<int> {
        find_buddy(self.lists(), self.base_vaddr_spec(), self.min_log2(), addr, order)
    }

    /// The block that freeing `size` bytes at physical address `paddr`
    /// returns to the heap.
    pub open spec fn freed_block(&self, paddr: usize, size: nat) -> FreeView {
        FreeView {
            magic: FREE_MAGIC,
            addr: (paddr + self.vm_offset_spec()) as usize,
            base: paddr,
            size: size as usize,
            kind: RegionKind::Free,
        }
    }

    /// The free lists after freeing the block for `size` bytes aligned to
    /// `align` at `paddr`, and whether the block came to rest on a free list
    /// rather than merging past the highest order.
    pub open spec fn dealloc_chain(&self, paddr: usize, size: usize, align: usize) -> (
        Seq<Seq<FreeView>>,
        bool,
    ) {
        let rounded = self.rounded_size(size, align);
        free_chain(
            self.lists(),
            self.base_vaddr_spec(),
            self.min_log2(),
            self.freed_block(paddr, rounded),
            self.order_of(rounded),
        )
    }

    /// Removes the buddy of `block` from the free list of order `order` and
    /// returns it, if it is free.
    fn take_buddy(&mut self, block: &Free, order: usize) -> (r: Option<Free>)
        requires
            old(self).wf(),
            order < old(self).lists().len(),
            old(self).block_ok(block@, order as int),
        ensures
            final(self).wf(),
            final(self).same_config(*old(self)),
            old(self).free_buddy(block@.addr, order as int) is None ==> r is None && final(self).lists() == old(self).lists(),
            old(self).free_buddy(block@.addr, order as int) matches Some(k) ==> {
                &&& opt_view(r) == Some(old(self).lists()[order as int][k])
                &&& final(self).lists() == old(self).lists().update(
                    order as int,
                    old(self).lists()[order as int].remove(k),
                )
            },
    {
        let size = self.size_for_order(order);
        let base = self.base_vaddr;
        if base == usize::MAX {
            return None;
        }
        let addr = block.addr();
        let rel_offset = addr - base;
        proof {
            lemma_xor_le_sum(rel_offset, size);
        }
        let buddy_offset = rel_offset ^ size;
        let buddy = base + buddy_offset;
        if buddy == addr {
            return None;
        }
        let n = self.free_lists[order].len();
        let mut iter = self.free_lists[order].iter();
        let ghost list = self.free_lists@[order as int]@;
        let ghost lv = self.lists()[order as int];
        let mut i: usize = 0;
        let mut found: Option<usize> = None;
        proof {
            assert(lv.subrange(0, n as int) =~= lv);
        }
        while iter.len() > 0
            invariant_except_break
                iter.wf(),
                found is None,
                iter.remaining() == list.subrange(i as int, list.len() as int),
            invariant
                i <= n,
                n == list.len(),
                lv == list.map_values(|f: Free| f@),
                find_addr(lv, buddy) == shift_opt(
                    find_addr(lv.subrange(i as int, n as int), buddy),
                    i as int,
                ),
                found matches Some(k) ==> find_addr(lv, buddy) == Some(k as int) && k < n,
            ensures
                found is None ==> find_addr(lv, buddy) is None,
            decreases n - i,
        {
            let f = iter.next().unwrap();
            proof {
                assert(list[i as int] == *f);
                assert(lv[i as int] == f@);
                assert(lv.subrange(i as int, n as int).drop_first() =~= lv.subrange(
                    i as int + 1,
                    n as int,
                ));
            }
            if f.addr() == buddy {
                found = Some(i);
                break;
            }
            i = i + 1;
        }
        match found {
            Some(k) => {
                let b = self.list_remove(order, k);
                Some(b)
            },
            None => None,
        }
    }

    /// Removes the block at position `k` of the free list of order `o`.
    fn list_remove(&mut self, o: usize, k: usize) -> (r: Free)
        requires
            old(self).wf(),
            o < old(self).lists().len(),
            k < old(self).lists()[o as int].len(),
        ensures
            final(self).wf(),
            final(self).same_config(*old(self)),
            r@ == old(self).lists()[o as int][k as int],
            final(self).lists() == old(self).lists().update(
                o as int,
                old(self).lists()[o as int].remove(k as int),
            ),
    {
        let mut list = List::new();
        std::mem::swap(&mut self.free_lists[o], &mut list);
        let r = list.remove_at(k);
        std::mem::swap(&mut self.free_lists[o], &mut list);
        proof {
            assert(self.lists() =~= old(self).lists().update(
                o as int,
                old(self).lists()[o as int].remove(k as int),
            )) by {
                assert(self.lists()[o as int] =~= old(self).lists()[o as int].remove(k as int));
            }
            self.lemma_wf_after_update(*old(self), o as int);
        }
        r
    }

    /// Frees the block for `size` bytes aligned to `align` at `paddr`,
    /// merging it with its free buddies. Returns an error if the heap is not
    /// large enough to have handed out such a block.
    fn dealloc_inner(&mut self, paddr: PAddr, size: usize, align: usize) -> (r: Result<(), AllocErr>)
        requires
            old(self).wf(),
            layout_ok(size, align),
            old(self).order_for_spec(size, align) matches Some(o) ==> {
                &&& old(self).vm_offset_spec() != 0
                &&& old(self).block_ok(
                    old(self).freed_block(paddr.addr(), old(self).rounded_size(size, align)),
                    o,
                )
                &&& old(self).dealloc_chain(paddr.addr(), size, align).1
            },
        ensures
            final(self).wf(),
            final(self).same_config(*old(self)),
            old(self).order_for_spec(size, align) is None ==> r is Err && final(self).lists()
                == old(self).lists(),
            old(self).order_for_spec(size, align) is Some ==> r is Ok && final(self).lists()
                == old(self).dealloc_chain(paddr.addr(), size, align).0,
    {
        let min_order = match self.order_for(size, align) {
            Some(o) => o,
            None => return Err(AllocErr::oom()),
        };
        let sz = self.size_for(size, align).unwrap();
        let mut block = Free::new(Region::new(paddr, sz, RegionKind::FREE), self.offset());
        let len = self.free_lists.len();
        let mut curr = min_order;
        let ghost base = self.base_vaddr;
        let ghost m = self.min_log2();
        let ghost goal = self.dealloc_chain(paddr.addr(), size, align);
        proof {
            assert(block@ == self.freed_block(paddr.addr(), self.rounded_size(size, align)));
        }
        while curr < len
            invariant
                self.wf(),
                self.same_config(*old(self)),
                self.vm_offset_spec() != 0,
                base == self.base_vaddr_spec(),
                m == self.min_log2(),
                len == self.lists().len(),
                curr < len ==> self.block_ok(block@, curr as int),
                free_chain(self.lists(), base, m, block@, curr as int) == goal,
                goal.1,
                old(self).order_for_spec(size, align) is Some,
                goal == old(self).dealloc_chain(paddr.addr(), size, align),
            decreases len - curr,
        {
            let ghost lists = self.lists();
            let ghost pre = *self;
            let ghost b = block@;
            match self.take_buddy(&block, curr) {
                Some(buddy) => {
                    let mut buddy = buddy;
                    let ghost k = find_buddy(lists, base, m, b.addr, curr as int)->0;
                    let ghost other = lists[curr as int][k];
                    proof {
                        lemma_find_addr(lists[curr as int], buddy_of(base, b.addr, pre.order_size(curr as int) as usize));
                        assert(buddy@ == other);
                        assert(pre.block_ok(pre.lists()[curr as int][k], curr as int));
                        assert(self.block_ok(other, curr as int));
                        let s = self.order_size(curr as int);
                        lemma_pow2_bound(m + curr as nat);
                        lemma_buddy_adjacent(base, b.addr, s as usize, m + curr as nat);
                        assert(curr + 1 < len) by {
                            if curr + 1 >= len {
                                assert(free_chain(
                                    lists.update(curr as int, lists[curr as int].remove(k)),
                                    base,
                                    m,
                                    merged_view(b, other),
                                    curr + 1,
                                ).1 == false);
                            }
                        }
                        lemma_pow2_bound(m + curr as nat + 1);
                        vstd::arithmetic::power2::lemma_pow2_unfold(m + curr as nat + 1);
                    }
                    if buddy.addr() < block.addr() {
                        std::mem::swap(&mut block, &mut buddy);
                    }
                    block.merge(&mut buddy);
                    proof {
                        assert(block@ == merged_view(b, other));
                    }
                },
                None => {
                    self.list_push_front(curr, block);
                    return Ok(());
                },
            }
            curr = curr + 1;
        }
        proof {
            assert(free_chain(self.lists(), base, m, block@, curr as int).1 == false);
        }
        Ok(())
    }

    /// A block of `size` bytes at physical address `b` can be pushed onto a
    /// free list of this allocator when the heap size so far is `heap`.
    pub open spec fn block_addable(&self, b: int, size: int, heap: int) -> bool {
        block_addable(
            self.min_size_spec() as int,
            self.min_log2(),
            self.lists().len() as int,
            self.vm_offset_spec() as int,
            b,
            size,
            heap,
        )
    }

    /// Adding the free region of `size` bytes at `base` to this allocator
    /// succeeds when the heap size so far is `heap`.
    pub open spec fn region_ok(&self, base: int, size: int, heap: int) -> bool {
        region_ok(
            self.min_size_spec() as int,
            self.min_log2(),
            self.lists().len() as int,
            self.vm_offset_spec() as int,
            base,
            size,
            heap,
        )
    }

    /// What [`Alloc::alloc_range`] needs: a well-formed allocator, a page
    /// size that is a power of two, and a request whose rounded byte size
    /// either overflows or has a valid layout and an order the free lists
    /// can hold.
    pub open spec fn alloc_range_pre<S: Size>(&self, size: S, len: usize) -> bool {
        &&& self.wf()
        &&& is_power_of_two(size.spec_size())
        &&& Self::range_len(len) <= usize::MAX
        &&& size.spec_size() * Self::range_len(len) <= usize::MAX ==> {
            let total = (size.spec_size() * Self::range_len(len)) as usize;
            &&& layout_ok(total, size.spec_size())
            &&& self.order_for_spec(total, size.spec_size()) matches Some(o) ==> o
                <= self.lists().len()
        }
    }

    /// What [`Alloc::alloc_range`] does, from `self` to `new`, returning
    /// `r`: a request whose rounded byte size overflows, or that is larger
    /// than the heap, fails and changes nothing; otherwise the block of the
    /// request's order is taken (see [`Alloc::take_block`]), and the range of
    /// pages covering it is returned when the block is aligned to the page
    /// size.
    pub open spec fn alloc_range_post<S: Size>(
        &self,
        new: Alloc,
        size: S,
        len: usize,
        r: Result<PageRange<PAddr, S>, AllocErr>,
    ) -> bool {
        &&& new.wf()
        &&& new.same_config(*self)
        &&& size.spec_size() * Self::range_len(len) > usize::MAX ==> r is Err && new.lists()
            == self.lists()
        &&& size.spec_size() * Self::range_len(len) <= usize::MAX ==> {
            let total = (size.spec_size() * Self::range_len(len)) as usize;
            match self.order_for_spec(total, size.spec_size()) {
                None => r is Err && new.lists() == self.lists(),
                Some(o) => {
                    &&& new.lists() == self.take_block(o).0
                    &&& match self.take_block(o).1 {
                        None => r is Err,
                        Some(b) => {
                            let aligned = is_aligned_spec(b.base as int, size.spec_size() as int)
                                && is_aligned_spec(b.base + b.size, size.spec_size() as int);
                            &&& r is Ok <==> aligned
                            &&& r matches Ok(range) ==> {
                                &&& range.wf()
                                &&& range.start_spec().base_spec() == b.base
                                &&& range.end_spec().base_spec() + size.spec_size() == b.base
                                    + b.size
                                &&& range.start_spec().size_spec() == size.spec_size()
                            }
                        },
                    }
                },
            }
        }
    }

    /// What [`Alloc::dealloc_range`] needs: a well-formed allocator and
    /// range, and, where the range's size has an order, a block for it that
    /// fits that order's free list and can be merged up the free lists.
    pub open spec fn dealloc_range_pre<S: Size>(&self, range: PageRange<PAddr, S>) -> bool {
        &&& self.wf()
        &&& range.wf()
        &&& range.size_spec() <= isize::MAX
        &&& layout_ok(range.size_spec() as usize, range.start_spec().size_spec())
        &&& ({
            let total = range.size_spec() as usize;
            let psize = range.start_spec().size_spec();
            let base = range.start_spec().base_spec();
            self.order_for_spec(total, psize) matches Some(o) ==> {
                &&& self.vm_offset_spec() != 0
                &&& self.block_ok(self.freed_block(base, self.rounded_size(total, psize)), o)
                &&& self.dealloc_chain(base, total, psize).1
            }
        })
    }

    /// What [`Alloc::dealloc_range`] does, from `self` to `new`, returning
    /// `r`: a range with no order fails and changes nothing; otherwise its
    /// block is freed and merged with its free buddies (see
    /// [`Alloc::dealloc_chain`]).
    pub open spec fn dealloc_range_post<S: Size>(
        &self,
        new: Alloc,
        range: PageRange<PAddr, S>,
        r: Result<(), AllocErr>,
    ) -> bool {
        let total = range.size_spec() as usize;
        let psize = range.start_spec().size_spec();
        let base = range.start_spec().base_spec();
        &&& new.wf()
        &&& new.same_config(*self)
        &&& self.order_for_spec(total, psize) is None ==> r is Err && new.lists() == self.lists()
        &&& self.order_for_spec(total, psize) is Some ==> r is Ok && new.lists()
            == self.dealloc_chain(base, total, psize).0
    }

    /// Returns whether a block of `size` bytes at physical address `b` can
    /// be pushed when the heap size so far is `heap` (see
    /// [`Alloc::block_addable`]).
    fn block_fits(&self, b: usize, size: usize, heap: usize) -> (r: bool)
        requires
            self.wf(),
        ensures
            r == self.block_addable(b as int, size as int, heap as int),
    {
        if size < self.min_size {
            return false;
        }
        let k = log2_ceil(size);
        if k >= self.min_size_log2 + self.free_lists.len() {
            return false;
        }
        let end = match b.checked_add(self.vm_offset) {
            Some(x) => x.checked_add(size),
            None => None,
        };
        if end.is_none() {
            return false;
        }
        let top = b.checked_add(size);
        let heap_end = heap.checked_add(size);
        match (top, heap_end) {
            (Some(t), Some(_)) => PAddr::from_usize_checked(b).is_ok() && PAddr::from_usize_checked(t).is_ok(),
            _ => false,
        }
    }

    /// Returns whether [`Alloc::add_region`] may be called with `region`:
    /// a region that is not free memory is always refused without harm, and
    /// a free one needs the virtual memory offset to be set and every block
    /// it is cut into to fit (see [`Alloc::region_ok`]).
    pub fn can_add_region(&self, region: &Region<PAddr>) -> (r: bool)
        requires
            self.wf(),
        ensures
            r == (region.kind_spec() == RegionKind::Free ==> {
                &&& self.vm_offset_spec() != 0
                &&& self.region_ok(
                    region.base_spec() as int,
                    region.size_spec() as int,
                    self.heap_size_spec() as int,
                )
            }),
    {
        if region.kind() != RegionKind::FREE {
            return true;
        }
        if self.vm_offset == 0 {
            return false;
        }
        let min = self.min_size;
        proof {
            crate::math::lemma_power_of_two_bits(min);
            assert(is_pow2_spec(min as int)) by {
                assert(pow2(self.min_size_log2 as nat) == min);
            }
            vstd::arithmetic::power2::lemma_pow2_pos(self.min_size_log2 as nat);
        }
        let mut base = region.base_addr().as_usize();
        let mut size = region.size();
        let mut heap = self.heap_size;
        let ghost goal = self.region_ok(
            region.base_spec() as int,
            region.size_spec() as int,
            self.heap_size_spec() as int,
        );
        loop
            invariant
                self.wf(),
                region.kind_spec() == RegionKind::Free,
                self.vm_offset_spec() != 0,
                goal == self.region_ok(
                    region.base_spec() as int,
                    region.size_spec() as int,
                    self.heap_size_spec() as int,
                ),
                min == self.min_size_spec(),
                min > 0,
                goal == self.region_ok(base as int, size as int, heap as int),
            decreases size,
        {
            if size == 0 {
                return false;
            }
            let rem = base % min;
            proof {
                assert(rem <= base) by (nonlinear_arith)
                    requires
                        rem == base % min,
                        min > 0,
                ;
            }
            let b = if rem == 0 {
                base
            } else {
                match (base - rem).checked_add(min) {
                    Some(x) => x,
                    None => return false,
                }
            };
            proof {
                assert(b as int == align_up_spec(base as int, min as int));
            }
            if PAddr::from_usize_checked(b).is_err() {
                return false;
            }
            let pow = is_power_of_two_usize(size);
            let blk = if pow {
                size
            } else {
                proof {
                    lemma_prev_pow2_lt(size);
                }
                prev_power_of_two(size)
            };
            if !self.block_fits(b, blk, heap) {
                return false;
            }
            if pow {
                return true;
            }
            if size - blk < min {
                return true;
            }
            base = b + blk;
            size = size - blk;
            heap = heap + blk;
        }
    }

    /// Adds a memory region to the heap from which pages may be allocated.
    /// Returns an error if the region is not free memory.
    pub fn add_region(&mut self, region: Region<PAddr>) -> (r: Result<(), ()>)
        requires
            old(self).wf(),
            region.kind_spec() == RegionKind::Free ==> {
                &&& old(self).vm_offset_spec() != 0
                &&& old(self).region_ok(
                    region.base_spec() as int,
                    region.size_spec() as int,
                    old(self).heap_size_spec() as int,
                )
            },
        ensures
            final(self).wf(),
            final(self).min_size_spec() == old(self).min_size_spec(),
            final(self).min_log2() == old(self).min_log2(),
            final(self).vm_offset_spec() == old(self).vm_offset_spec(),
            final(self).lists().len() == old(self).lists().len(),
            region.kind_spec() != RegionKind::Free ==> r is Err && *final(self) == *old(self),
            region.kind_spec() == RegionKind::Free ==> {
                let blocks = region_blocks(
                    region.base_spec() as int,
                    region.size_spec() as int,
                    old(self).min_size_spec() as int,
                    old(self).vm_offset_spec() as int,
                );
                &&& r is Ok
                &&& final(self).lists() == push_blocks(old(self).lists(), blocks, old(self).min_log2())
                &&& final(self).heap_size_spec() == old(self).heap_size_spec() + total_size(blocks)
                &&& final(self).base_vaddr_spec() == lowest_addr(
                    old(self).base_vaddr_spec() as int,
                    blocks,
                )
            },
    {
        if region.kind() != RegionKind::FREE {
            return Err(());
        }
        let ghost min = self.min_size as int;
        let ghost m = self.min_log2();
        let ghost off = self.vm_offset as int;
        let ghost all = region_blocks(region.base_spec() as int, region.size_spec() as int, min, off);
        let ghost goal_lists = push_blocks(self.lists(), all, m);
        let ghost goal_heap = self.heap_size + total_size(all);
        let ghost goal_base = lowest_addr(self.base_vaddr as int, all);
        proof {
            crate::math::lemma_power_of_two_bits(self.min_size);
            assert(is_pow2_spec(self.min_size as int)) by {
                assert(pow2(self.min_size_log2 as nat) == self.min_size);
            }
        }
        let mut next_region: Option<Region<PAddr>> = Some(region);
        while next_region.is_some()
            invariant
                self.wf(),
                self.vm_offset_spec() != 0,
                self.min_size == min,
                self.min_log2() == m,
                self.vm_offset == off,
                self.lists().len() == old(self).lists().len(),
                is_power_of_two(self.min_size),
                next_region matches Some(r) ==> r.kind_spec() == RegionKind::Free && self.region_ok(
                    r.base_spec() as int,
                    r.size_spec() as int,
                    self.heap_size as int,
                ),
                push_blocks(self.lists(), rest_blocks(next_region, min, off), m) == goal_lists,
                self.heap_size + total_size(rest_blocks(next_region, min, off)) == goal_heap,
                lowest_addr(self.base_vaddr as int, rest_blocks(next_region, min, off))
                    == goal_base,
            decreases rest_size(next_region),
        {
            let mut region = next_region.unwrap();
            next_region = None;
            let ghost r0 = region;
            let size = region.size();
            let base = region.base_addr();
            let ghost b = align_up_spec(base.addr() as int, min);
            if !base.is_aligned(self.min_size) {
                let new_base = base.align_up(self.min_size);
                region = Region::new(new_base, region.size(), RegionKind::FREE);
            }
            proof {
                assert(region.base_spec() == b);
                assert(region.size_spec() == size);
            }
            let ghost blk_size: int;
            let ghost blk_log2: nat;
            if !is_power_of_two_usize(size) {
                let prev = prev_power_of_two(size);
                proof {
                    lemma_prev_pow2_lt(size);
                }
                let region2 = region.split_back(prev).unwrap();
                if region2.size() >= self.min_size {
                    next_region = Some(region2);
                }
                proof {
                    blk_size = prev as int;
                    blk_log2 = (bit_len(size as nat) - 1) as nat;
                }
            } else {
                proof {
                    blk_size = size as int;
                    crate::math::lemma_power_of_two_bits(size);
                    blk_log2 = choose|k: nat| pow2(k) == size;
                }
            }
            proof {
                assert(region.size_spec() == blk_size);
                assert(rest_blocks(Some(r0), min, off) =~= seq![block_at(b, blk_size, off)]
                    + rest_blocks(next_region, min, off));
            }
            let ghost pre = *self;
            let region_vaddr = region.base_addr().as_usize() + self.offset();
            if region_vaddr < self.base_vaddr {
                self.base_vaddr = region_vaddr;
                proof {
                    self.lemma_wf_lower_base(pre);
                }
            }
            let block = Free::new(region, self.offset());
            proof {
                assert(block@ == block_at(b, blk_size, off));
                self.lemma_block_addable_ok(b, blk_size, blk_log2);
            }
            self.push_block(block);
            proof {
                let rest = rest_blocks(next_region, min, off);
                let all_here = seq![block_at(b, blk_size, off)] + rest;
                assert(all_here.drop_first() =~= rest);
                assert(all_here[0] == block@);
            }
        }
        Ok(())
    }

    /// Lowering the heap's base keeps the invariant.
    proof fn lemma_wf_lower_base(&self, pre: Alloc)
        requires
            pre.wf(),
            self.free_lists == pre.free_lists,
            self.min_size == pre.min_size,
            self.min_size_log2 == pre.min_size_log2,
            self.vm_offset == pre.vm_offset,
            self.base_vaddr <= pre.base_vaddr,
        ensures
            self.wf(),
    {
        assert(self.lists() == pre.lists());
        assert forall|o: int, k: int|
            0 <= o < self.lists().len() && 0 <= k < self.lists()[o].len() implies self.block_ok(
            #[trigger] self.lists()[o][k],
            o,
        ) by {
            assert(pre.block_ok(pre.lists()[o][k], o));
        }
    }

    /// A block of `2^k` bytes that can be pushed at the current heap size,
    /// mapped above the heap's base, is a well-formed block of its order.
    proof fn lemma_block_addable_ok(&self, b: int, size: int, k: nat)
        requires
            self.wf(),
            0 <= b,
            size == pow2(k),
            self.block_addable(b, size, self.heap_size_spec() as int),
            self.base_vaddr_spec() <= b + self.vm_offset_spec(),
        ensures
            0 <= self.order_of(size as nat) < self.lists().len(),
            self.order_of(size as nat) == k - self.min_log2(),
            self.block_ok(block_at(b, size, self.vm_offset_spec() as int), self.order_of(size as nat)),
    {
        lemma_log2_ceil_pow2(k);
        lemma_log2_ceil_pow2(self.min_log2());
        lemma_log2_ceil_le(pow2(self.min_log2()), k);
    }

    /// The number of pages `alloc_range` allocates for `len` pages: `len`
    /// rounded up to a power of two.
    pub open spec fn range_len(len: usize) -> nat {
        next_pow2_spec(len as nat)
    }

    /// Allocates a range of at least `len` pages of `size`. The length is
    /// rounded up to a power of two; the returned range covers the whole
    /// block allocated. Returns an error if the range's size overflows, if
    /// no free block is large enough, or if the block is not aligned on the
    /// page size.
    pub fn alloc_range<S: Size>(&mut self, size: S, len: usize) -> (r: Result<
        PageRange<PAddr, S>,
        AllocErr,
    >)
        requires
            old(self).alloc_range_pre(size, len),
        ensures
            old(self).alloc_range_post(*final(self), size, len, r),
    {
        let page_size = size.as_usize();
        let actual_len = if is_power_of_two_usize(len) {
            proof {
                lemma_next_pow2_of_pow2(len);
            }
            len
        } else {
            next_power_of_two(len)
        };
        let total_size = match page_size.checked_mul(actual_len) {
            Some(t) => t,
            None => return Err(AllocErr::oom()),
        };
        let block = match self.alloc_inner(total_size, page_size) {
            Some(b) => b,
            None => return Err(AllocErr::oom()),
        };
        let region = block.region();
        proof {
            let o = old(self).order_of(old(self).rounded_size(total_size, page_size));
            old(self).lemma_take_block(o);
            old(self).lemma_rounded(total_size, page_size);
            assert(block@.size >= page_size);
        }
        match region.page_range(size) {
            Ok(range) => Ok(range),
            Err(_) => Err(AllocErr::oom()),
        }
    }

    /// The block taken for order `order` lies in valid physical memory, is
    /// mapped at the heap's offset, and has the size of that order.
    proof fn lemma_take_block(&self, order: int)
        requires
            self.wf(),
            0 <= order,
        ensures
            self.take_block(order).1 matches Some(b) ==> {
                &&& b.size == self.order_size(order)
                &&& b.kind == RegionKind::Free
                &&& b.addr == b.base + self.vm_offset_spec()
                &&& b.addr + b.size <= usize::MAX
                &&& paddr_valid(b.base)
                &&& paddr_valid((b.base + b.size) as usize)
                &&& self.base_vaddr_spec() <= b.addr
            },
    {
        lemma_first_nonempty(self.lists(), order);
        if let Some(j) = first_nonempty(self.lists(), order) {
            let k = self.lists()[j].len() - 1;
            assert(self.block_ok(self.lists()[j][k], j));
            lemma_pow2_mono((self.min_log2() + order) as nat, (self.min_log2() + j) as nat);
        }
    }

    /// Frees a range of pages allocated by [`Alloc::alloc_range`], merging
    /// its block with its free buddies. Returns an error if the heap is not
    /// large enough to have handed out such a range.
    #[verifier::spinoff_prover]
    #[verifier::rlimit(30)]
    pub fn dealloc_range<S: Size>(&mut self, range: PageRange<PAddr, S>) -> (r: Result<(), AllocErr>)
        requires
            old(self).dealloc_range_pre(range),
        ensures
            old(self).dealloc_range_post(*final(self), range, r),
    {
        let page_size = range.page_size().as_usize();
        let len = range.len();
        let base = range.base_addr();
        proof {
            let s = page_size as int;
            let b0 = range.start_spec().base_spec() as int;
            let b1 = range.end_spec().base_spec() as int;
            vstd::arithmetic::div_mod::lemma_fundamental_div_mod(b0, s);
            vstd::arithmetic::div_mod::lemma_fundamental_div_mod(b1, s);
            let k = b1 / s - b0 / s;
            assert(b1 - b0 == k * s) by (nonlinear_arith)
                requires
                    b0 == s * (b0 / s),
                    b1 == s * (b1 / s),
                    k == b1 / s - b0 / s,
            ;
            vstd::arithmetic::div_mod::lemma_div_multiples_vanish(k, s);
            assert(len * s == k * s + s) by (nonlinear_arith)
                requires
                    len == k + 1,
            ;
        }
        let total_size = page_size.checked_mul(len).unwrap();
        self.dealloc_inner(base, total_size, page_size)
    }

    /// Allocates memory for `size` bytes aligned to `align` and returns the
    /// address of its block, or 0 if no block can be had.
    pub fn alloc_bytes(&mut self, size: usize, align: usize) -> (r: usize)
        requires
            old(self).wf(),
            layout_ok(size, align),
            old(self).order_for_spec(size, align) matches Some(o) ==> o <= old(self).lists().len(),
        ensures
            final(self).wf(),
            final(self).same_config(*old(self)),
            old(self).order_for_spec(size, align) is None ==> r == 0 && final(self).lists() == old(
                self).lists(),
            old(self).order_for_spec(size, align) matches Some(o) ==> {
                &&& final(self).lists() == old(self).take_block(o).0
                &&& r == match old(self).take_block(o).1 {
                    Some(b) => b.addr,
                    None => 0,
                }
            },
    {
        match self.alloc_inner(size, align) {
            Some(block) => block.addr(),
            None => 0,
        }
    }

    /// Looks for the free buddy of the block of order `order` at `addr`:
    /// returns whether there is one (see [`Alloc::free_buddy`]) and the
    /// buddy's address.
    fn find_free_buddy(&self, addr: usize, order: usize) -> (r: (bool, usize))
        requires
            self.wf(),
            order < self.lists().len(),
            self.base_vaddr_spec() <= addr,
            addr + self.order_size(order as int) <= usize::MAX,
        ensures
            r.0 == self.free_buddy(addr, order as int) is Some,
            self.free_buddy(addr, order as int) matches Some(k) ==> {
                &&& 0 <= k < self.lists()[order as int].len()
                &&& self.lists()[order as int][k].addr == r.1
                &&& r.1 == buddy_of(self.base_vaddr_spec(), addr, self.order_size(order as int) as usize)
            },
    {
        let size = self.size_for_order(order);
        let base = self.base_vaddr;
        if base == usize::MAX {
            return (false, 0);
        }
        let rel_offset = addr - base;
        proof {
            lemma_xor_le_sum(rel_offset, size);
        }
        let buddy = base + (rel_offset ^ size);
        if buddy == addr {
            return (false, 0);
        }
        let n = self.free_lists[order].len();
        let mut iter = self.free_lists[order].iter();
        let ghost list = self.free_lists@[order as int]@;
        let ghost lv = self.lists()[order as int];
        let mut i: usize = 0;
        let mut found = false;
        proof {
            assert(lv.subrange(0, n as int) =~= lv);
        }
        while iter.len() > 0
            invariant_except_break
                iter.wf(),
                !found,
                iter.remaining() == list.subrange(i as int, list.len() as int),
            invariant
                i <= n,
                n == list.len(),
                lv == list.map_values(|f: Free| f@),
                find_addr(lv, buddy) == shift_opt(
                    find_addr(lv.subrange(i as int, n as int), buddy),
                    i as int,
                ),
                found ==> find_addr(lv, buddy) == Some(i as int),
            ensures
                !found ==> find_addr(lv, buddy) is None,
            decreases n - i,
        {
            let f = iter.next().unwrap();
            proof {
                assert(list[i as int] == *f);
                assert(lv[i as int] == f@);
                assert(lv.subrange(i as int, n as int).drop_first() =~= lv.subrange(
                    i as int + 1,
                    n as int,
                ));
            }
            if f.addr() == buddy {
                found = true;
                break;
            }
            i = i + 1;
        }
        proof {
            lemma_find_addr(lv, buddy);
        }
        (found, buddy)
    }

    /// Returns whether freeing a block of order `order` at `addr` comes to
    /// rest on a free list (see [`chain_rests`]).
    fn chain_comes_to_rest(&self, addr: usize, order: usize) -> (r: bool)
        requires
            self.wf(),
            order < self.lists().len(),
            self.base_vaddr_spec() <= addr,
            addr + self.order_size(order as int) <= usize::MAX,
        ensures
            r == chain_rests(self.lists(), self.base_vaddr_spec(), self.min_log2(), addr, order as int),
    {
        let n = self.free_lists.len();
        let mut a = addr;
        let mut o = order;
        loop
            invariant
                self.wf(),
                n == self.lists().len(),
                o < n,
                self.base_vaddr_spec() <= a,
                a + self.order_size(o as int) <= usize::MAX,
                chain_rests(self.lists(), self.base_vaddr_spec(), self.min_log2(), addr, order as int)
                    == chain_rests(self.lists(), self.base_vaddr_spec(), self.min_log2(), a, o as int),
            decreases n - o,
        {
            let (found, buddy) = self.find_free_buddy(a, o);
            if !found {
                return true;
            }
            let ghost k = self.free_buddy(a, o as int)->0;
            let ghost size = self.order_size(o as int);
            proof {
                assert(self.block_ok(self.lists()[o as int][k], o as int));
                lemma_buddy_adjacent(
                    self.base_vaddr_spec(),
                    a,
                    size as usize,
                    (self.min_log2() + o) as nat,
                );
                vstd::arithmetic::power2::lemma_pow2_unfold((self.min_log2() + o + 1) as nat);
            }
            let next = if buddy < a {
                buddy
            } else {
                a
            };
            proof {
                assert(chain_rests(self.lists(), self.base_vaddr_spec(), self.min_log2(), a, o as int)
                    == chain_rests(
                    self.lists(),
                    self.base_vaddr_spec(),
                    self.min_log2(),
                    next,
                    o + 1,
                ));
            }
            o = o + 1;
            if o == n {
                return false;
            }
            a = next;
        }
    }

    /// Returns whether [`Alloc::dealloc_bytes`] may be called with `ptr`,
    /// `size` and `align`: a valid layout, a kernel virtual address mapping
    /// a valid physical address, a size within the heap, a freed block that
    /// fits its free list, and a merge chain that comes to rest.
    pub fn can_dealloc_bytes(&self, ptr: usize, size: usize, align: usize) -> (r: bool)
        requires
            self.wf(),
        ensures
            r == {
                &&& layout_ok(size, align)
                &&& self.vm_offset_spec() != 0
                &&& ptr >= self.vm_offset_spec()
                &&& paddr_valid((ptr - self.vm_offset_spec()) as usize)
                &&& self.order_for_spec(size, align) matches Some(o) && {
                    let paddr = (ptr - self.vm_offset_spec()) as usize;
                    &&& self.block_ok(self.freed_block(paddr, self.rounded_size(size, align)), o)
                    &&& self.dealloc_chain(paddr, size, align).1
                }
            },
    {
        if !is_power_of_two_usize(align) {
            return false;
        }
        let imax = isize::MAX as usize;
        proof {
            assert(align != 0);
            assert(imax % align <= imax) by (nonlinear_arith)
                requires
                    align > 0,
            ;
        }
        if size > imax - imax % align {
            return false;
        }
        if self.vm_offset == 0 || ptr < self.vm_offset {
            return false;
        }
        let paddr = ptr - self.vm_offset;
        if PAddr::from_usize_checked(paddr).is_err() {
            return false;
        }
        let rounded = match self.size_for(size, align) {
            Some(s) => s,
            None => return false,
        };
        let o = self.order_for_size(rounded);
        proof {
            assert(self.order_for_spec(size, align) == Some(o as int));
        }
        if o >= self.free_lists.len() {
            return false;
        }
        let end = match ptr.checked_add(rounded) {
            Some(e) => e,
            None => return false,
        };
        let pend = match paddr.checked_add(rounded) {
            Some(e) => e,
            None => return false,
        };
        if PAddr::from_usize_checked(pend).is_err() {
            return false;
        }
        if ptr < self.base_vaddr {
            return false;
        }
        proof {
            let b = self.freed_block(paddr, self.rounded_size(size, align));
            assert(b.addr == ptr);
            lemma_chain_rests(self.lists(), self.lists(), self.base_vaddr_spec(), self.min_log2(), b, o as int);
        }
        self.chain_comes_to_rest(ptr, o)
    }

    /// Frees the memory at `ptr` allocated by [`Alloc::alloc_bytes`] for
    /// `size` bytes aligned to `align`, merging its block with its free
    /// buddies.
    pub fn dealloc_bytes(&mut self, ptr: usize, size: usize, align: usize)
        requires
            old(self).wf(),
            layout_ok(size, align),
            old(self).vm_offset_spec() != 0,
            ptr >= old(self).vm_offset_spec(),
            paddr_valid((ptr - old(self).vm_offset_spec()) as usize),
            old(self).order_for_spec(size, align) matches Some(o) && {
                let paddr = (ptr - old(self).vm_offset_spec()) as usize;
                &&& old(self).block_ok(old(self).freed_block(paddr, old(self).rounded_size(size, align)), o)
                &&& old(self).dealloc_chain(paddr, size, align).1
            },
        ensures
            final(self).wf(),
            final(self).same_config(*old(self)),
            final(self).lists() == old(self).dealloc_chain(
                (ptr - old(self).vm_offset_spec()) as usize,
                size,
                align,
            ).0,
    {
        let addr = ptr - self.offset();
        let paddr = PAddr::from_usize(addr);
        let r = self.dealloc_inner(paddr, size, align);
        proof {
            assert(r is Ok);
        }
    }

    /// Returns the size of the blocks of order `order`.
    fn size_for_order(&self, order: usize) -> (r: usize)
        requires
            self.wf(),
            order < self.lists().len(),
        ensures
            r == self.order_size(order as int),
    {
        proof {
            vstd::arithmetic::power2::lemma2_to64();
            vstd::arithmetic::power2::lemma2_to64_rest();
            assert(self.min_size_log2 + order < usize::BITS);
        }
        let shift = self.min_size_log2 + order;
        proof {
            vstd::bits::lemma_usize_shl_is_mul(1, shift);
            lemma_pow2_bound(shift as nat);
        }
        1usize << shift
    }
}

/// `size` and `align` describe a valid memory layout: the alignment is a
/// power of two and the size, rounded up to it, does not exceed `isize::MAX`.
pub open spec fn layout_ok(size: usize, align: usize) -> bool {
    &&& is_power_of_two(align)
    &&& size <= isize::MAX as int - (isize::MAX as int % (align as int))
}

/// The half of the `usize` range: the largest power of two in it.
pub open spec fn half_range() -> nat {
    pow2((usize::BITS - 1) as nat)
}

/// A number not above `2^k` rounds up to a power of two not above `2^k`.
proof fn lemma_log2_ceil_le(n: nat, k: nat)
    requires
        n <= pow2(k),
    ensures
        log2_ceil_spec(n) <= k,
{
    lemma_log2_ceil(n);
    let l = log2_ceil_spec(n);
    if l > k {
        assert(n > 1) by {
            if n <= 1 {
                assert(l == 0);
            }
        }
        if k < (l - 1) as nat {
            lemma_pow2_strictly_increases(k, (l - 1) as nat);
        }
    }
}

/// `2^a <= 2^b` when `a <= b`.
proof fn lemma_pow2_mono(a: nat, b: nat)
    requires
        a <= b,
    ensures
        pow2(a) <= pow2(b),
{
    if a < b {
        lemma_pow2_strictly_increases(a, b);
    }
}

/// A power of two that fits in a `usize` is at most half its range.
proof fn lemma_pow2_le_half(k: nat)
    requires
        pow2(k) <= usize::MAX,
    ensures
        pow2(k) <= half_range(),
        k < usize::BITS,
{
    lemma_half_range();
    vstd::arithmetic::power2::lemma2_to64();
    vstd::arithmetic::power2::lemma2_to64_rest();
    if k >= usize::BITS {
        lemma_pow2_mono(usize::BITS as nat, k);
    } else {
        lemma_pow2_mono(k, (usize::BITS - 1) as nat);
    }
}

/// A power of two is its own next power of two.
proof fn lemma_next_pow2_of_pow2(n: usize)
    requires
        is_pow2_spec(n as int),
    ensures
        next_pow2_spec(n as nat) == n,
{
    let k = choose|k: nat| pow2(k) == n;
    lemma_log2_ceil_pow2(k);
}

/// Facts on the width of `usize`.
proof fn lemma_half_range()
    ensures
        half_range() == usize::MAX / 2 + 1,
        half_range() * 2 == usize::MAX + 1,
        isize::MAX < half_range(),
{
    vstd::arithmetic::power2::lemma2_to64();
    vstd::arithmetic::power2::lemma2_to64_rest();
}

/// A power of two in a `usize` is at most half its range.
proof fn lemma_power_of_two_le_half(a: usize)
    requires
        is_power_of_two(a),
    ensures
        a <= half_range(),
{
    lemma_power_of_two_bits(a);
    let k = choose|k: nat| pow2(k) == a;
    lemma_pow2_le_half(k);
}

/// The free lists after block `b`, of order `order`, is split down to order
/// `target`: each split pushes the back half of the block onto the free list
/// of the order below, and the block keeps its front half.
pub open spec fn split_lists(
    lists: Seq<Seq<FreeView>>,
    b: FreeView,
    order: int,
    target: int,
    offset: usize,
) -> Seq<Seq<FreeView>>
    decreases order - target,
{
    if order <= target {
        lists
    } else {
        let half = (b.size / 2) as usize;
        let back = FreeView {
            magic: FREE_MAGIC,
            addr: (b.base + half + offset) as usize,
            base: (b.base + half) as usize,
            size: (b.size - half) as usize,
            kind: b.kind,
        };
        split_lists(
            lists.update(order - 1, seq![back] + lists[order - 1]),
            FreeView { size: half, ..b },
            order - 1,
            target,
            offset,
        )
    }
}

/// The lowest order at or above `from` whose free list is not empty.
pub open spec fn first_nonempty(lists: Seq<Seq<FreeView>>, from: int) -> Option<int>
    decreases lists.len() - from,
{
    if from < 0 || from >= lists.len() {
        None
    } else if lists[from].len() > 0 {
        Some(from)
    } else {
        first_nonempty(lists, from + 1)
    }
}

/// The order found by [`first_nonempty`] is at or above `from`, has a free
/// list, and that list is not empty.
proof fn lemma_first_nonempty(lists: Seq<Seq<FreeView>>, from: int)
    ensures
        first_nonempty(lists, from) matches Some(j) ==> from <= j < lists.len() && lists[j].len()
            > 0,
    decreases lists.len() - from,
{
    if 0 <= from < lists.len() && lists[from].len() == 0 {
        lemma_first_nonempty(lists, from + 1);
    }
}

/// The view of an optional block.
pub open spec fn opt_view(b: Option<Free>) -> Option<FreeView> {
    match b {
        Some(f) => Some(f@),
        None => None,
    }
}

/// The virtual address of the buddy of the block at `addr` of `size` bytes
/// in a heap based at `base`: the block it would merge with, found by
/// flipping the bit of `size` in the block's offset from the base.
pub open spec fn buddy_of(base: usize, addr: usize, size: usize) -> usize {
    (base + (((addr - base) as usize) ^ size)) as usize
}

/// The position, in the free list of order `order`, of the buddy of the
/// block at `addr`, if that buddy is free. No block has a buddy before the
/// heap has a base.
pub open spec fn find_buddy(
    lists: Seq<Seq<FreeView>>,
    base: usize,
    min_log2: nat,
    addr: usize,
    order: int,
) -> Option<int> {
    let buddy = buddy_of(base, addr, pow2((min_log2 + order) as nat) as usize);
    if base == usize::MAX || buddy == addr {
        None
    } else {
        find_addr(lists[order], buddy)
    }
}

/// Block `b` merged with its buddy `other`: the merged block keeps the
/// header of the lower of the two and covers both.
pub open spec fn merged_view(b: FreeView, other: FreeView) -> FreeView {
    if other.addr < b.addr {
        FreeView { size: (other.size + b.size) as usize, ..other }
    } else {
        FreeView { size: (b.size + other.size) as usize, ..b }
    }
}

/// The free lists after freeing block `b` at order `order`: while the
/// block's buddy is free, the buddy leaves its free list and the two merge
/// into a block of the next order; the block then goes to the front of its
/// order's free list. The flag is `false` if the merging ran past the
/// highest order.
pub open spec fn free_chain(
    lists: Seq<Seq<FreeView>>,
    base: usize,
    min_log2: nat,
    b: FreeView,
    order: int,
) -> (Seq<Seq<FreeView>>, bool)
    decreases lists.len() - order,
{
    if order < 0 || order >= lists.len() {
        (lists, false)
    } else {
        match find_buddy(lists, base, min_log2, b.addr, order) {
            None => (lists.update(order, seq![b] + lists[order]), true),
            Some(k) => free_chain(
                lists.update(order, lists[order].remove(k)),
                base,
                min_log2,
                merged_view(b, lists[order][k]),
                order + 1,
            ),
        }
    }
}

/// A free block of `size` bytes at physical address `base`, mapped at
/// `offset`.
pub open spec fn block_at(base: int, size: int, offset: int) -> FreeView {
    FreeView {
        magic: FREE_MAGIC,
        addr: (base + offset) as usize,
        base: base as usize,
        size: size as usize,
        kind: RegionKind::Free,
    }
}

/// The blocks that adding the free region of `size` bytes at `base` pushes,
/// in order, to a heap with minimum block size `min` mapped at `offset`.
/// The base is aligned up to `min`, keeping the size. A size that is not a
/// power of two is split: the front block's size is the greatest power of
/// two not above the size, and the rest is added in turn if it is at least
/// `min` bytes long.
pub open spec fn region_blocks(base: int, size: int, min: int, offset: int) -> Seq<FreeView>
    decreases size,
{
    let b = align_up_spec(base, min);
    if size <= 0 {
        seq![]
    } else if is_power_of_two(size as usize) {
        seq![block_at(b, size, offset)]
    } else {
        let p = prev_pow2_spec(size as nat) as int;
        if p <= 0 || p >= size {
            seq![block_at(b, p, offset)]
        } else if size - p >= min {
            seq![block_at(b, p, offset)] + region_blocks(b + p, size - p, min, offset)
        } else {
            seq![block_at(b, p, offset)]
        }
    }
}

/// The free lists after pushing `blocks` in order, each onto the front of
/// the free list of its order, with minimum block size `2^min_log2`.
pub open spec fn push_blocks(
    lists: Seq<Seq<FreeView>>,
    blocks: Seq<FreeView>,
    min_log2: nat,
) -> Seq<Seq<FreeView>>
    decreases blocks.len(),
{
    if blocks.len() == 0 {
        lists
    } else {
        let b = blocks[0];
        let o = log2_ceil_spec(b.size as nat) - min_log2;
        push_blocks(lists.update(o, seq![b] + lists[o]), blocks.drop_first(), min_log2)
    }
}

/// The total size of `blocks`.
pub open spec fn total_size(blocks: Seq<FreeView>) -> int
    decreases blocks.len(),
{
    if blocks.len() == 0 {
        0
    } else {
        blocks[0].size + total_size(blocks.drop_first())
    }
}

/// The lowest of `start` and the virtual addresses of `blocks`.
pub open spec fn lowest_addr(start: int, blocks: Seq<FreeView>) -> int
    decreases blocks.len(),
{
    if blocks.len() == 0 {
        start
    } else {
        let a = if (blocks[0].addr as int) < start {
            blocks[0].addr as int
        } else {
            start
        };
        lowest_addr(a, blocks.drop_first())
    }
}

/// A block of `size` bytes at physical address `b` can be pushed onto a free
/// list of an allocator with minimum block size `min` (`2^min_log2`), `len`
/// free lists and mapping offset `offset`, when the heap size so far is
/// `heap`: it is at least the minimum size, its order has a free list, its
/// mapping and physical addresses fit, and so does the new heap size.
pub open spec fn block_addable(
    min: int,
    min_log2: nat,
    len: int,
    offset: int,
    b: int,
    size: int,
    heap: int,
) -> bool {
    &&& size >= min
    &&& log2_ceil_spec(size as nat) - min_log2 < len
    &&& b + offset + size <= usize::MAX
    &&& 0 <= b
    &&& paddr_valid(b as usize)
    &&& paddr_valid((b + size) as usize)
    &&& heap + size <= usize::MAX
}

/// Adding the free region of `size` bytes at `base` to such an allocator
/// succeeds when the heap size so far is `heap`: the region is not empty, its
/// aligned base is a valid address, and each block it is cut into (see
/// [`region_blocks`]) can be pushed.
pub open spec fn region_ok(
    min: int,
    min_log2: nat,
    len: int,
    offset: int,
    base: int,
    size: int,
    heap: int,
) -> bool
    decreases size,
{
    let b = align_up_spec(base, min);
    &&& size > 0
    &&& b <= usize::MAX
    &&& paddr_valid(b as usize)
    &&& if is_power_of_two(size as usize) {
        block_addable(min, min_log2, len, offset, b, size, heap)
    } else {
        let p = prev_pow2_spec(size as nat) as int;
        &&& 0 < p < size
        &&& block_addable(min, min_log2, len, offset, b, p, heap)
        &&& (size - p >= min ==> region_ok(min, min_log2, len, offset, b + p, size - p, heap + p))
    }
}

/// The blocks still to be pushed for the region `next`, if any.
pub open spec fn rest_blocks(next: Option<Region<PAddr>>, min: int, offset: int) -> Seq<FreeView> {
    match next {
        Some(r) => region_blocks(r.base_spec() as int, r.size_spec() as int, min, offset),
        None => seq![],
    }
}

/// A measure of the work left for the region `next`.
pub open spec fn rest_size(next: Option<Region<PAddr>>) -> nat {
    match next {
        Some(r) => r.size_spec() as nat + 1,
        None => 0,
    }
}

/// The greatest power of two not above a positive size that is not a
/// power of two is below it, and is `2^(bit_len(size) - 1)`.
proof fn lemma_prev_pow2_lt(size: usize)
    requires
        size > 0,
        !is_power_of_two(size),
    ensures
        0 < prev_pow2_spec(size as nat) < size,
        prev_pow2_spec(size as nat) == pow2((bit_len(size as nat) - 1) as nat),
{
    lemma_prev_pow2(size as nat);
    let p = prev_pow2_spec(size as nat);
    if p == size {
        assert(is_pow2_spec(size as int));
        crate::math::lemma_power_of_two_bits(size);
    }
}

/// The position of the first block at virtual address `addr` in `list`.
pub open spec fn find_addr(list: Seq<FreeView>, addr: usize) -> Option<int>
    decreases list.len(),
{
    if list.len() == 0 {
        None
    } else if list[0].addr == addr {
        Some(0)
    } else {
        shift_opt(find_addr(list.drop_first(), addr), 1)
    }
}

/// Whether freeing a block at address `addr` into the free list of order
/// `order` comes to rest on a free list: following the merges with free
/// buddies upward, some order below the highest has no free buddy.
pub open spec fn chain_rests(
    lists: Seq<Seq<FreeView>>,
    base: usize,
    min_log2: nat,
    addr: usize,
    order: int,
) -> bool
    decreases lists.len() - order,
{
    if order < 0 || order >= lists.len() {
        false
    } else {
        match find_buddy(lists, base, min_log2, addr, order) {
            None => true,
            Some(k) => {
                let other = lists[order][k].addr;
                chain_rests(
                    lists,
                    base,
                    min_log2,
                    if other < addr {
                        other
                    } else {
                        addr
                    },
                    order + 1,
                )
            },
        }
    }
}

/// Whether [`free_chain`] comes to rest depends only on the block's address
/// and on the free lists from its order up.
proof fn lemma_chain_rests(
    lists: Seq<Seq<FreeView>>,
    lists0: Seq<Seq<FreeView>>,
    base: usize,
    min_log2: nat,
    b: FreeView,
    order: int,
)
    requires
        lists.len() == lists0.len(),
        forall|j: int| order <= j < lists.len() ==> #[trigger] lists[j] == lists0[j],
    ensures
        free_chain(lists, base, min_log2, b, order).1 == chain_rests(
            lists0,
            base,
            min_log2,
            b.addr,
            order,
        ),
    decreases lists.len() - order,
{
    if 0 <= order < lists.len() {
        assert(lists[order] == lists0[order]);
        match find_buddy(lists, base, min_log2, b.addr, order) {
            None => {},
            Some(k) => {
                let l2 = lists.update(order, lists[order].remove(k));
                assert forall|j: int| order + 1 <= j < l2.len() implies #[trigger] l2[j] == lists0[j] by {
                    assert(lists[j] == lists0[j]);
                }
                lemma_chain_rests(
                    l2,
                    lists0,
                    base,
                    min_log2,
                    merged_view(b, lists[order][k]),
                    order + 1,
                );
            },
        }
    }
}

/// A position found by [`find_addr`] is in the list and holds a block at
/// the address sought.
proof fn lemma_find_addr(list: Seq<FreeView>, addr: usize)
    ensures
        find_addr(list, addr) matches Some(k) ==> 0 <= k < list.len() && list[k].addr == addr,
    decreases list.len(),
{
    if list.len() > 0 && list[0].addr != addr {
        lemma_find_addr(list.drop_first(), addr);
    }
}

/// Adds `by` to an optional position.
pub open spec fn shift_opt(p: Option<int>, by: int) -> Option<int> {
    match p {
        Some(k) => Some(k + by),
        None => None,
    }
}

/// The buddy of a block of `size` bytes, a power of two, lies directly
/// after it or directly before it.
proof fn lemma_buddy_adjacent(base: usize, addr: usize, size: usize, k: nat)
    requires
        base <= addr,
        size == pow2(k),
        addr + size <= usize::MAX,
    ensures
        buddy_of(base, addr, size) == addr + size || buddy_of(base, addr, size) == addr - size,
        buddy_of(base, addr, size) != addr,
        buddy_of(base, addr, size) >= base,
{
    crate::math::lemma_power_of_two_bits(size);
    assert(crate::math::is_pow2_spec(size as int));
    let r = (addr - base) as usize;
    assert(size != 0 && size & ((size - 1) as usize) == 0 ==> ((r ^ size) == r + size || (r
        ^ size) == r - size) && (r ^ size) != r && (r & size == 0 ==> (r ^ size) == r + size)
        && (r & size != 0 ==> (r ^ size) == r - size)) by (bit_vector);
}

/// Flipping one bit of `r` moves it by at most that bit.
proof fn lemma_xor_le_sum(r: usize, s: usize)
    ensures
        (r ^ s) <= r + s,
{
    assert((r ^ s) <= r + s) by (bit_vector);
}

/// `2^k` fits in a `usize` when `k` is below its width.
proof fn lemma_pow2_bound(k: nat)
    requires
        k < usize::BITS,
    ensures
        pow2(k) <= usize::MAX,
        1 * pow2(k) == pow2(k),
{
    vstd::arithmetic::power2::lemma2_to64();
    vstd::arithmetic::power2::lemma2_to64_rest();
    if usize::BITS == 32 {
        if k < 32 {
            lemma_pow2_strictly_increases(k, 32);
        }
    } else {
        if k < 64 {
            lemma_pow2_strictly_increases(k, 64);
        }
    }
}

} // verus!

verus! {

/// The number of bytes held on the free lists `lists`.
pub open spec fn free_bytes(lists: Seq<Seq<FreeView>>) -> int
    decreases lists.len(),
{
    if lists.len() == 0 {
        0
    } else {
        total_size(lists.last()) + free_bytes(lists.drop_last())
    }
}

proof fn lemma_total_size_push_front(b: FreeView, l: Seq<FreeView>)
    ensures
        total_size(seq![b] + l) == b.size + total_size(l),
{
    assert((seq![b] + l).drop_first() =~= l);
}

proof fn lemma_total_size_remove(l: Seq<FreeView>, k: int)
    requires
        0 <= k < l.len(),
    ensures
        total_size(l.remove(k)) == total_size(l) - l[k].size,
    decreases k,
{
    if k == 0 {
        assert(l.remove(0) =~= l.drop_first());
    } else {
        lemma_total_size_remove(l.drop_first(), k - 1);
        assert(l.remove(k).drop_first() =~= l.drop_first().remove(k - 1));
        assert(l.remove(k)[0] == l[0]);
    }
}

proof fn lemma_free_bytes_update(lists: Seq<Seq<FreeView>>, o: int, new: Seq<FreeView>)
    requires
        0 <= o < lists.len(),
    ensures
        free_bytes(lists.update(o, new)) == free_bytes(lists) - total_size(lists[o]) + total_size(new),
    decreases lists.len(),
{
    let u = lists.update(o, new);
    if o == lists.len() - 1 {
        assert(u.drop_last() =~= lists.drop_last());
    } else {
        lemma_free_bytes_update(lists.drop_last(), o, new);
        assert(u.drop_last() =~= lists.drop_last().update(o, new));
    }
}

/// Every block on the free list of order `o` has `2^(min_log2 + o)` bytes.
pub open spec fn sizes_ok(lists: Seq<Seq<FreeView>>, min_log2: nat) -> bool {
    forall|o: int, k: int|
        0 <= o < lists.len() && 0 <= k < lists[o].len() ==> #[trigger] lists[o][k].size == pow2(
            (min_log2 + o) as nat,
        )
}

/// Splitting a block of `2^k` bytes from order `order` down to `target`
/// adds to the free lists everything but the `2^(k - (order - target))`
/// bytes the block keeps.
proof fn lemma_split_bytes(
    lists: Seq<Seq<FreeView>>,
    b: FreeView,
    order: int,
    target: int,
    offset: usize,
    k: nat,
)
    requires
        0 <= target <= order < lists.len(),
        b.size == pow2(k),
        order - target <= k,
    ensures
        free_bytes(split_lists(lists, b, order, target, offset)) + pow2((k - (order - target)) as nat)
            == free_bytes(lists) + b.size,
    decreases order - target,
{
    if order > target {
        vstd::arithmetic::power2::lemma_pow2_unfold(k);
        let half = (b.size / 2) as usize;
        let back = FreeView {
            magic: FREE_MAGIC,
            addr: (b.base + half + offset) as usize,
            base: (b.base + half) as usize,
            size: (b.size - half) as usize,
            kind: b.kind,
        };
        let l2 = lists.update(order - 1, seq![back] + lists[order - 1]);
        lemma_free_bytes_update(lists, order - 1, seq![back] + lists[order - 1]);
        lemma_total_size_push_front(back, lists[order - 1]);
        lemma_split_bytes(l2, FreeView { size: half, ..b }, order - 1, target, offset, (k - 1) as nat);
    }
}

/// Freeing block `b` of order `order` adds exactly its bytes to the free
/// lists, when the merging comes to rest on a free list.
proof fn lemma_chain_bytes(
    lists: Seq<Seq<FreeView>>,
    base: usize,
    min_log2: nat,
    b: FreeView,
    order: int,
)
    requires
        0 <= order,
        sizes_ok(lists, min_log2),
        min_log2 + lists.len() <= usize::BITS,
        b.size == pow2((min_log2 + order) as nat),
        free_chain(lists, base, min_log2, b, order).1,
    ensures
        free_bytes(free_chain(lists, base, min_log2, b, order).0) == free_bytes(lists) + b.size,
    decreases lists.len() - order,
{
    if order < lists.len() {
        match find_buddy(lists, base, min_log2, b.addr, order) {
            None => {
                lemma_free_bytes_update(lists, order, seq![b] + lists[order]);
                lemma_total_size_push_front(b, lists[order]);
            },
            Some(k) => {
                let buddy = buddy_of(base, b.addr, pow2((min_log2 + order) as nat) as usize);
                lemma_find_addr(lists[order], buddy);
                let other = lists[order][k];
                let l2 = lists.update(order, lists[order].remove(k));
                lemma_free_bytes_update(lists, order, lists[order].remove(k));
                lemma_total_size_remove(lists[order], k);
                let merged0 = merged_view(b, other);
                if order + 1 >= lists.len() {
                    assert(free_chain(l2, base, min_log2, merged0, order + 1).1 == false);
                }
                assert(order + 1 < lists.len());
                vstd::arithmetic::power2::lemma_pow2_unfold((min_log2 + order + 1) as nat);
                lemma_pow2_bound((min_log2 + order + 1) as nat);
                let merged = merged_view(b, other);
                assert(merged.size == pow2((min_log2 + order + 1) as nat));
                assert forall|o: int, j: int| 0 <= o < l2.len() && 0 <= j < l2[o].len() implies #[trigger] l2[o][j].size
                    == pow2((min_log2 + o) as nat) by {
                    if o == order {
                        if j < k {
                            assert(l2[o][j] == lists[o][j]);
                        } else {
                            assert(l2[o][j] == lists[o][j + 1]);
                        }
                    }
                }
                lemma_chain_bytes(l2, base, min_log2, merged, order + 1);
            },
        }
    }
}

impl Alloc {
    /// Taking a block for an allocation removes exactly that block's bytes
    /// from the free lists: the bytes on the free lists afterwards plus the
    /// block's size equal the bytes on them before. When no block is taken
    /// the free lists are unchanged.
    pub proof fn law_take_block_conserves(&self, order: int)
        requires
            self.wf(),
            0 <= order,
        ensures
            self.take_block(order).1 matches Some(b) ==> free_bytes(self.take_block(order).0)
                + b.size == free_bytes(self.lists()),
            self.take_block(order).1 is None ==> self.take_block(order).0 == self.lists(),
    {
        lemma_first_nonempty(self.lists(), order);
        if let Some(j) = first_nonempty(self.lists(), order) {
            let lists = self.lists();
            let k = lists[j].len() - 1;
            let b = lists[j][k];
            assert(self.block_ok(b, j));
            assert(lists[j].drop_last() =~= lists[j].remove(k));
            lemma_free_bytes_update(lists, j, lists[j].drop_last());
            lemma_total_size_remove(lists[j], k);
            lemma_split_bytes(
                lists.update(j, lists[j].drop_last()),
                b,
                j,
                order,
                self.vm_offset_spec(),
                (self.min_log2() + j) as nat,
            );
            lemma_pow2_bound((self.min_log2() + order) as nat);
        }
    }

    /// Freeing a block returns exactly its bytes to the free lists: when a
    /// well-formed block of order `order` is freed and its merging comes to
    /// rest on a free list, the bytes on the free lists grow by its size.
    pub proof fn law_free_chain_conserves(&self, b: FreeView, order: int)
        requires
            self.wf(),
            0 <= order,
            b.size == self.order_size(order),
            free_chain(self.lists(), self.base_vaddr_spec(), self.min_log2(), b, order).1,
        ensures
            free_bytes(free_chain(self.lists(), self.base_vaddr_spec(), self.min_log2(), b, order).0)
                == free_bytes(self.lists()) + b.size,
    {
        assert forall|o: int, k: int|
            0 <= o < self.lists().len() && 0 <= k < self.lists()[o].len() implies #[trigger] self.lists()[o][k].size
            == pow2((self.min_log2() + o) as nat) by {
            assert(self.block_ok(self.lists()[o][k], o));
        }
        lemma_chain_bytes(self.lists(), self.base_vaddr_spec(), self.min_log2(), b, order);
    }
}

/// Pushing blocks onto the free lists adds exactly their total size to the
/// bytes held there, when each block's order has a free list.
pub proof fn law_push_blocks_conserves(
    lists: Seq<Seq<FreeView>>,
    blocks: Seq<FreeView>,
    min_log2: nat,
)
    requires
        forall|i: int|
            0 <= i < blocks.len() ==> 0 <= #[trigger] log2_ceil_spec(blocks[i].size as nat) - min_log2
                < lists.len(),
    ensures
        free_bytes(push_blocks(lists, blocks, min_log2)) == free_bytes(lists) + total_size(blocks),
    decreases blocks.len(),
{
    if blocks.len() > 0 {
        let b = blocks[0];
        let o = log2_ceil_spec(b.size as nat) - min_log2;
        lemma_free_bytes_update(lists, o, seq![b] + lists[o]);
        lemma_total_size_push_front(b, lists[o]);
        let rest = blocks.drop_first();
        assert forall|i: int| 0 <= i < rest.len() implies 0 <= #[trigger] log2_ceil_spec(
            rest[i].size as nat,
        ) - min_log2 < lists.update(o, seq![b] + lists[o]).len() by {
            assert(rest[i] == blocks[i + 1]);
        }
        law_push_blocks_conserves(lists.update(o, seq![b] + lists[o]), rest, min_log2);
    }
}

} // verus!
