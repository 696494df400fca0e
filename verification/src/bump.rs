//! The simplest thing resembling an allocator: it hands out memory from the
//! top of a fixed heap downward and never takes any back.
//!
//! The heap is `SIZE` bytes starting at an address fixed when the allocator
//! is made; the allocator keeps only the number of bytes still free below
//! its last allocation.
use vstd::prelude::*;

use crate::addr::{align_down_spec, is_power_of_two, lemma_align_bits};

verus! {

/// A bump allocator over a heap of `SIZE` bytes.
pub struct Alloc<const SIZE: usize> {
    heap_base: usize,
    free: usize,
}

/// Where an allocation of `size` bytes aligned to `align` lands in a heap
/// starting at `base` with `free` bytes left below the last allocation: the
/// highest aligned address that leaves room for `size` bytes, or `None` if
/// there is no room or aligning would leave the heap.
pub open spec fn bump_spec(base: int, free: int, size: int, align: int) -> Option<int> {
    if free < size {
        None
    } else {
        let p = align_down_spec(base + free - size, align);
        if p < base {
            None
        } else {
            Some(p)
        }
    }
}

impl<const SIZE: usize> Alloc<SIZE> {
    /// The address of the first byte of the heap.
    pub closed spec fn base_spec(&self) -> usize {
        self.heap_base
    }

    /// The number of bytes left below the last allocation.
    pub closed spec fn free_spec(&self) -> usize {
        self.free
    }

    /// The free bytes are within the heap, and the heap within the address
    /// space.
    pub closed spec fn wf(&self) -> bool {
        &&& self.free <= SIZE
        &&& self.heap_base + SIZE <= usize::MAX
    }

    /// Returns an allocator over the `SIZE` bytes starting at `heap_base`,
    /// all of them free.
    pub fn new(heap_base: usize) -> (r: Self)
        requires
            heap_base + SIZE <= usize::MAX,
        ensures
            r.wf(),
            r.base_spec() == heap_base,
            r.free_spec() == SIZE,
    {
        Alloc { heap_base, free: SIZE }
    }

    /// Returns the size of the heap.
    pub fn total_size(&self) -> (r: usize)
        ensures
            r == SIZE,
    {
        SIZE
    }

    /// Returns the number of bytes handed out so far, counting the padding
    /// that alignment left unused.
    pub fn allocated_size(&self) -> (r: usize)
        requires
            self.wf(),
        ensures
            r == SIZE - self.free_spec(),
    {
        SIZE - self.free
    }

    /// Returns `true` if `addr` is below the end of the heap.
    pub fn owns(&self, addr: usize) -> (r: bool)
        requires
            self.wf(),
        ensures
            r == (addr < self.base_spec() + SIZE),
    {
        let end_addr = self.heap_base + SIZE;
        addr < end_addr
    }

    /// Allocates `size` bytes aligned to `align` and returns their address,
    /// or 0 if they do not fit below the last allocation.
    pub fn alloc_bytes(&mut self, size: usize, align: usize) -> (r: usize)
        requires
            old(self).wf(),
            is_power_of_two(align),
        ensures
            final(self).wf(),
            final(self).base_spec() == old(self).base_spec(),
            match bump_spec(
                old(self).base_spec() as int,
                old(self).free_spec() as int,
                size as int,
                align as int,
            ) {
                Some(p) => r == p && final(self).free_spec() == p - old(self).base_spec(),
                None => r == 0 && final(self).free_spec() == old(self).free_spec(),
            },
    {
        let heap = self.heap_base;
        let prev = self.free;
        // ensure enough space is left
        let new_free = match prev.checked_sub(size) {
            Some(x) => x,
            None => return 0,
        };
        // ensure the final pointer is aligned
        let top = heap + new_free;
        let new_ptr = top & !(align - 1);
        proof {
            lemma_align_bits(top, align);
        }
        let new_free = match new_ptr.checked_sub(heap) {
            Some(x) => x,
            None => return 0,
        };
        self.free = new_free;
        new_ptr
    }

    /// Does nothing: a bump allocator never takes memory back.
    pub fn dealloc_bytes(&mut self, ptr: usize, size: usize, align: usize)
        ensures
            *final(self) == *old(self),
    {
        let _ = (ptr, size, align);
    }
}

/// Successive allocations go downward: each one ends at or below the start
/// of the one before, so no two overlap.
pub proof fn law_allocations_do_not_overlap(base: int, free: int, size: int, align: int)
    requires
        0 <= free,
        0 <= size,
        align > 0,
        bump_spec(base, free, size, align) is Some,
    ensures
        ({
            let p = bump_spec(base, free, size, align)->0;
            base <= p && p + size <= base + free
        }),
{
    let p = bump_spec(base, free, size, align)->0;
    let u = base + free - size;
    assert(u % align >= 0);
    assert(p == u - u % align);
}

/// An allocation lands at the highest address aligned to `align` that
/// leaves room for `size` bytes between the heap's base and the last
/// allocation, and there is none exactly when no aligned address fits there.
pub proof fn law_bump_placement(base: int, free: int, size: int, align: int, q: int)
    requires
        0 <= free,
        0 <= size,
        align > 0,
    ensures
        bump_spec(base, free, size, align) matches Some(p) ==> {
            &&& p % align == 0
            &&& base <= p
            &&& p + size <= base + free
            &&& (q % align == 0 && q + size <= base + free ==> q <= p)
        },
        bump_spec(base, free, size, align) is None ==> !(q % align == 0 && base <= q && q + size
            <= base + free),
{
    let u = base + free - size;
    vstd::arithmetic::div_mod::lemma_fundamental_div_mod(u, align);
    let k = u / align;
    assert(align_down_spec(u, align) == align * k);
    vstd::arithmetic::div_mod::lemma_mod_multiples_basic(k, align);
    assert((align * k) % align == 0) by {
        vstd::arithmetic::mul::lemma_mul_is_commutative(align, k);
    }
    if q % align == 0 && q <= u {
        vstd::arithmetic::div_mod::lemma_fundamental_div_mod(q, align);
        vstd::arithmetic::div_mod::lemma_div_is_ordered(q, u, align);
        vstd::arithmetic::mul::lemma_mul_inequality(q / align, k, align);
        vstd::arithmetic::mul::lemma_mul_is_commutative(align, q / align);
        vstd::arithmetic::mul::lemma_mul_is_commutative(align, k);
        assert(q <= align * k);
    }
}

} // verus!
