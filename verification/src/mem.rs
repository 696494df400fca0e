use vstd::prelude::*;

use crate::addr::{Address, PAddr, VAddr, is_power_of_two, is_aligned_spec};
use crate::mem::page::{NotAligned, Page, PageRange, Size};


pub mod frame;
pub mod page;

verus! {

/// Translates kernel-mode addresses.
pub trait TranslateKernelAddrs {
    /// Translate a kernel virtual address into a physical address.
    fn to_kernel_paddr(&self, vaddr: VAddr) -> PAddr;

    /// Translate a kernel physical address into a virtual address.
    fn to_kernel_vaddr(&self, paddr: PAddr) -> VAddr;
}

/// What a memory region is used for.
#[derive(Copy, Clone, Debug, PartialEq, Eq, Structural)]
pub enum RegionKind {
    /// For whatever reason, this memory region's kind is undetermined.
    Unknown,
    /// Free memory.
    Free,
    /// Memory used by the kernel.
    Used,
    /// Memory containing bootloader info that may be reclaimed by the kernel.
    BootReclaimable,
    /// Memory containing bootloader info that may **not** be reclaimed by the
    /// kernel.
    Boot,
    /// Bad memory.
    Bad,
    /// Kernel memory.
    Kernel,
    /// Kernel stack.
    KernelStack,
    /// Memory used for a page table.
    PageTable,
}

impl RegionKind {
    pub const UNKNOWN: RegionKind = RegionKind::Unknown;

    pub const FREE: RegionKind = RegionKind::Free;

    pub const USED: RegionKind = RegionKind::Used;

    pub const BOOT_RECLAIMABLE: RegionKind = RegionKind::BootReclaimable;

    pub const BOOT: RegionKind = RegionKind::Boot;

    pub const BAD: RegionKind = RegionKind::Bad;

    pub const KERNEL: RegionKind = RegionKind::Kernel;

    pub const KERNEL_STACK: RegionKind = RegionKind::KernelStack;

    pub const PAGE_TABLE: RegionKind = RegionKind::PageTable;
}

/// A cross-platform representation of a memory region: `size` bytes
/// starting at `base`.
#[derive(Clone, Copy, Debug)]
pub struct Region<A> {
    base: A,
    size: usize,
    kind: RegionKind,
}

impl<A: Address> Region<A> {
    /// The base address.
    pub closed spec fn base_spec(&self) -> usize {
        self.base.addr()
    }

    /// The size in bytes.
    pub closed spec fn size_spec(&self) -> usize {
        self.size
    }

    /// The kind of memory.
    pub closed spec fn kind_spec(&self) -> RegionKind {
        self.kind
    }

    /// The end address (one past the last byte) is a valid address.
    pub open spec fn end_valid(&self) -> bool {
        &&& self.base_spec() + self.size_spec() <= usize::MAX
        &&& A::valid((self.base_spec() + self.size_spec()) as usize)
    }

    pub fn new(base: A, size: usize, kind: RegionKind) -> (r: Self)
        ensures
            r.base_spec() == base.addr(),
            r.size_spec() == size,
            r.kind_spec() == kind,
    {
        Self { base, size, kind }
    }

    /// Returns the base address of the memory region.
    pub fn base_addr(&self) -> (r: A)
        ensures
            r.addr() == self.base_spec(),
    {
        self.base
    }

    /// Returns the size (in bytes) of the memory region.
    pub fn size(&self) -> (r: usize)
        ensures
            r == self.size_spec(),
    {
        self.size
    }

    /// Returns the end address (exclusive) of the memory region: the start
    /// address of the next memory region.
    pub fn end_addr(&self) -> (r: A)
        requires
            self.end_valid(),
        ensures
            r.addr() == self.base_spec() + self.size_spec(),
    {
        self.base.add(self.size)
    }

    pub fn kind(&self) -> (r: RegionKind)
        ensures
            r == self.kind_spec(),
    {
        self.kind
    }

    /// Returns `true` if `self` contains the specified address.
    pub fn contains(&self, addr: A) -> (r: bool)
        requires
            self.end_valid(),
        ensures
            r == (self.base_spec() <= addr.addr() < self.base_spec() + self.size_spec()),
    {
        let a = addr.as_usize();
        a >= self.base.as_usize() && a < self.end_addr().as_usize()
    }

    /// Returns the range of pages of size `size` that covers this region,
    /// or an error if the region's base or end is not aligned to `size`.
    pub fn page_range<S: Size>(&self, size: S) -> (r: Result<PageRange<A, S>, NotAligned<S>>)
        requires
            is_power_of_two(size.spec_size()),
            self.end_valid(),
            A::valid(self.base_spec()),
            self.size_spec() >= size.spec_size(),
            A::valid((self.base_spec() + self.size_spec() - size.spec_size()) as usize),
        ensures
            r is Ok <==> (is_aligned_spec(self.base_spec() as int, size.spec_size() as int)
                && is_aligned_spec(
                (self.base_spec() + self.size_spec()) as int,
                size.spec_size() as int,
            )),
            r matches Ok(range) ==> {
                &&& range.wf()
                &&& range.start_spec().base_spec() == self.base_spec()
                &&& range.end_spec().base_spec() + size.spec_size() == self.base_spec()
                    + self.size_spec()
                &&& range.start_spec().size_spec() == size.spec_size()
            },
    {
        let start = match Page::starting_at(self.base, size) {
            Ok(p) => p,
            Err(e) => return Err(e),
        };
        let end = match Page::starting_at(self.end_addr(), size) {
            Ok(p) => p,
            Err(e) => return Err(e),
        };
        proof {
            vstd::arithmetic::div_mod::lemma_fundamental_div_mod(
                self.size_spec() as int,
                size.spec_size() as int,
            );
            vstd::arithmetic::div_mod::lemma_mod_adds(
                self.base_spec() as int,
                self.size_spec() as int,
                size.spec_size() as int,
            );
        }
        Ok(start.range_to(end))
    }

    /// Splits `size` bytes off the front of this region and returns them;
    /// `self` keeps the rest. Returns `None` if the region is smaller than
    /// `size`.
    pub fn split_front(&mut self, size: usize) -> (r: Option<Self>)
        requires
            size <= old(self).size_spec() ==> old(self).base_spec() + size <= usize::MAX && A::valid(
                (old(self).base_spec() + size) as usize,
            ),
        ensures
            size > old(self).size_spec() ==> r is None && *final(self) == *old(self),
            size <= old(self).size_spec() ==> (r matches Some(front) && {
                &&& front.base_spec() == old(self).base_spec()
                &&& front.size_spec() == size
                &&& front.kind_spec() == old(self).kind_spec()
                &&& final(self).base_spec() == old(self).base_spec() + size
                &&& final(self).size_spec() == old(self).size_spec() - size
                &&& final(self).kind_spec() == old(self).kind_spec()
            }),
    {
        if size > self.size {
            return None;
        }
        let base = self.base;
        self.base = self.base.add(size);
        self.size = self.size - size;
        Some(Self { base, size, kind: self.kind })
    }

    /// Shrinks this region to its first `size` bytes and returns the rest as
    /// a region of its own. Returns `None` if the region is not larger than
    /// `size`.
    pub fn split_back(&mut self, size: usize) -> (r: Option<Self>)
        requires
            size < old(self).size_spec() ==> old(self).base_spec() + size <= usize::MAX && A::valid(
                (old(self).base_spec() + size) as usize,
            ),
        ensures
            size >= old(self).size_spec() ==> r is None && *final(self) == *old(self),
            size < old(self).size_spec() ==> (r matches Some(back) && {
                &&& back.base_spec() == old(self).base_spec() + size
                &&& back.size_spec() == old(self).size_spec() - size
                &&& back.kind_spec() == old(self).kind_spec()
                &&& final(self).base_spec() == old(self).base_spec()
                &&& final(self).size_spec() == size
                &&& final(self).kind_spec() == old(self).kind_spec()
            }),
    {
        if size >= self.size {
            return None;
        }
        let rem_size = self.size - size;
        let base = self.base.add(size);
        self.size = size;
        Some(Self { base, size: rem_size, kind: self.kind })
    }

    /// Merges `other` into this region: `self` becomes the region starting
    /// at the lower of the two bases, with the two sizes added. If `other`
    /// had the lower base the two regions are swapped first.
    pub fn merge(&mut self, other: &mut Self)
        requires
            old(self).kind_spec() == old(other).kind_spec(),
            old(self).size_spec() + old(other).size_spec() <= usize::MAX,
        ensures
            old(self).base_spec() <= old(other).base_spec() ==> final(self).base_spec() == old(
                self).base_spec() && *final(other) == *old(other),
            old(self).base_spec() > old(other).base_spec() ==> final(self).base_spec() == old(
                other).base_spec() && *final(other) == *old(self),
            final(self).size_spec() == old(self).size_spec() + old(other).size_spec(),
            final(self).kind_spec() == old(self).kind_spec(),
    {
        if self.base.as_usize() > other.base.as_usize() {
            std::mem::swap(self, other);
        }
        self.size = self.size + other.size;
    }

    /// Constructs a region starting at the first page of `range`; its size is
    /// the size of one page of the range.
    pub fn from_page_range<S: Size>(range: PageRange<A, S>, kind: RegionKind) -> (r: Self)
        ensures
            r.base_spec() == range.start_spec().base_spec(),
            r.size_spec() == range.start_spec().size_spec(),
            r.kind_spec() == kind,
    {
        let base = range.start().base_addr();
        let size = range.page_size().as_usize();
        Self { base, size, kind }
    }
}

/// A region's base is the lowest address it contains: a region that is not
/// empty contains its base, and every address it contains is at or above
/// the base. Its size is the distance from its base to its end.
pub proof fn law_region_base_lowest<A: Address>(g: Region<A>, a: usize)
    ensures
        g.size_spec() > 0 ==> g.base_spec() <= g.base_spec() < g.base_spec() + g.size_spec(),
        (g.base_spec() <= a < g.base_spec() + g.size_spec()) ==> g.base_spec() <= a,
        (g.base_spec() + g.size_spec()) - g.base_spec() == g.size_spec(),
{
}

/// A region's size is the number of addresses it contains: those from its
/// base up to, not including, its end.
pub proof fn law_region_size_counts_addresses<A: Address>(g: Region<A>)
    ensures
        vstd::set_lib::set_int_range(
            g.base_spec() as int,
            g.base_spec() + g.size_spec(),
        ).finite(),
        vstd::set_lib::set_int_range(g.base_spec() as int, g.base_spec() + g.size_spec()).len()
            == g.size_spec(),
{
    vstd::set_lib::lemma_int_range(g.base_spec() as int, g.base_spec() + g.size_spec());
}

} // verus!
