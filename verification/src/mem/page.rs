use vstd::prelude::*;

use crate::addr::{
    Address,
    PAddr,
    VAddr,
    align_down_spec,
    is_aligned_spec,
    is_power_of_two,
    lemma_mask_is_mod,
    paddr_valid,
    vaddr_valid,
};

verus! {

/// The size of a page.
pub trait Size: Copy + Sized {
    /// The size in bytes.
    spec fn spec_size(&self) -> usize;

    /// Returns the size (in bytes) of this page.
    fn as_usize(&self) -> (r: usize)
        ensures
            r == self.spec_size(),
    ;
}

/// A statically known page size.
pub trait StaticSize: Size {
    /// The one value of this type.
    spec fn spec_instance() -> Self;

    fn instance() -> (r: Self)
        ensures
            r == Self::spec_instance(),
    ;

    /// A human-readable name for this size.
    fn pretty_name() -> &'static str;
}

/// 4 KiB pages.
#[derive(Copy, Clone, Debug, PartialEq, Eq, Structural)]
pub struct Size4Kb;

/// 2 MiB pages.
#[derive(Copy, Clone, Debug, PartialEq, Eq, Structural)]
pub struct Size2Mb;

/// 1 GiB pages.
#[derive(Copy, Clone, Debug, PartialEq, Eq, Structural)]
pub struct Size1Gb;

impl Size for Size4Kb {
    open spec fn spec_size(&self) -> usize {
        4096
    }

    fn as_usize(&self) -> (r: usize) {
        4096
    }
}

impl StaticSize for Size4Kb {
    open spec fn spec_instance() -> Self {
        Size4Kb
    }

    fn instance() -> (r: Self) {
        Size4Kb
    }

    fn pretty_name() -> &'static str {
        "4KiB"
    }
}

impl Size for Size2Mb {
    open spec fn spec_size(&self) -> usize {
        0x20_0000
    }

    fn as_usize(&self) -> (r: usize) {
        0x20_0000
    }
}

impl StaticSize for Size2Mb {
    open spec fn spec_instance() -> Self {
        Size2Mb
    }

    fn instance() -> (r: Self) {
        Size2Mb
    }

    fn pretty_name() -> &'static str {
        "2MiB"
    }
}

impl Size for Size1Gb {
    open spec fn spec_size(&self) -> usize {
        0x4000_0000
    }

    fn as_usize(&self) -> (r: usize) {
        0x4000_0000
    }
}

impl StaticSize for Size1Gb {
    open spec fn spec_instance() -> Self {
        Size1Gb
    }

    fn instance() -> (r: Self) {
        Size1Gb
    }

    fn pretty_name() -> &'static str {
        "1GiB"
    }
}

/// Translates virtual pages to physical pages.
pub trait TranslatePage<S: Size> {
    fn translate_page(&self, virt: Page<VAddr, S>) -> Result<Page<PAddr, S>, TranslateError<S>>;
}

/// Translates virtual addresses to physical addresses.
pub trait TranslateAddr {
    fn translate_addr(&self, addr: VAddr) -> Option<PAddr>;
}

/// The flags of a page table entry.
pub trait PageFlags<S: Size> {
    /// Whether the entry's page is writable.
    spec fn writable_spec(&self) -> bool;

    /// Whether the entry's page is executable.
    spec fn executable_spec(&self) -> bool;

    /// Whether the entry's page is present.
    spec fn present_spec(&self) -> bool;

    /// Set whether or not this page is writable.
    fn set_writable(&mut self, writable: bool)
        ensures
            final(self).writable_spec() == writable,
    ;

    /// Set whether or not this page is executable.
    fn set_executable(&mut self, executable: bool)
        ensures
            final(self).executable_spec() == executable,
    ;

    /// Set whether or not this page is present.
    fn set_present(&mut self, present: bool)
        ensures
            final(self).present_spec() == present,
    ;

    fn is_writable(&self) -> (r: bool)
        ensures
            r == self.writable_spec(),
    ;

    fn is_executable(&self) -> (r: bool)
        ensures
            r == self.executable_spec(),
    ;

    fn is_present(&self) -> (r: bool)
        ensures
            r == self.present_spec(),
    ;

    /// Commit the changes to the page table. Where changes to the flags
    /// take effect at once, this does nothing.
    fn commit(&mut self, page: Page<VAddr, S>);
}

/// A page whose mapping is being changed: its entry's flags may be updated
/// before the change is committed.
#[derive(Debug)]
pub struct Handle<'mapper, S: Size, E: PageFlags<S>> {
    entry: &'mapper mut E,
    page: Page<VAddr, S>,
}

impl<'mapper, S: Size, E: PageFlags<S>> Handle<'mapper, S, E> {
    /// The virtual page being mapped.
    pub closed spec fn page_spec(&self) -> Page<VAddr, S> {
        self.page
    }

    /// The page table entry of the page.
    pub closed spec fn entry_spec(&self) -> E {
        *self.entry
    }

    /// Returns a handle on `entry`, the entry of the virtual page `page`.
    pub fn new(page: Page<VAddr, S>, entry: &'mapper mut E) -> (r: Self)
        ensures
            r.page_spec() == page,
            r.entry_spec() == *old(entry),
    {
        Self { entry, page }
    }

    /// Returns the virtual page this entry is mapped to.
    pub fn virt_page(&self) -> (r: &Page<VAddr, S>)
        ensures
            *r == self.page_spec(),
    {
        &self.page
    }

    /// Sets whether the page is writable.
    pub fn set_writable(&mut self, writable: bool) -> (r: &mut Self)
        ensures
            r.page_spec() == old(self).page_spec(),
            r.entry_spec().writable_spec() == writable,
            *final(self) == *final(r),
    {
        self.entry.set_writable(writable);
        self
    }

    /// Sets whether the page is executable.
    pub fn set_executable(&mut self, executable: bool) -> (r: &mut Self)
        ensures
            r.page_spec() == old(self).page_spec(),
            r.entry_spec().executable_spec() == executable,
            *final(self) == *final(r),
    {
        self.entry.set_executable(executable);
        self
    }

    /// Sets whether the page is present.
    pub fn set_present(&mut self, present: bool) -> (r: &mut Self)
        ensures
            r.page_spec() == old(self).page_spec(),
            r.entry_spec().present_spec() == present,
            *final(self) == *final(r),
    {
        self.entry.set_present(present);
        self
    }

    /// Whether the page is writable.
    pub fn is_writable(&self) -> (r: bool)
        ensures
            r == self.entry_spec().writable_spec(),
    {
        self.entry.is_writable()
    }

    /// Whether the page is executable.
    pub fn is_executable(&self) -> (r: bool)
        ensures
            r == self.entry_spec().executable_spec(),
    {
        self.entry.is_executable()
    }

    /// Whether the page is present.
    pub fn is_present(&self) -> (r: bool)
        ensures
            r == self.entry_spec().present_spec(),
    {
        self.entry.is_present()
    }

    /// Commits the changes to the entry, and returns the virtual page.
    pub fn commit(self) -> (r: Page<VAddr, S>)
        ensures
            r == self.page_spec(),
    {
        let page = self.page;
        self.entry.commit(page);
        page
    }
}

/// The mappings that send the page at each of the first `n` positions of
/// `virt` to the page at the same position of `phys`, by base address.
pub open spec fn range_mappings<S: Size>(
    virt: PageRange<VAddr, S>,
    phys: PageRange<PAddr, S>,
    n: int,
) -> Map<usize, usize>
    decreases n,
{
    if n <= 0 {
        Map::empty()
    } else {
        range_mappings(virt, phys, n - 1).insert(virt.page_base(n - 1), phys.page_base(n - 1))
    }
}

/// The mappings of a range cover exactly the bases of its pages.
pub proof fn lemma_range_mappings_dom<S: Size>(
    virt: PageRange<VAddr, S>,
    phys: PageRange<PAddr, S>,
    n: int,
)
    ensures
        range_mappings(virt, phys, n).dom() == virt.page_bases(n),
    decreases n,
{
    if n > 0 {
        lemma_range_mappings_dom(virt, phys, n - 1);
    }
    assert(range_mappings(virt, phys, n).dom() =~= virt.page_bases(n));
}

/// A page table: maps virtual pages to physical pages.
pub trait PageMap<S: Size, A: Alloc<S>> {
    type Entry: PageFlags<S>;

    /// The base address of the physical page that the virtual page at base
    /// address `virt` is mapped to, if it is mapped.
    spec fn mapped_to(&self, virt: usize) -> Option<usize>;

    /// Maps the virtual page `virt`, which must not be mapped yet, to the
    /// physical page `phys`, taking any page-table frames it needs from
    /// `frame_alloc`, and returns a handle on the new entry, whose flags may
    /// be set before the mapping is committed. No other page's mapping
    /// changes.
    fn map_page(&mut self, virt: Page<VAddr, S>, phys: Page<PAddr, S>, frame_alloc: &mut A) -> (r:
        Handle<'_, S, Self::Entry>)
        requires
            old(self).mapped_to(virt.base_spec()) is None,
        ensures
            r.page_spec() == virt,
            final(self).mapped_to(virt.base_spec()) == Some(phys.base_spec()),
            forall|a: usize|
                a != virt.base_spec() ==> #[trigger] final(self).mapped_to(a) == old(self).mapped_to(
                    a,
                ),
    ;

    /// Returns a handle on the entry of the mapped virtual page `virt`; no
    /// page's mapping changes.
    fn flags_mut(&mut self, virt: Page<VAddr, S>) -> (r: Handle<'_, S, Self::Entry>)
        ensures
            r.page_spec() == virt,
            forall|a: usize| #[trigger] final(self).mapped_to(a) == old(self).mapped_to(a),
    ;

    /// Unmaps the virtual page `virt`, which must be mapped, returning the
    /// physical page it was mapped to. No page frame is deallocated, and no
    /// other page's mapping changes.
    fn unmap(&mut self, virt: Page<VAddr, S>) -> (r: Page<PAddr, S>)
        requires
            old(self).mapped_to(virt.base_spec()) is Some,
        ensures
            r.base_spec() == old(self).mapped_to(virt.base_spec())->0,
            final(self).mapped_to(virt.base_spec()) is None,
            forall|a: usize|
                a != virt.base_spec() ==> #[trigger] final(self).mapped_to(a) == old(self).mapped_to(
                    a,
                ),
    ;

    /// Maps the physical page `phys` to the virtual page at the same
    /// address, which must be a valid virtual address and not be mapped yet.
    fn identity_map(&mut self, phys: Page<PAddr, S>, frame_alloc: &mut A) -> (r: Handle<
        '_,
        S,
        Self::Entry,
    >)
        requires
            phys.wf(),
            vaddr_valid(phys.base_spec()),
            old(self).mapped_to(phys.base_spec()) is None,
        ensures
            r.page_spec().base_spec() == phys.base_spec(),
            r.page_spec().size_value() == phys.size_value(),
            r.page_spec().wf(),
            final(self).mapped_to(phys.base_spec()) == Some(phys.base_spec()),
            forall|a: usize|
                a != phys.base_spec() ==> #[trigger] final(self).mapped_to(a) == old(self).mapped_to(
                    a,
                ),
    {
        let base_paddr = phys.base_addr().as_usize();
        let virt = Page::containing(VAddr::from_usize(base_paddr), phys.size());
        self.map_page(virt, phys, frame_alloc)
    }

    /// Maps each page of `virt` to the page of `phys` at the same position,
    /// calling `set_flags` on each page's handle before its mapping is
    /// committed, and returns `virt`. The two ranges hold as many pages and
    /// as many bytes, every address in `virt` is a valid virtual address,
    /// and no page of `virt` is mapped yet. No other page's mapping changes.
    fn map_range<F: Fn(&mut Handle<'_, S, Self::Entry>)>(
        &mut self,
        virt: PageRange<VAddr, S>,
        phys: PageRange<PAddr, S>,
        set_flags: F,
        frame_alloc: &mut A,
    ) -> (r: PageRange<VAddr, S>)
        requires
            virt.wf(),
            phys.wf(),
            virt.size_spec() <= isize::MAX,
            phys.size_spec() <= isize::MAX,
            virt.page_count() == phys.page_count(),
            virt.size_spec() == phys.size_spec(),
            virt.addrs_valid(),
            forall|a: usize|
                virt.page_bases(virt.page_count()).contains(a) ==> #[trigger] old(self).mapped_to(
                    a,
                ) is None,
            forall|h| set_flags.requires((h,)),
        ensures
            r == virt,
            forall|a: usize|
                #[trigger] final(self).mapped_to(a) == if range_mappings(
                    virt,
                    phys,
                    virt.page_count(),
                ).contains_key(a) {
                    Some(range_mappings(virt, phys, virt.page_count())[a])
                } else {
                    old(self).mapped_to(a)
                },
    {
        let n = virt.len();
        let vs = virt.start();
        let ps = phys.start();
        let mut i: usize = 0;
        while i < n
            invariant
                virt.wf(),
                phys.wf(),
                virt.addrs_valid(),
                n == virt.page_count(),
                n == phys.page_count(),
                vs == virt.start_spec(),
                ps == phys.start_spec(),
                i <= n,
                forall|a: usize|
                    virt.page_bases(virt.page_count()).contains(a) ==> #[trigger] old(
                        self,
                    ).mapped_to(a) is None,
                forall|h| set_flags.requires((h,)),
                forall|a: usize|
                    #[trigger] self.mapped_to(a) == if range_mappings(
                        virt,
                        phys,
                        i as int,
                    ).contains_key(a) {
                        Some(range_mappings(virt, phys, i as int)[a])
                    } else {
                        old(self).mapped_to(a)
                    },
            decreases n - i,
        {
            proof {
                virt.lemma_page_in_range(i as int);
                phys.lemma_page_in_range(i as int);
                virt.lemma_page_base_in_bases(i as int, n as int);
                virt.lemma_page_bases_below(i as int);
                lemma_range_mappings_dom(virt, phys, i as int);
                assert(!range_mappings(virt, phys, i as int).contains_key(virt.page_base(i as int)));
            }
            let v = vs.add(i);
            let p = ps.add(i);
            let ghost vb = virt.page_base(i as int);
            let ghost pb = phys.page_base(i as int);
            assert(v.base_spec() == vb);
            assert(p.base_spec() == pb);
            assert(self.mapped_to(vb) is None);
            let mut flags = self.map_page(v, p, frame_alloc);
            set_flags(&mut flags);
            flags.commit();
            proof {
                let m1 = range_mappings(virt, phys, (i + 1) as int);
                assert(m1 == range_mappings(virt, phys, i as int).insert(vb, pb));
                assert forall|a: usize|
                    #[trigger] self.mapped_to(a) == if m1.contains_key(a) {
                        Some(m1[a])
                    } else {
                        old(self).mapped_to(a)
                    } by {
                    if a != vb {
                        assert(self.mapped_to(a) == if range_mappings(
                            virt,
                            phys,
                            i as int,
                        ).contains_key(a) {
                            Some(range_mappings(virt, phys, i as int)[a])
                        } else {
                            old(self).mapped_to(a)
                        });
                    }
                }
            }
            i = i + 1;
        }
        virt
    }

    /// Unmaps each page of `virt`, every address of which is a valid virtual
    /// address and every page of which is mapped. No page frame is
    /// deallocated, and no other page's mapping changes.
    fn unmap_range(&mut self, virt: PageRange<VAddr, S>)
        requires
            virt.wf(),
            virt.size_spec() <= isize::MAX,
            virt.addrs_valid(),
            forall|a: usize|
                virt.page_bases(virt.page_count()).contains(a) ==> #[trigger] old(self).mapped_to(
                    a,
                ) is Some,
        ensures
            forall|a: usize|
                #[trigger] final(self).mapped_to(a) == if virt.page_bases(
                    virt.page_count(),
                ).contains(a) {
                    None
                } else {
                    old(self).mapped_to(a)
                },
    {
        let n = virt.len();
        let vs = virt.start();
        let mut i: usize = 0;
        while i < n
            invariant
                virt.wf(),
                virt.addrs_valid(),
                n == virt.page_count(),
                vs == virt.start_spec(),
                i <= n,
                forall|a: usize|
                    virt.page_bases(virt.page_count()).contains(a) ==> #[trigger] old(
                        self,
                    ).mapped_to(a) is Some,
                forall|a: usize|
                    #[trigger] self.mapped_to(a) == if virt.page_bases(i as int).contains(a) {
                        None
                    } else {
                        old(self).mapped_to(a)
                    },
            decreases n - i,
        {
            proof {
                virt.lemma_page_in_range(i as int);
                virt.lemma_page_base_in_bases(i as int, n as int);
                virt.lemma_page_bases_below(i as int);
                assert(!virt.page_bases(i as int).contains(virt.page_base(i as int)));
            }
            let v = vs.add(i);
            let ghost vb = virt.page_base(i as int);
            assert(v.base_spec() == vb);
            assert(self.mapped_to(vb) is Some);
            self.unmap(v);
            proof {
                assert(virt.page_bases((i + 1) as int) == virt.page_bases(i as int).insert(vb));
                assert forall|a: usize|
                    #[trigger] self.mapped_to(a) == if virt.page_bases((i + 1) as int).contains(a) {
                        None
                    } else {
                        old(self).mapped_to(a)
                    } by {
                    if a != vb {
                        assert(self.mapped_to(a) == if virt.page_bases(i as int).contains(a) {
                            None
                        } else {
                            old(self).mapped_to(a)
                        });
                    }
                }
            }
            i = i + 1;
        }
    }

    /// Maps each page of `phys` to the virtual page at the same address,
    /// calling `set_flags` on each page's handle before its mapping is
    /// committed, and returns the range of virtual pages. The address after
    /// the range must be a valid virtual address, and no virtual page at the
    /// address of a page of `phys` may be mapped yet. No other page's
    /// mapping changes.
    fn identity_map_range<F: Fn(&mut Handle<'_, S, Self::Entry>)>(
        &mut self,
        phys: PageRange<PAddr, S>,
        set_flags: F,
        frame_alloc: &mut A,
    ) -> (r: PageRange<VAddr, S>)
        requires
            phys.wf(),
            phys.size_spec() <= isize::MAX,
            vaddr_valid((phys.end_spec().base_spec() + phys.end_spec().size_spec()) as usize),
            forall|a: usize|
                phys.page_bases(phys.page_count()).contains(a) ==> #[trigger] old(self).mapped_to(
                    a,
                ) is None,
            forall|h| set_flags.requires((h,)),
        ensures
            r.start_spec().base_spec() == phys.start_spec().base_spec(),
            r.start_spec().size_value() == phys.start_spec().size_value(),
            r.end_spec().base_spec() == phys.end_spec().base_spec(),
            r.end_spec().size_value() == phys.start_spec().size_value(),
            forall|a: usize|
                #[trigger] final(self).mapped_to(a) == if phys.page_bases(
                    phys.page_count(),
                ).contains(a) {
                    Some(a)
                } else {
                    old(self).mapped_to(a)
                },
    {
        let base_paddr = phys.base_addr().as_usize();
        let page_size = phys.start().size();
        let end_paddr = phys.end_addr().as_usize();
        proof {
            let s = phys.end_spec().size_spec() as int;
            let e = phys.end_spec().base_spec() as int;
            vstd::arithmetic::div_mod::lemma_mod_adds(e, s, s);
            vstd::arithmetic::div_mod::lemma_mod_self_0(s);
        }
        let virt_base = Page::containing(VAddr::from_usize(base_paddr), page_size);
        let virt_end = Page::containing(VAddr::from_usize(end_paddr), page_size);
        let virt = virt_base.range_to(virt_end);
        proof {
            assert(virt.addrs_valid());
            lemma_identity_mappings(virt, phys, phys.page_count());
            lemma_range_mappings_dom(virt, phys, phys.page_count());
        }
        let r = self.map_range(virt, phys, set_flags, frame_alloc);
        proof {
            let m = range_mappings(virt, phys, phys.page_count());
            assert forall|a: usize| #[trigger] self.mapped_to(a) == if phys.page_bases(
                phys.page_count(),
            ).contains(a) {
                Some(a)
            } else {
                old(self).mapped_to(a)
            } by {
                assert(m.dom().contains(a) == phys.page_bases(phys.page_count()).contains(a));
            }
        }
        r
    }
}

/// Mapping a range onto a range with the same first page maps each page
/// base to itself.
pub proof fn lemma_identity_mappings<S: Size>(
    virt: PageRange<VAddr, S>,
    phys: PageRange<PAddr, S>,
    n: int,
)
    requires
        virt.start_spec().base_spec() == phys.start_spec().base_spec(),
        virt.start_spec().size_spec() == phys.start_spec().size_spec(),
    ensures
        virt.page_bases(n) == phys.page_bases(n),
        forall|a: usize| #[trigger] range_mappings(virt, phys, n).contains_key(a) ==> range_mappings(virt, phys, n)[a] == a,
    decreases n,
{
    if n > 0 {
        lemma_identity_mappings(virt, phys, n - 1);
        let vb = virt.page_base(n - 1);
        assert(vb == phys.page_base(n - 1));
        assert forall|a: usize| #[trigger] range_mappings(virt, phys, n).contains_key(a) implies range_mappings(
            virt,
            phys,
            n,
        )[a] == a by {
            if a != vb {
                assert(range_mappings(virt, phys, n - 1).contains_key(a));
            }
        }
    }
    lemma_range_mappings_dom(virt, phys, n);
    assert(virt.page_bases(n) =~= phys.page_bases(n));
}

/// An allocator for physical pages of a given size.
pub trait Alloc<S: Size> {
    /// Allocate a range of `len` pages of `size`: on success, a range of
    /// well-formed pages of that size, at least `len` of them.
    fn alloc_range(&self, size: S, len: usize) -> (r: Result<PageRange<PAddr, S>, AllocErr>)
        ensures
            r matches Ok(range) ==> {
                &&& range.wf()
                &&& range.start_spec().size_value() == size
                &&& range.page_count() >= len
            },
    ;

    /// Deallocate a range of pages.
    fn dealloc_range(&self, range: PageRange<PAddr, S>) -> Result<(), AllocErr>;

    /// Allocate a single page: the first page of a range of one page.
    ///
    /// Whether it succeeds is up to the implementation's `alloc_range`; a
    /// page it returns is a well-formed page of `size`.
    fn alloc_page(&self, size: S) -> (r: Result<Page<PAddr, S>, AllocErr>)
        ensures
            r matches Ok(p) ==> p.wf() && p.size_value() == size,
    {
        match self.alloc_range(size, 1) {
            Ok(range) => Ok(range.start()),
            Err(e) => Err(e),
        }
    }

    /// Deallocate a single page.
    fn dealloc(&self, page: Page<PAddr, S>) -> Result<(), AllocErr> {
        self.dealloc_range(page.range_inclusive(page))
    }
}

/// A memory page: `size` bytes starting at `base`, with `base` a multiple of
/// `size`.
#[derive(Clone, Copy, Debug)]
pub struct Page<A, S> {
    base: A,
    size: S,
}

/// A range of memory pages of the same size, from `start` to `end`
/// inclusive.
#[derive(Clone, Copy, Debug)]
pub struct PageRange<A, S> {
    start: Page<A, S>,
    end: Page<A, S>,
}

/// An allocator that has no pages to hand out.
#[derive(Debug, Default)]
pub struct EmptyAlloc {
    _p: (),
}

/// The error returned when an address is not aligned on a page size.
#[derive(Debug)]
pub struct NotAligned<S> {
    size: S,
}

/// The error returned when an allocation fails.
#[derive(Debug)]
pub struct AllocErr {
    _p: (),
}

/// Errors from translating a page or an address.
#[derive(Clone, Debug)]
pub enum TranslateError<S> {
    NotMapped,
    WrongSize(S),
    Other(&'static str),
}

impl<S> NotAligned<S> {
    /// The page size that the address was not aligned on.
    pub closed spec fn size_spec(&self) -> S {
        self.size
    }
}

impl AllocErr {
    /// The out-of-memory error.
    pub fn oom() -> Self {
        Self { _p: () }
    }
}

impl<S: Size> Alloc<S> for EmptyAlloc {
    /// Fails: there are no pages to hand out.
    fn alloc_range(&self, size: S, len: usize) -> (r: Result<PageRange<PAddr, S>, AllocErr>)
        ensures
            r is Err,
    {
        Err(AllocErr { _p: () })
    }

    /// Fails: no page came from this allocator.
    fn dealloc_range(&self, range: PageRange<PAddr, S>) -> (r: Result<(), AllocErr>)
        ensures
            r is Err,
    {
        Err(AllocErr { _p: () })
    }
}

// === impl Page ===

impl<A: Address, S: Size> Page<A, S> {
    /// The base address.
    pub closed spec fn base_spec(&self) -> usize {
        self.base.addr()
    }

    /// The page size in bytes.
    pub closed spec fn size_spec(&self) -> usize {
        self.size.spec_size()
    }

    /// The page size value.
    pub closed spec fn size_value(&self) -> S {
        self.size
    }

    /// The page size is a power of two and the base is a multiple of it.
    pub open spec fn wf(&self) -> bool {
        &&& is_power_of_two(self.size_spec())
        &&& is_aligned_spec(self.base_spec() as int, self.size_spec() as int)
    }

    /// The address one past the page is a valid address.
    pub open spec fn end_valid(&self) -> bool {
        &&& self.base_spec() + self.size_spec() <= usize::MAX
        &&& A::valid((self.base_spec() + self.size_spec()) as usize)
    }

    /// Returns the page starting at `addr`, or an error if `addr` is not
    /// aligned on `size`.
    pub fn starting_at(addr: A, size: S) -> (r: Result<Self, NotAligned<S>>)
        requires
            is_power_of_two(size.spec_size()),
            is_aligned_spec(addr.addr() as int, size.spec_size() as int) ==> A::valid(
                addr.addr(),
            ),
        ensures
            r is Ok <==> is_aligned_spec(addr.addr() as int, size.spec_size() as int),
            r matches Ok(p) ==> {
                &&& p.base_spec() == addr.addr()
                &&& p.size_spec() == size.spec_size()
                &&& p.size_value() == size
                &&& p.wf()
            },
            r matches Err(e) ==> e.size_spec() == size,
    {
        if !addr.is_aligned(size.as_usize()) {
            return Err(NotAligned { size });
        }
        Ok(Self::containing(addr, size))
    }

    /// Returns the page that contains `addr`.
    pub fn containing(addr: A, size: S) -> (r: Self)
        requires
            is_power_of_two(size.spec_size()),
            A::valid(align_down_spec(addr.addr() as int, size.spec_size() as int) as usize),
        ensures
            r.base_spec() as int == align_down_spec(addr.addr() as int, size.spec_size() as int),
            r.size_spec() == size.spec_size(),
            r.size_value() == size,
            r.wf(),
    {
        let base = addr.align_down(size.as_usize());
        proof {
            let s = size.spec_size() as int;
            let u = addr.addr() as int;
            vstd::arithmetic::div_mod::lemma_fundamental_div_mod(u, s);
            vstd::arithmetic::div_mod::lemma_mod_multiples_basic(u / s, s);
            assert((u - u % s) % s == 0) by {
                assert(u - u % s == (u / s) * s) by (nonlinear_arith)
                    requires
                        u == s * (u / s) + u % s,
                ;
            }
        }
        Self { base, size }
    }

    pub fn base_addr(&self) -> (r: A)
        ensures
            r.addr() == self.base_spec(),
    {
        self.base
    }

    /// Returns the end address of the page, exclusive: the base address of
    /// the next page.
    pub fn end_addr(&self) -> (r: A)
        requires
            self.end_valid(),
        ensures
            r.addr() == self.base_spec() + self.size_spec(),
    {
        self.base.add(self.size.as_usize())
    }

    pub fn size(&self) -> (r: S)
        ensures
            r == self.size_value(),
            r.spec_size() == self.size_spec(),
    {
        self.size
    }

    /// Returns `true` if `addr` lies within this page.
    pub fn contains(&self, addr: A) -> (r: bool)
        requires
            self.end_valid(),
        ensures
            r == (self.base_spec() <= addr.addr() < self.base_spec() + self.size_spec()),
    {
        let a = addr.as_usize();
        a >= self.base.as_usize() && a < self.end_addr().as_usize()
    }

    /// The range of pages from `self` to `end`, inclusive.
    pub fn range_inclusive(self, end: Page<A, S>) -> (r: PageRange<A, S>)
        ensures
            r.start_spec() == self,
            r.end_spec() == end,
    {
        PageRange { start: self, end }
    }

    /// The range of pages from `self` up to, but not including, `end`.
    pub fn range_to(self, end: Page<A, S>) -> (r: PageRange<A, S>)
        requires
            end.base_spec() >= end.size_spec(),
            A::valid((end.base_spec() - end.size_spec()) as usize),
        ensures
            r.start_spec() == self,
            r.end_spec().base_spec() == end.base_spec() - end.size_spec(),
            r.end_spec().size_spec() == end.size_spec(),
            r.end_spec().size_value() == end.size_value(),
            end.wf() ==> r.end_spec().wf(),
    {
        PageRange { start: self, end: end.sub(1) }
    }

    /// The page `rhs` pages after this one.
    pub fn add(self, rhs: usize) -> (r: Self)
        requires
            self.base_spec() + self.size_spec() * rhs <= usize::MAX,
            A::valid((self.base_spec() + self.size_spec() * rhs) as usize),
        ensures
            r.base_spec() == self.base_spec() + self.size_spec() * rhs,
            r.size_value() == self.size_value(),
            r.size_spec() == self.size_spec(),
            self.wf() ==> r.wf(),
    {
        proof {
            if self.wf() {
                vstd::arithmetic::div_mod::lemma_mod_multiples_vanish(
                    rhs as int,
                    self.base_spec() as int,
                    self.size_spec() as int,
                );
            }
        }
        let size = self.size.as_usize();
        proof {
            assert(0 <= size * rhs <= usize::MAX) by (nonlinear_arith)
                requires
                    self.base_spec() + size * rhs <= usize::MAX,
            ;
        }
        Page { base: self.base.add(size * rhs), size: self.size }
    }

    /// The page `rhs` pages before this one.
    pub fn sub(self, rhs: usize) -> (r: Self)
        requires
            self.base_spec() >= self.size_spec() * rhs,
            A::valid((self.base_spec() - self.size_spec() * rhs) as usize),
        ensures
            r.base_spec() == self.base_spec() - self.size_spec() * rhs,
            r.size_value() == self.size_value(),
            r.size_spec() == self.size_spec(),
            self.wf() ==> r.wf(),
    {
        proof {
            if self.wf() {
                vstd::arithmetic::div_mod::lemma_mod_multiples_vanish(
                    -rhs,
                    self.base_spec() as int,
                    self.size_spec() as int,
                );
                assert(self.size_spec() * (-rhs) == -(self.size_spec() * rhs)) by (nonlinear_arith);
            }
        }
        let size = self.size.as_usize();
        proof {
            assert(0 <= size * rhs <= usize::MAX) by (nonlinear_arith)
                requires
                    self.base_spec() >= size * rhs,
            ;
        }
        Page { base: self.base.sub(size * rhs), size: self.size }
    }
}

impl<A: Address, S: StaticSize> Page<A, S> {
    /// Returns the page of the static size starting at `addr`.
    pub fn starting_at_fixed(addr: A) -> (r: Result<Self, NotAligned<S>>)
        requires
            is_power_of_two(S::spec_instance().spec_size()),
            is_aligned_spec(addr.addr() as int, S::spec_instance().spec_size() as int)
                ==> A::valid(addr.addr()),
        ensures
            r is Ok <==> is_aligned_spec(addr.addr() as int, S::spec_instance().spec_size() as int),
            r matches Ok(p) ==> {
                &&& p.base_spec() == addr.addr()
                &&& p.size_value() == S::spec_instance()
                &&& p.wf()
            },
    {
        Self::starting_at(addr, S::instance())
    }

    /// Returns the page of the static size that contains `addr`.
    pub fn containing_fixed(addr: A) -> (r: Self)
        requires
            is_power_of_two(S::spec_instance().spec_size()),
            A::valid(
                align_down_spec(addr.addr() as int, S::spec_instance().spec_size() as int) as usize,
            ),
        ensures
            r.base_spec() as int == align_down_spec(
                addr.addr() as int,
                S::spec_instance().spec_size() as int,
            ),
            r.size_value() == S::spec_instance(),
            r.wf(),
    {
        Self::containing(addr, S::instance())
    }
}

// === impl PageRange ===

impl<A: Address, S: Size> PageRange<A, S> {
    pub closed spec fn start_spec(&self) -> Page<A, S> {
        self.start
    }

    pub closed spec fn end_spec(&self) -> Page<A, S> {
        self.end
    }

    /// Both ends are well-formed pages of the same size, in order, and the
    /// address after the last page is valid.
    pub open spec fn wf(&self) -> bool {
        &&& self.start_spec().wf()
        &&& self.end_spec().wf()
        &&& self.start_spec().size_spec() == self.end_spec().size_spec()
        &&& self.start_spec().base_spec() <= self.end_spec().base_spec()
        &&& self.end_spec().end_valid()
    }

    /// The number of bytes from the first page's base to the end of the last.
    pub open spec fn size_spec(&self) -> int {
        self.end_spec().base_spec() + self.end_spec().size_spec() - self.start_spec().base_spec()
    }

    /// The number of pages in the range.
    pub open spec fn page_count(&self) -> int {
        (self.end_spec().base_spec() - self.start_spec().base_spec()) / self.start_spec().size_spec()
            as int + 1
    }

    /// Every address from the first page's base to the end of the last is
    /// a valid address.
    pub open spec fn addrs_valid(&self) -> bool {
        forall|a: usize|
            self.start_spec().base_spec() <= a <= self.end_spec().base_spec()
                + self.end_spec().size_spec() ==> #[trigger] A::valid(a)
    }

    /// The base address of the page at position `i`.
    pub open spec fn page_base(&self, i: int) -> usize {
        (self.start_spec().base_spec() + self.start_spec().size_spec() * i) as usize
    }

    /// The base addresses of the first `n` pages.
    pub open spec fn page_bases(&self, n: int) -> Set<usize>
        decreases n,
    {
        if n <= 0 {
            Set::empty()
        } else {
            self.page_bases(n - 1).insert(self.page_base(n - 1))
        }
    }

    /// The base of each of the first `n` pages is among their bases.
    pub proof fn lemma_page_base_in_bases(&self, i: int, n: int)
        requires
            0 <= i < n,
        ensures
            self.page_bases(n).contains(self.page_base(i)),
        decreases n,
    {
        if i < n - 1 {
            self.lemma_page_base_in_bases(i, n - 1);
        }
    }

    /// The bases of the pages before position `n` are below that of page
    /// `n`.
    pub proof fn lemma_page_bases_below(&self, n: int)
        requires
            self.wf(),
            0 <= n < self.page_count(),
        ensures
            forall|a: usize| #[trigger] self.page_bases(n).contains(a) ==> a < self.page_base(n),
        decreases n,
    {
        self.lemma_page_in_range(n);
        if n > 0 {
            self.lemma_page_bases_below(n - 1);
            let s = self.start_spec().size_spec() as int;
            let b = self.start_spec().base_spec() as int;
            assert(s > 0);
            assert(s * (n - 1) + s == s * n && 0 <= s * (n - 1)) by (nonlinear_arith)
                requires
                    s > 0,
                    n > 0,
            ;
            assert(self.page_base(n - 1) as int == b + s * (n - 1));
            assert(self.page_base(n) as int == b + s * n);
            assert forall|a: usize| #[trigger] self.page_bases(n).contains(a) implies a < self.page_base(
                n,
            ) by {
                if a != self.page_base(n - 1) {
                    assert(self.page_bases(n - 1).contains(a));
                }
            }
        }
    }

    /// The page `i` pages after the first page of a well-formed range, for
    /// `i` below the number of pages, lies within the range.
    pub proof fn lemma_page_in_range(&self, i: int)
        requires
            self.wf(),
            0 <= i < self.page_count(),
        ensures
            self.start_spec().base_spec() + self.start_spec().size_spec() * i <= self.end_spec().base_spec(),
    {
        let s = self.start_spec().size_spec() as int;
        let d = self.end_spec().base_spec() - self.start_spec().base_spec();
        vstd::arithmetic::div_mod::lemma_fundamental_div_mod(d, s);
        assert(s * i <= s * (d / s)) by (nonlinear_arith)
            requires
                0 <= i <= d / s,
                0 < s,
        ;
    }

    pub fn start(&self) -> (r: Page<A, S>)
        ensures
            r == self.start_spec(),
    {
        self.start
    }

    pub fn end(&self) -> (r: Page<A, S>)
        ensures
            r == self.end_spec(),
    {
        self.end
    }

    /// Returns the base address of the first page in the range.
    pub fn base_addr(&self) -> (r: A)
        ensures
            r.addr() == self.start_spec().base_spec(),
    {
        self.start.base_addr()
    }

    /// Returns the end address of the last page in the range: the base
    /// address of the page immediately following this range.
    pub fn end_addr(&self) -> (r: A)
        requires
            self.end_spec().end_valid(),
        ensures
            r.addr() == self.end_spec().base_spec() + self.end_spec().size_spec(),
    {
        self.end.end_addr()
    }

    /// Returns the size of the pages in the range.
    pub fn page_size(&self) -> (r: S)
        ensures
            r == self.start_spec().size_value(),
            r.spec_size() == self.start_spec().size_spec(),
    {
        self.start.size()
    }

    /// Returns the size in bytes of the page range.
    pub fn size(&self) -> (r: usize)
        requires
            self.wf(),
            self.size_spec() <= isize::MAX,
        ensures
            r == self.size_spec(),
    {
        let diff = self.start.base_addr().difference(self.end.end_addr());
        diff as usize
    }

    /// Returns the number of pages in the range.
    pub fn len(&self) -> (r: usize)
        requires
            self.wf(),
            self.size_spec() <= isize::MAX,
        ensures
            r == (self.end_spec().base_spec() - self.start_spec().base_spec())
                / self.start_spec().size_spec() as int + 1,
    {
        let size = self.size();
        let page = self.page_size().as_usize();
        proof {
            let s = page as int;
            let b0 = self.start_spec().base_spec() as int;
            let b1 = self.end_spec().base_spec() as int;
            vstd::arithmetic::div_mod::lemma_fundamental_div_mod(b0, s);
            vstd::arithmetic::div_mod::lemma_fundamental_div_mod(b1, s);
            let k = b1 / s - b0 / s;
            assert(b1 - b0 == k * s) by (nonlinear_arith)
                requires
                    b0 == s * (b0 / s),
                    b1 == s * (b1 / s),
                    k == b1 / s - b0 / s,
            ;
            vstd::arithmetic::div_mod::lemma_div_multiples_vanish(k, s);
            vstd::arithmetic::div_mod::lemma_div_multiples_vanish(k + 1, s);
            assert((k + 1) * s == k * s + s) by (nonlinear_arith);
        }
        size / page
    }

    /// Yields the first remaining page and advances the start of the range;
    /// returns `None` once the start has passed the end.
    pub fn next(&mut self) -> (r: Option<Page<A, S>>)
        requires
            old(self).start_spec().base_spec() <= old(self).end_spec().base_spec() ==> old(
                self,
            ).start_spec().end_valid(),
        ensures
            old(self).start_spec().base_spec() > old(self).end_spec().base_spec() ==> {
                &&& r is None
                &&& *final(self) == *old(self)
            },
            old(self).start_spec().base_spec() <= old(self).end_spec().base_spec() ==> {
                &&& r == Some(old(self).start_spec())
                &&& final(self).start_spec().base_spec() == old(self).start_spec().base_spec()
                    + old(self).start_spec().size_spec()
                &&& final(self).start_spec().size_value() == old(
                    self,
                ).start_spec().size_value()
                &&& final(self).end_spec() == old(self).end_spec()
            },
    {
        if self.start.base.as_usize() > self.end.base.as_usize() {
            return None;
        }
        let next = self.start;
        proof {
            assert(self.start_spec().size_spec() * 1 == self.start_spec().size_spec());
        }
        self.start = self.start.add(1);
        Some(next)
    }
}

/// A well-formed page's base address is a multiple of its size.
pub proof fn law_page_base_aligned<A: Address, S: Size>(p: Page<A, S>)
    requires
        p.wf(),
    ensures
        is_aligned_spec(p.base_spec() as int, p.size_spec() as int),
{
}

/// The page of power-of-two size `size` containing address `x` (based at
/// `align_down(x, size)`) contains `x`, and it contains an address `a`
/// exactly when it is the page containing `a` as well.
pub proof fn law_containing_contains(x: usize, a: usize, size: usize)
    requires
        is_power_of_two(size),
    ensures
        ({
            let base = align_down_spec(x as int, size as int);
            &&& base <= x < base + size
            &&& (base <= a < base + size) <==> align_down_spec(a as int, size as int) == base
        }),
{
    let s = size as int;
    assert(s > 0);
    let base = align_down_spec(x as int, s);
    vstd::arithmetic::div_mod::lemma_fundamental_div_mod(x as int, s);
    vstd::arithmetic::div_mod::lemma_fundamental_div_mod(a as int, s);
    let qx = (x as int) / s;
    let qa = (a as int) / s;
    assert(base == s * qx);
    assert(align_down_spec(a as int, s) == s * qa);
    if base <= a < base + s {
        assert(qa == qx) by (nonlinear_arith)
            requires
                s * qx <= a < s * qx + s,
                a == s * qa + (a as int) % s,
                0 <= (a as int) % s < s,
                s > 0,
        ;
    }
    if s * qa == base {
        assert(s * qa <= a < s * qa + s);
    }
}

/// A range of pages from the page at `start` to the page at `end`, both
/// based at multiples of the power-of-two page size `size`, holds at least
/// one page, and its page count is its size in bytes divided by the page
/// size.
pub proof fn law_range_len(start: int, end: int, size: int)
    requires
        size > 0,
        start <= end,
        start % size == 0,
        end % size == 0,
    ensures
        (end - start) / size + 1 >= 1,
        (end + size - start) / size == (end - start) / size + 1,
        (end + size - start) % size == 0,
{
    let d = end - start;
    vstd::arithmetic::div_mod::lemma_fundamental_div_mod(start, size);
    vstd::arithmetic::div_mod::lemma_fundamental_div_mod(end, size);
    let k = end / size - start / size;
    assert(d == k * size) by (nonlinear_arith)
        requires
            start == size * (start / size),
            end == size * (end / size),
            k == end / size - start / size,
            d == end - start,
    ;
    assert(k >= 0) by (nonlinear_arith)
        requires
            d == k * size,
            d >= 0,
            size > 0,
    ;
    vstd::arithmetic::div_mod::lemma_div_multiples_vanish(k, size);
    vstd::arithmetic::div_mod::lemma_div_multiples_vanish(k + 1, size);
    vstd::arithmetic::div_mod::lemma_mod_multiples_basic(k + 1, size);
    assert((k + 1) * size == k * size + size) by (nonlinear_arith);
}

/// Iterating a well-formed range of pages yields exactly its pages: the
/// page at each position below its count lies within it, the page at the
/// last position is its end page, and the position after that lies beyond
/// its end, where iteration stops.
pub proof fn law_range_iteration<A: Address, S: Size>(r: PageRange<A, S>)
    requires
        r.wf(),
    ensures
        r.page_count() >= 1,
        r.start_spec().base_spec() + r.start_spec().size_spec() * (r.page_count() - 1)
            == r.end_spec().base_spec(),
        r.start_spec().base_spec() + r.start_spec().size_spec() * r.page_count()
            > r.end_spec().base_spec(),
{
    let s = r.start_spec().size_spec() as int;
    let b0 = r.start_spec().base_spec() as int;
    let b1 = r.end_spec().base_spec() as int;
    assert(s > 0);
    law_range_len(b0, b1, s);
    let d = b1 - b0;
    vstd::arithmetic::div_mod::lemma_fundamental_div_mod(d, s);
    assert(d % s == 0) by {
        vstd::arithmetic::div_mod::lemma_fundamental_div_mod(b0, s);
        vstd::arithmetic::div_mod::lemma_fundamental_div_mod(b1, s);
        let k = b1 / s - b0 / s;
        assert(d == k * s) by (nonlinear_arith)
            requires
                b0 == s * (b0 / s),
                b1 == s * (b1 / s),
                k == b1 / s - b0 / s,
                d == b1 - b0,
        ;
        vstd::arithmetic::div_mod::lemma_mod_multiples_basic(k, s);
    }
    let n = d / s;
    assert(s * n == d);
    assert(s * (n + 1 - 1) == s * n);
    assert(s * (n + 1) == s * n + s) by (nonlinear_arith);
}

} // verus!
