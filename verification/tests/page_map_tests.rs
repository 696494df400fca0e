use mycelium::addr::{Address, PAddr, VAddr};
use mycelium::mem::page::{Alloc, EmptyAlloc, Handle, Page, PageFlags, PageMap, PageRange, Size4Kb};

/// The flags of one entry of the table below.
#[derive(Clone, Copy, Debug, Default, PartialEq)]
struct Entry {
    writable: bool,
    executable: bool,
    present: bool,
    commits: usize,
}

impl PageFlags<Size4Kb> for Entry {
    // The flags as the library's contracts speak of them.
    fn writable_spec(&self) -> bool {
        self.writable
    }

    fn executable_spec(&self) -> bool {
        self.executable
    }

    fn present_spec(&self) -> bool {
        self.present
    }

    fn set_writable(&mut self, writable: bool) {
        self.writable = writable;
    }

    fn set_executable(&mut self, executable: bool) {
        self.executable = executable;
    }

    fn set_present(&mut self, present: bool) {
        self.present = present;
    }

    fn is_writable(&self) -> bool {
        self.writable
    }

    fn is_executable(&self) -> bool {
        self.executable
    }

    fn is_present(&self) -> bool {
        self.present
    }

    fn commit(&mut self, _page: Page<VAddr, Size4Kb>) {
        self.commits += 1;
    }
}

/// A page table kept as a list of (virtual base, physical base, entry).
#[derive(Default)]
struct Table {
    entries: Vec<(usize, usize, Entry)>,
}

impl Table {
    fn find(&self, virt: usize) -> Option<&(usize, usize, Entry)> {
        self.entries.iter().find(|e| e.0 == virt)
    }
}

impl PageMap<Size4Kb, EmptyAlloc> for Table {
    type Entry = Entry;

    // The mapping as the library's contracts speak of it.
    fn mapped_to(&self, virt: usize) -> Option<usize> {
        self.find(virt).map(|e| e.1)
    }

    fn map_page(
        &mut self,
        virt: Page<VAddr, Size4Kb>,
        phys: Page<PAddr, Size4Kb>,
        _frame_alloc: &mut EmptyAlloc,
    ) -> Handle<'_, Size4Kb, Entry> {
        let v = virt.base_addr().as_usize();
        assert!(self.find(v).is_none(), "page already mapped");
        self.entries.push((v, phys.base_addr().as_usize(), Entry::default()));
        let entry = &mut self.entries.last_mut().unwrap().2;
        Handle::new(virt, entry)
    }

    fn flags_mut(&mut self, virt: Page<VAddr, Size4Kb>) -> Handle<'_, Size4Kb, Entry> {
        let v = virt.base_addr().as_usize();
        let entry = &mut self.entries.iter_mut().find(|e| e.0 == v).expect("mapped").2;
        Handle::new(virt, entry)
    }

    fn unmap(&mut self, virt: Page<VAddr, Size4Kb>) -> Page<PAddr, Size4Kb> {
        let v = virt.base_addr().as_usize();
        let i = self.entries.iter().position(|e| e.0 == v).expect("mapped");
        let (_, p, _) = self.entries.remove(i);
        Page::containing(PAddr::from_usize(p), Size4Kb)
    }
}

fn vpage(addr: usize) -> Page<VAddr, Size4Kb> {
    Page::containing(VAddr::from_usize(addr), Size4Kb)
}

fn ppage(addr: usize) -> Page<PAddr, Size4Kb> {
    Page::containing(PAddr::from_usize(addr), Size4Kb)
}

#[test]
fn handle_sets_flags_and_commits_its_page() {
    let mut entry = Entry::default();
    let mut handle = Handle::new(vpage(0x5000), &mut entry);
    assert_eq!(handle.virt_page().base_addr().as_usize(), 0x5000);
    handle.set_writable(true).set_present(true);
    assert!(handle.is_writable());
    assert!(handle.is_present());
    assert!(!handle.is_executable());
    handle.set_executable(true).set_writable(false);
    assert!(handle.is_executable());
    assert!(!handle.is_writable());
    let page = handle.commit();
    assert_eq!(page.base_addr().as_usize(), 0x5000);
    assert_eq!(entry.commits, 1);
    assert!(entry.executable && entry.present && !entry.writable);
}

#[test]
fn identity_map_uses_the_same_address() {
    let mut table = Table::default();
    let mut frames = EmptyAlloc::default();
    let handle = table.identity_map(ppage(0x7000), &mut frames);
    assert_eq!(handle.virt_page().base_addr().as_usize(), 0x7000);
    handle.commit();
    assert_eq!(table.entries.len(), 1);
    assert_eq!(table.entries[0].0, 0x7000);
    assert_eq!(table.entries[0].1, 0x7000);
    assert_eq!(table.entries[0].2.commits, 1);
}

#[test]
fn map_range_maps_page_by_page() {
    let mut table = Table::default();
    let mut frames = EmptyAlloc::default();
    let virt: PageRange<VAddr, Size4Kb> = vpage(0x10_0000).range_inclusive(vpage(0x10_2000));
    let phys: PageRange<PAddr, Size4Kb> = ppage(0x5000).range_inclusive(ppage(0x7000));
    let mapped = table.map_range(
        virt,
        phys,
        |h: &mut Handle<'_, Size4Kb, Entry>| {
            h.set_writable(true);
        },
        &mut frames,
    );
    assert_eq!(mapped.start().base_addr().as_usize(), 0x10_0000);
    assert_eq!(mapped.end().base_addr().as_usize(), 0x10_2000);
    let pairs: Vec<(usize, usize)> = table.entries.iter().map(|e| (e.0, e.1)).collect();
    assert_eq!(pairs, vec![(0x10_0000, 0x5000), (0x10_1000, 0x6000), (0x10_2000, 0x7000)]);
    assert!(table.entries.iter().all(|e| e.2.writable && e.2.commits == 1));
}

#[test]
fn identity_map_range_returns_the_virtual_pages() {
    let mut table = Table::default();
    let mut frames = EmptyAlloc::default();
    let phys: PageRange<PAddr, Size4Kb> = ppage(0x1000).range_inclusive(ppage(0x3000));
    let virt = table.identity_map_range(
        phys,
        |h: &mut Handle<'_, Size4Kb, Entry>| {
            h.set_present(true);
        },
        &mut frames,
    );
    assert_eq!(virt.start().base_addr().as_usize(), 0x1000);
    assert_eq!(virt.end().base_addr().as_usize(), 0x3000);
    assert_eq!(virt.len(), 3);
    for addr in [0x1000, 0x2000, 0x3000] {
        let (v, p, e) = *table.find(addr).expect("mapped");
        assert_eq!(v, p);
        assert!(e.present);
    }
}

#[test]
fn unmap_range_removes_every_page() {
    let mut table = Table::default();
    let mut frames = EmptyAlloc::default();
    let phys: PageRange<PAddr, Size4Kb> = ppage(0x1000).range_inclusive(ppage(0x4000));
    let virt = table.identity_map_range(phys, |_h: &mut Handle<'_, Size4Kb, Entry>| {}, &mut frames);
    assert_eq!(table.entries.len(), 4);
    table.flags_mut(vpage(0x2000)).set_executable(true);
    assert!(table.find(0x2000).unwrap().2.executable);
    assert_eq!(table.mapped_to(0x3000), Some(0x3000));
    table.unmap_range(virt);
    assert!(table.entries.is_empty());
    assert_eq!(table.mapped_to(0x3000), None);
}

#[test]
fn alloc_page_from_empty_allocator_fails() {
    let frames = EmptyAlloc::default();
    assert!(frames.alloc_page(Size4Kb).is_err());
    assert!(frames.alloc_range(Size4Kb, 3).is_err());
    assert!(frames.dealloc(ppage(0x1000)).is_err());
}
