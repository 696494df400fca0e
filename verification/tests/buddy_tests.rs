use mycelium::addr::{Address, PAddr, VAddr};
use mycelium::buddy::{Alloc, FREE_MAGIC, NUM_ORDERS};
use mycelium::buddy::page_alloc::BuddyAlloc;
use mycelium::mem::page::{Size2Mb, Size4Kb};
use mycelium::mem::{Region, RegionKind};

const VM_OFFSET: usize = 0xffff_8000_0000_0000;
const REGION_BASE: usize = 0x10_0000;
const REGION_SIZE: usize = 0x10_0000;

fn heap() -> Alloc {
    let mut alloc = Alloc::new_default(4096);
    alloc.set_vm_offset(VAddr::from_usize(VM_OFFSET));
    let region = Region::new(PAddr::from_usize(REGION_BASE), REGION_SIZE, RegionKind::FREE);
    assert_eq!(alloc.add_region(region), Ok(()));
    alloc
}

#[test]
fn new_default_rounds_min_size_up() {
    let alloc = Alloc::new_default(4096);
    assert_eq!(alloc.min_size(), 4096);
    assert_eq!(alloc.free_size(), 0);
    // a minimum size that is not a power of two is rounded up
    let alloc = Alloc::new_default(5000);
    assert_eq!(alloc.min_size(), 8192);
    // and one too small to hold a free block header is raised
    let alloc = Alloc::new_default(1);
    assert!(alloc.min_size() >= core::mem::size_of::<usize>());
    assert!(alloc.min_size().is_power_of_two());
    assert_eq!(NUM_ORDERS, 32);
}

#[test]
fn add_region_counts_free_memory() {
    let alloc = heap();
    assert_eq!(alloc.free_size(), REGION_SIZE);
}

#[test]
fn add_region_rejects_used_memory() {
    let mut alloc = Alloc::new_default(4096);
    alloc.set_vm_offset(VAddr::from_usize(VM_OFFSET));
    let region = Region::new(PAddr::from_usize(REGION_BASE), REGION_SIZE, RegionKind::KERNEL);
    assert_eq!(alloc.add_region(region), Err(()));
    assert_eq!(alloc.free_size(), 0);
}

#[test]
fn alloc_range_gives_aligned_pages_in_the_region() {
    let mut alloc = heap();
    let a = alloc.alloc_range(Size4Kb, 1).expect("a page should be free");
    let b = alloc.alloc_range(Size4Kb, 1).expect("another page should be free");
    for range in [&a, &b] {
        let base = range.base_addr().as_usize();
        assert_eq!(base % 4096, 0);
        assert!(base >= REGION_BASE && base + 4096 <= REGION_BASE + REGION_SIZE);
        assert_eq!(range.len(), 1);
        assert_eq!(range.size(), 4096);
    }
    assert_ne!(a.base_addr().as_usize(), b.base_addr().as_usize());
}

#[test]
fn alloc_range_rounds_length_up_to_a_power_of_two() {
    let mut alloc = heap();
    let range = alloc.alloc_range(Size4Kb, 3).expect("four pages should be free");
    assert_eq!(range.len(), 4);
    assert_eq!(range.size(), 4 * 4096);
    assert_eq!(range.base_addr().as_usize() % (4 * 4096), 0);
}

#[test]
fn alloc_range_fails_when_too_large() {
    let mut alloc = heap();
    assert!(alloc.alloc_range(Size4Kb, 512).is_err());
    // the whole region is one block of the largest order it fits
    let all = alloc.alloc_range(Size4Kb, 256).expect("the whole region is free");
    assert_eq!(all.base_addr().as_usize(), REGION_BASE);
    assert!(alloc.alloc_range(Size4Kb, 1).is_err());
}

#[test]
fn dealloc_range_makes_pages_free_again() {
    let mut alloc = heap();
    let all = alloc.alloc_range(Size4Kb, 256).expect("the whole region is free");
    assert!(alloc.alloc_range(Size4Kb, 1).is_err());
    assert!(alloc.dealloc_range(all).is_ok());
    // the freed buddies merge back into one block
    let again = alloc.alloc_range(Size4Kb, 256).expect("the region is free again");
    assert_eq!(again.base_addr().as_usize(), REGION_BASE);
}

#[test]
fn split_and_merge_round_trip() {
    let mut alloc = heap();
    let mut ranges = Vec::new();
    for _ in 0..8 {
        ranges.push(alloc.alloc_range(Size4Kb, 1).expect("pages should be free"));
    }
    let mut bases: Vec<usize> = ranges.iter().map(|r| r.base_addr().as_usize()).collect();
    bases.sort();
    bases.dedup();
    assert_eq!(bases.len(), 8);
    for range in ranges {
        assert!(alloc.dealloc_range(range).is_ok());
    }
    let all = alloc.alloc_range(Size4Kb, 256).expect("all pages merged back");
    assert_eq!(all.base_addr().as_usize(), REGION_BASE);
}

#[test]
fn alloc_bytes_returns_kernel_addresses() {
    let mut alloc = heap();
    let p = alloc.alloc_bytes(100, 8);
    assert_ne!(p, 0);
    assert!(p >= VM_OFFSET + REGION_BASE && p < VM_OFFSET + REGION_BASE + REGION_SIZE);
    assert_eq!(p % 4096, 0);
    alloc.dealloc_bytes(p, 100, 8);
    // too large an allocation gives null
    assert_eq!(alloc.alloc_bytes(2 * REGION_SIZE, 8), 0);
}

#[test]
fn free_block_header_carries_magic() {
    assert_eq!(FREE_MAGIC, 0xF4EE_B10C);
}

#[test]
fn can_add_region_checks_the_free_lists() {
    let mut alloc = Alloc::new_default(4096);
    let region = Region::new(PAddr::from_usize(REGION_BASE), REGION_SIZE, RegionKind::FREE);
    // no virtual memory offset yet
    assert!(!alloc.can_add_region(&region));
    alloc.set_vm_offset(VAddr::from_usize(VM_OFFSET));
    assert!(alloc.can_add_region(&region));
    // a region smaller than the minimum block size cannot be added
    let tiny = Region::new(PAddr::from_usize(REGION_BASE), 16, RegionKind::FREE);
    assert!(!alloc.can_add_region(&tiny));
    // used memory is refused by add_region itself, without harm
    let used = Region::new(PAddr::from_usize(REGION_BASE), REGION_SIZE, RegionKind::KERNEL);
    assert!(alloc.can_add_region(&used));
}

#[test]
fn add_region_splits_at_the_greatest_power_of_two() {
    let mut alloc = Alloc::new_default(4096);
    alloc.set_vm_offset(VAddr::from_usize(VM_OFFSET));
    // five pages: a four-page block and a one-page block
    let region = Region::new(PAddr::from_usize(REGION_BASE), 5 * 4096, RegionKind::FREE);
    assert!(alloc.can_add_region(&region));
    assert_eq!(alloc.add_region(region), Ok(()));
    assert_eq!(alloc.free_size(), 5 * 4096);
    let four = alloc.alloc_range(Size4Kb, 4).expect("a four-page block should be free");
    assert_eq!(four.base_addr().as_usize(), REGION_BASE);
}

#[test]
fn buddy_page_alloc_refuses_huge_pages() {
    use_page_alloc();
}

fn use_page_alloc() {
    let mut pages = BuddyAlloc::from_alloc(heap());
    assert!(pages.alloc_range(Size2Mb, 1).is_err());
    assert_eq!(pages.size_for(Size4Kb, 3).ok(), Some(4 * 4096));
    assert!(pages.size_for(Size4Kb, usize::MAX).is_err());
    let range = pages.alloc_range(Size4Kb, 2).expect("two pages should be free");
    assert_eq!(range.len(), 2);
    assert!(pages.dealloc_range(range).is_ok());
    let alloc = pages.into_inner();
    assert_eq!(alloc.free_size(), REGION_SIZE);
    let fresh = BuddyAlloc::new_default(4096);
    assert_eq!(fresh.min_size(), 4096);
    assert_eq!(fresh.into_inner().min_size(), 4096);
}

#[test]
fn buddy_page_alloc_keeps_its_min_size() {
    // the minimum page size is kept as given; blocks are still powers of two
    let mut pages = BuddyAlloc::new_default(5000);
    assert_eq!(pages.min_size(), 5000);
    // a page of 8 KiB is larger than the minimum page size, so it is refused
    assert!(pages.alloc_range(Size8Kb, 1).is_err());
    assert_eq!(pages.into_inner().min_size(), 8192);
}

#[derive(Clone, Copy, Debug, PartialEq, Eq)]
struct Size8Kb;

impl mycelium::mem::page::Size for Size8Kb {
    // The size as the library's contracts speak of it.
    fn spec_size(&self) -> usize {
        8192
    }

    fn as_usize(&self) -> usize {
        8192
    }
}

#[test]
fn can_dealloc_bytes_checks_the_freed_block() {
    let mut alloc = heap();
    let p = alloc.alloc_bytes(100, 8);
    assert_ne!(p, 0);
    assert!(alloc.can_dealloc_bytes(p, 100, 8));
    // an alignment that is not a power of two is refused
    assert!(!alloc.can_dealloc_bytes(p, 100, 3));
    // an address below the kernel's mapping is refused
    assert!(!alloc.can_dealloc_bytes(VM_OFFSET - 1, 100, 8));
    // a size larger than the heap is refused
    assert!(!alloc.can_dealloc_bytes(p, 2 * REGION_SIZE, 8));
    alloc.dealloc_bytes(p, 100, 8);
    assert_eq!(alloc.free_size(), REGION_SIZE);
}
