use mycelium::addr::{Address, PAddr, VAddr};
use mycelium::mem::page::{Page, PageRange, Size2Mb, Size4Kb};
use mycelium::mem::{Region, RegionKind};

#[test]
fn page_starting_at_requires_alignment() {
    let page = Page::starting_at(PAddr::from_usize(0x3000), Size4Kb).expect("aligned");
    assert_eq!(page.base_addr().as_usize(), 0x3000);
    assert_eq!(page.end_addr().as_usize(), 0x4000);
    assert!(page.contains(PAddr::from_usize(0x3fff)));
    assert!(!page.contains(PAddr::from_usize(0x4000)));
    assert!(Page::starting_at(PAddr::from_usize(0x3001), Size4Kb).is_err());
    assert!(Page::<PAddr, Size2Mb>::starting_at_fixed(PAddr::from_usize(0x20_0000)).is_ok());
    assert!(Page::<PAddr, Size2Mb>::starting_at_fixed(PAddr::from_usize(0x1000)).is_err());
}

#[test]
fn page_containing_rounds_down() {
    let page = Page::containing(VAddr::from_usize(0x1234), Size4Kb);
    assert_eq!(page.base_addr().as_usize(), 0x1000);
    let page = Page::<VAddr, Size2Mb>::containing_fixed(VAddr::from_usize(0x30_0001));
    assert_eq!(page.base_addr().as_usize(), 0x20_0000);
}

#[test]
fn page_arithmetic_moves_by_whole_pages() {
    let page = Page::containing(PAddr::from_usize(0x1000), Size4Kb);
    assert_eq!(page.add(3).base_addr().as_usize(), 0x4000);
    assert_eq!(page.add(3).sub(2).base_addr().as_usize(), 0x2000);
}

#[test]
fn page_ranges() {
    let start = Page::containing(PAddr::from_usize(0x1000), Size4Kb);
    let end = Page::containing(PAddr::from_usize(0x4000), Size4Kb);
    let inclusive: PageRange<PAddr, Size4Kb> = start.range_inclusive(end);
    assert_eq!(inclusive.len(), 4);
    assert_eq!(inclusive.size(), 4 * 4096);
    assert_eq!(inclusive.base_addr().as_usize(), 0x1000);
    let exclusive = start.range_to(end);
    assert_eq!(exclusive.len(), 3);
    let mut pages = exclusive;
    let mut bases = Vec::new();
    while let Some(page) = pages.next() {
        bases.push(page.base_addr().as_usize());
    }
    assert_eq!(bases, vec![0x1000, 0x2000, 0x3000]);
}

#[test]
fn region_split_and_merge() {
    let mut region = Region::new(PAddr::from_usize(0x1000), 0x4000, RegionKind::FREE);
    assert_eq!(region.end_addr().as_usize(), 0x5000);
    assert!(region.contains(PAddr::from_usize(0x4fff)));
    let mut front = region.split_front(0x1000).expect("region is large enough");
    assert_eq!(front.base_addr().as_usize(), 0x1000);
    assert_eq!(front.size(), 0x1000);
    assert_eq!(region.base_addr().as_usize(), 0x2000);
    assert_eq!(region.size(), 0x3000);
    // merging the parts back gives the region
    region.merge(&mut front);
    assert_eq!(region.base_addr().as_usize(), 0x1000);
    assert_eq!(region.size(), 0x4000);
    assert_eq!(region.kind(), RegionKind::FREE);
    assert!(region.split_front(0x5000).is_none());
    let back = region.split_back(0x1000).expect("region is larger");
    assert_eq!(back.base_addr().as_usize(), 0x2000);
    assert_eq!(back.size(), 0x3000);
    assert_eq!(region.size(), 0x1000);
    assert!(region.split_back(0x1000).is_none());
}

#[test]
fn region_page_range() {
    let region = Region::new(PAddr::from_usize(0x1000), 0x3000, RegionKind::FREE);
    let range = region.page_range(Size4Kb).expect("aligned region");
    assert_eq!(range.len(), 3);
    assert_eq!(range.base_addr().as_usize(), 0x1000);
    let unaligned = Region::new(PAddr::from_usize(0x1800), 0x2000, RegionKind::FREE);
    assert!(unaligned.page_range(Size4Kb).is_err());
    let from_range = Region::from_page_range(range, RegionKind::USED);
    assert_eq!(from_range.base_addr().as_usize(), 0x1000);
    assert_eq!(from_range.kind(), RegionKind::USED);
}
