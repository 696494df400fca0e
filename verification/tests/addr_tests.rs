use mycelium::addr::{Address, PAddr, VAddr};

#[test]
fn align_up_1_aligned() {
    assert_eq!(
        PAddr::from_usize(0x0).align_up(1usize),
        PAddr::from_usize(0x0)
    );
    assert_eq!(
        PAddr::from_usize(0xDEAD_FACE).align_up(1usize),
        PAddr::from_usize(0xDEAD_FACE)
    );
    assert_eq!(
        PAddr::from_usize(0x000F_FFFF_FFFF_FFFF).align_up(1usize),
        PAddr::from_usize(0x000F_FFFF_FFFF_FFFF)
    );
}

#[test]
fn align_up() {
    assert_eq!(PAddr::from_usize(2).align_up(2usize), PAddr::from_usize(2));
    assert_eq!(
        PAddr::from_usize(123).align_up(2usize),
        PAddr::from_usize(124)
    );
    assert_eq!(
        PAddr::from_usize(0x5555).align_up(16usize),
        PAddr::from_usize(0x5560)
    );
}

#[test]
fn x86_64_vaddr_validation() {
    let addr: usize = (0xFFFFF << 47) | 123;
    assert!(VAddr::from_usize_checked(addr).is_ok(), "{addr:#016x} is valid");
    let addr: usize = 123;
    assert!(VAddr::from_usize_checked(addr).is_ok(), "{addr:#016x} is valid");
    let addr: usize = 123 | (1 << 47);
    assert!(VAddr::from_usize_checked(addr).is_err(), "{addr:#016x} is invalid");
    let addr: usize = (0x10101 << 47) | 123;
    assert!(VAddr::from_usize_checked(addr).is_err(), "{addr:#016x} is invalid");
}

#[test]
fn x86_64_paddr_validation() {
    let addr: usize = 123;
    assert!(PAddr::from_usize_checked(addr).is_ok(), "{addr:#016x} is valid");
    let addr: usize = 0xFFF0_0000_0000_0000 | 123;
    assert!(PAddr::from_usize_checked(addr).is_err(), "{addr:#016x} is invalid");
    let addr: usize = 0x1000_0000_0000_0000 | 123;
    assert!(PAddr::from_usize_checked(addr).is_err(), "{addr:#016x} is invalid");
    let addr: usize = 0x0010_0000_0000_0000 | 123;
    assert!(PAddr::from_usize_checked(addr).is_err(), "{addr:#016x} is invalid");
}

#[test]
fn invalid_address_reports_the_address() {
    let addr: usize = 0x0010_0000_0000_0000;
    let err = PAddr::from_usize_checked(addr).unwrap_err();
    assert_eq!(err.addr(), addr);
}

#[test]
fn align_down_rounds_down() {
    assert_eq!(PAddr::from_usize(0x5555).align_down(16usize), PAddr::from_usize(0x5550));
    assert_eq!(PAddr::from_usize(0x5550).align_down(16usize), PAddr::from_usize(0x5550));
}

#[test]
fn align_up_then_is_aligned() {
    let a = PAddr::from_usize(0x1234).align_up(0x1000usize);
    assert!(a.is_aligned(0x1000usize));
    assert_eq!(a.as_usize(), 0x2000);
}

#[test]
fn offset_saturates() {
    assert_eq!(PAddr::from_usize(10).offset(-20), PAddr::from_usize(0));
    assert_eq!(PAddr::from_usize(10).offset(5), PAddr::from_usize(15));
}

#[test]
fn difference_and_arith() {
    let a = PAddr::from_usize(0x1000);
    let b = PAddr::from_usize(0x1800);
    assert_eq!(a.difference(b), 0x800);
    assert_eq!(b.difference(a), -0x800);
    assert_eq!(a.add(0x10).as_usize(), 0x1010);
    assert_eq!(b.sub(0x10).as_usize(), 0x17f0);
}

#[test]
fn vaddr_zero_and_from_u64() {
    assert_eq!(VAddr::zero().as_usize(), 0);
    assert_eq!(PAddr::from_u64(0x42).as_usize(), 0x42);
}
