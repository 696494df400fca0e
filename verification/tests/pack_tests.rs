use mycelium::pack::PackUsize;

#[test]
fn pack_least_significant_bits() {
    let low = PackUsize::<usize>::least_significant(8);
    let base = 0xface_0000;
    assert_eq!(low.pack(0xed, base), 0xface_00ed);
}

#[test]
fn pack_related_specs_coffee() {
    let low = PackUsize::<usize>::least_significant(12);
    let mid = low.next(8);
    let high = mid.next(4);

    let base = 0xfeed000000;
    let val = high.pack(0xC, base);
    let val = low.pack(0xfee, val);
    let val = mid.pack(0x0f, val);
    assert_eq!(val, 0xfeedc0ffee);

    assert_eq!(low.unpack_bits(val), 0xfee);
    assert_eq!(mid.unpack_bits(val), 0x0f);
    assert_eq!(high.unpack_bits(val), 0xc);
}

#[test]
fn pack_overwrites_only_its_range() {
    let low = PackUsize::<usize>::least_significant(12);
    let not_coffee = 0xc0ff0f;
    assert_eq!(low.pack(0xfee, not_coffee), 0xc0ffee);
}

#[test]
fn pack_spec_metadata() {
    let low = PackUsize::<usize>::least_significant(12);
    let mid = low.next(8);
    assert_eq!(low.bits(), 12);
    assert_eq!(mid.bits(), 8);
    assert_eq!(mid.least_significant_index(), 12);
    assert_eq!(mid.most_significant_index(), 20);
    assert_eq!(mid.first_bit(), 1 << 12);
    assert_eq!(mid.raw_mask(), 0xff << 12);
    assert_eq!(mid.max_value(), 0xff);
    assert_eq!(mid.set_all(0), 0xff << 12);
    assert_eq!(mid.unset_all(usize::MAX), !(0xff << 12));
    assert!(mid.contained_in_any(1 << 15));
    assert!(!mid.contained_in_all(1 << 15));
    assert!(mid.contained_in_all(0xff << 12));
}

#[test]
fn pack_truncating_drops_high_bits() {
    let low = PackUsize::<usize>::least_significant(4);
    assert_eq!(low.pack_truncating(0xff, 0), 0xf);
}

#[test]
fn remaining_takes_the_rest() {
    let low = PackUsize::<usize>::least_significant(3);
    let rest = low.remaining();
    assert_eq!(rest.least_significant_index(), 3);
    assert_eq!(rest.bits(), usize::BITS - 3);
}

#[test]
fn first_and_typed_packs() {
    let flag = PackUsize::<bool>::first();
    assert_eq!(flag.raw_mask(), 1);
    assert_eq!(flag.pack(true, 0), 1);
    assert!(flag.unpack(1));
    assert_eq!(flag.try_unpack(0), Ok(false));
}
