use mycelium::example::{AnotherTestEnum, Example, TestEnum};
use mycelium::from_bits::FromBits;

#[test]
fn enum_max_variant() {
    assert_eq!(Example::MAX_VARIANT, Example::Baz);
}

#[test]
fn enum_min_variant() {
    assert_eq!(Example::MIN_VARIANT, Example::Foo);
}

#[test]
fn enum_needed_bits() {
    assert_eq!(Example::NEEDED_BITS, 4);
}

#[test]
fn enum_roundtrips() {
    for variant in [Example::Foo, Example::Bar, Example::Baz, Example::Qux] {
        let bits: u8 = FromBits::<u8>::into_bits(variant);
        assert_eq!(Example::try_from_bits(bits), Ok(variant));
        assert_eq!(Example::try_from_bits(bits as u16), Ok(variant));
        assert_eq!(Example::try_from_bits(bits as u32), Ok(variant));
        assert_eq!(Example::try_from_bits(bits as u64), Ok(variant));
        assert_eq!(Example::try_from_bits(bits as u128), Ok(variant));
    }
}

#[test]
fn enum_invalid() {
    for value in [0b1001u8, 0b1000_0000u8, 0b1000_0001u8, 0b1111u8] {
        assert!(Example::try_from_bits(value).is_err());
    }
}

#[test]
fn example_representations() {
    assert_eq!(FromBits::<u8>::into_bits(Example::Foo), 0b0000);
    assert_eq!(FromBits::<u8>::into_bits(Example::Bar), 0b0001);
    assert_eq!(FromBits::<u8>::into_bits(Example::Baz), 0b1000);
    assert_eq!(FromBits::<u8>::into_bits(Example::Qux), 0b0111);
    assert_eq!(Example::try_from_bits(0b1u8), Ok(Example::Bar));
}

#[test]
fn example_wider_bits_are_truncated() {
    assert_eq!(Example::try_from_bits(0x108u16), Ok(Example::Baz));
}

#[test]
fn test_enum_roundtrips() {
    for variant in [TestEnum::Foo, TestEnum::Bar, TestEnum::Baz, TestEnum::Qux] {
        let bits: u64 = variant.into_bits();
        assert!(bits < 4);
        assert_eq!(TestEnum::try_from_bits(bits), Ok(variant));
    }
    assert_eq!(<TestEnum as FromBits<u64>>::BITS, 2);
}

#[test]
fn another_test_enum_roundtrips_and_rejects() {
    for variant in [AnotherTestEnum::Alice, AnotherTestEnum::Bob, AnotherTestEnum::Charlie] {
        let bits = variant.into_bits();
        assert_eq!(AnotherTestEnum::try_from_bits(bits), Ok(variant));
    }
    assert_eq!(AnotherTestEnum::Bob.into_bits(), 0b1100);
    assert!(AnotherTestEnum::try_from_bits(0b1001).is_err());
    assert_eq!(<AnotherTestEnum as FromBits<u64>>::BITS, 4);
}

#[test]
fn integers_and_bools_from_bits() {
    assert_eq!(<u8 as FromBits<u64>>::try_from_bits(0x1ff), Ok(0xff));
    assert_eq!(<i8 as FromBits<u8>>::try_from_bits(0xff), Ok(-1));
    assert_eq!(<bool as FromBits<u32>>::try_from_bits(2), Ok(true));
    assert_eq!(<bool as FromBits<u32>>::try_from_bits(0), Ok(false));
    assert_eq!(FromBits::<u64>::into_bits(true), 1);
    assert_eq!(<u32 as FromBits<u64>>::BITS, 32);
}
