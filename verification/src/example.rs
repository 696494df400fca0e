//! Example types implementing [`FromBits`].
use vstd::prelude::*;

use core::convert::Infallible;

use crate::from_bits::FromBits;

verus! {

/// An example enum type implementing [`FromBits`], whose variants fill all
/// four patterns of two bits: `Foo` is `0b00`, `Bar` `0b01`, `Baz` `0b10` and
/// `Qux` `0b11`.
#[derive(Debug, Clone, Copy, PartialEq, Eq, Structural)]
pub enum TestEnum {
    Foo,
    Bar,
    Baz,
    Qux,
}

impl FromBits<u64> for TestEnum {
    type Error = Infallible;

    const BITS: u32 = 2;

    /// Patterns whose low byte is not a variant's are not handled.
    open spec fn accepts_bits(bits: u64) -> bool {
        (bits as u8) < 4
    }

    open spec fn spec_from_bits(bits: u64) -> Result<Self, Infallible> {
        Ok(
            if bits as u8 == 0 {
                TestEnum::Foo
            } else if bits as u8 == 1 {
                TestEnum::Bar
            } else if bits as u8 == 2 {
                TestEnum::Baz
            } else {
                TestEnum::Qux
            },
        )
    }

    open spec fn spec_into_bits(self) -> u64 {
        match self {
            TestEnum::Foo => 0,
            TestEnum::Bar => 1,
            TestEnum::Baz => 2,
            TestEnum::Qux => 3,
        }
    }

    fn try_from_bits(bits: u64) -> (r: Result<Self, Infallible>) {
        let b = bits as u8;
        Ok(
            if b == 0 {
                TestEnum::Foo
            } else if b == 1 {
                TestEnum::Bar
            } else if b == 2 {
                TestEnum::Baz
            } else {
                TestEnum::Qux
            },
        )
    }

    fn into_bits(self) -> (r: u64) {
        match self {
            TestEnum::Foo => 0,
            TestEnum::Bar => 1,
            TestEnum::Baz => 2,
            TestEnum::Qux => 3,
        }
    }
}

impl FromBits<usize> for TestEnum {
    type Error = Infallible;

    const BITS: u32 = 2;

    /// Patterns whose low byte is not a variant's are not handled.
    open spec fn accepts_bits(bits: usize) -> bool {
        (bits as u8) < 4
    }

    open spec fn spec_from_bits(bits: usize) -> Result<Self, Infallible> {
        Ok(test_enum_from_byte(bits as u8))
    }

    open spec fn spec_into_bits(self) -> usize {
        match self {
            TestEnum::Foo => 0,
            TestEnum::Bar => 1,
            TestEnum::Baz => 2,
            TestEnum::Qux => 3,
        }
    }

    fn try_from_bits(bits: usize) -> (r: Result<Self, Infallible>) {
        let b = bits as u8;
        Ok(
            if b == 0 {
                TestEnum::Foo
            } else if b == 1 {
                TestEnum::Bar
            } else if b == 2 {
                TestEnum::Baz
            } else {
                TestEnum::Qux
            },
        )
    }

    fn into_bits(self) -> (r: usize) {
        match self {
            TestEnum::Foo => 0,
            TestEnum::Bar => 1,
            TestEnum::Baz => 2,
            TestEnum::Qux => 3,
        }
    }
}

/// [`TestEnum`] packs into two bits.
pub proof fn lemma_test_enum_width()
    ensures
        <TestEnum as FromBits<usize>>::BITS == 2,
{
}

/// The variant of [`TestEnum`] whose pattern is the byte `b`, below 4.
pub open spec fn test_enum_from_byte(b: u8) -> TestEnum {
    if b == 0 {
        TestEnum::Foo
    } else if b == 1 {
        TestEnum::Bar
    } else if b == 2 {
        TestEnum::Baz
    } else {
        TestEnum::Qux
    }
}

/// The error of [`AnotherTestEnum`]'s `try_from_bits`.
pub const ANOTHER_TEST_ENUM_ERROR: &'static str =
    "invalid bit pattern for `AnotherTestEnum`, expected one of `0b1000`, `0b1100`, or `0b1110`";

/// Another example enum type implementing [`FromBits`]: `Alice` is `0b1000`,
/// `Bob` `0b1100` and `Charlie` `0b1110`. Its `try_from_bits` is fallible,
/// because the other patterns of four bits are not variants.
#[derive(Debug, Clone, Copy, PartialEq, Eq, Structural)]
pub enum AnotherTestEnum {
    Alice,
    Bob,
    Charlie,
}

impl FromBits<u64> for AnotherTestEnum {
    type Error = &'static str;

    const BITS: u32 = 4;

    open spec fn accepts_bits(bits: u64) -> bool {
        true
    }

    open spec fn spec_from_bits(bits: u64) -> Result<Self, &'static str> {
        if bits as u8 == 0b1000 {
            Ok(AnotherTestEnum::Alice)
        } else if bits as u8 == 0b1100 {
            Ok(AnotherTestEnum::Bob)
        } else if bits as u8 == 0b1110 {
            Ok(AnotherTestEnum::Charlie)
        } else {
            Err(ANOTHER_TEST_ENUM_ERROR)
        }
    }

    open spec fn spec_into_bits(self) -> u64 {
        match self {
            AnotherTestEnum::Alice => 0b1000,
            AnotherTestEnum::Bob => 0b1100,
            AnotherTestEnum::Charlie => 0b1110,
        }
    }

    fn try_from_bits(bits: u64) -> (r: Result<Self, &'static str>) {
        let b = bits as u8;
        if b == 0b1000 {
            Ok(AnotherTestEnum::Alice)
        } else if b == 0b1100 {
            Ok(AnotherTestEnum::Bob)
        } else if b == 0b1110 {
            Ok(AnotherTestEnum::Charlie)
        } else {
            Err(ANOTHER_TEST_ENUM_ERROR)
        }
    }

    fn into_bits(self) -> (r: u64) {
        match self {
            AnotherTestEnum::Alice => 0b1000,
            AnotherTestEnum::Bob => 0b1100,
            AnotherTestEnum::Charlie => 0b1110,
        }
    }
}

/// An enum represented by a `u8`, with the conversions that
/// `enum_from_bits!` generates: `Foo` is `0b0000`, `Bar` `0b0001`, `Baz`
/// `0b1000` and `Qux` `0b0111`.
#[derive(Debug, Clone, Copy, PartialEq, Eq, Structural)]
pub enum Example {
    Foo,
    Bar,
    Baz,
    Qux,
}

/// The error returned for a bit pattern that is not a variant of
/// [`Example`].
pub const EXAMPLE_ERROR: &'static str = "invalid value for Example: expected one of [0b0000, 0b0001, 0b1000, 0b0111]";

/// The `u8` representation of each variant of [`Example`].
pub open spec fn example_repr(e: Example) -> u8 {
    match e {
        Example::Foo => 0b0000,
        Example::Bar => 0b0001,
        Example::Baz => 0b1000,
        Example::Qux => 0b0111,
    }
}

/// The variant of [`Example`] represented by `value`, if any.
pub open spec fn example_from_repr(value: u8) -> Result<Example, &'static str> {
    if value == 0b0000 {
        Ok(Example::Foo)
    } else if value == 0b0001 {
        Ok(Example::Bar)
    } else if value == 0b1000 {
        Ok(Example::Baz)
    } else if value == 0b0111 {
        Ok(Example::Qux)
    } else {
        Err(EXAMPLE_ERROR)
    }
}

impl Example {
    /// The variant with the greatest representation.
    pub const MAX_VARIANT: Example = Example::Baz;

    /// The variant with the least representation.
    pub const MIN_VARIANT: Example = Example::Foo;

    /// The number of bits needed to represent every variant: the bit length
    /// of the greatest representation.
    pub const NEEDED_BITS: u32 = 4;

    /// Returns the variant represented by `value`, or an error if no variant
    /// is.
    pub fn try_from_repr(value: u8) -> (r: Result<Example, &'static str>)
        ensures
            r == example_from_repr(value),
    {
        if value == 0b0000 {
            Ok(Example::Foo)
        } else if value == 0b0001 {
            Ok(Example::Bar)
        } else if value == 0b1000 {
            Ok(Example::Baz)
        } else if value == 0b0111 {
            Ok(Example::Qux)
        } else {
            Err(EXAMPLE_ERROR)
        }
    }

    /// Returns the `u8` representation of this variant.
    pub fn repr(self) -> (r: u8)
        ensures
            r == example_repr(self),
    {
        match self {
            Example::Foo => 0b0000,
            Example::Bar => 0b0001,
            Example::Baz => 0b1000,
            Example::Qux => 0b0111,
        }
    }

    /// `MAX_VARIANT` and `MIN_VARIANT` bound every variant's
    /// representation, `NEEDED_BITS` bits hold every representation, and
    /// converting a variant to bits and back gives the variant.
    pub proof fn law_variants(e: Example)
        ensures
            example_repr(Self::MIN_VARIANT) <= example_repr(e) <= example_repr(Self::MAX_VARIANT),
            (example_repr(e) as int) < vstd::arithmetic::power2::pow2(Self::NEEDED_BITS as nat),
            (example_repr(Self::MAX_VARIANT) as int) >= vstd::arithmetic::power2::pow2(
                (Self::NEEDED_BITS - 1) as nat,
            ),
            example_from_repr(example_repr(e)) == Ok::<Example, &'static str>(e),
    {
        vstd::arithmetic::power2::lemma2_to64();
    }
}

impl FromBits<u8> for Example {
    type Error = &'static str;

    const BITS: u32 = Example::NEEDED_BITS;

    open spec fn accepts_bits(bits: u8) -> bool {
        true
    }

    open spec fn spec_from_bits(bits: u8) -> Result<Self, &'static str> {
        example_from_repr(bits)
    }

    open spec fn spec_into_bits(self) -> u8 {
        example_repr(self) as u8
    }

    fn try_from_bits(bits: u8) -> (r: Result<Self, &'static str>) {
        Example::try_from_repr(bits)
    }

    fn into_bits(self) -> (r: u8) {
        self.repr() as u8
    }
}

impl FromBits<u16> for Example {
    type Error = &'static str;

    const BITS: u32 = Example::NEEDED_BITS;

    open spec fn accepts_bits(bits: u16) -> bool {
        true
    }

    open spec fn spec_from_bits(bits: u16) -> Result<Self, &'static str> {
        example_from_repr(bits as u8)
    }

    open spec fn spec_into_bits(self) -> u16 {
        example_repr(self) as u16
    }

    fn try_from_bits(bits: u16) -> (r: Result<Self, &'static str>) {
        Example::try_from_repr(bits as u8)
    }

    fn into_bits(self) -> (r: u16) {
        self.repr() as u16
    }
}

impl FromBits<u32> for Example {
    type Error = &'static str;

    const BITS: u32 = Example::NEEDED_BITS;

    open spec fn accepts_bits(bits: u32) -> bool {
        true
    }

    open spec fn spec_from_bits(bits: u32) -> Result<Self, &'static str> {
        example_from_repr(bits as u8)
    }

    open spec fn spec_into_bits(self) -> u32 {
        example_repr(self) as u32
    }

    fn try_from_bits(bits: u32) -> (r: Result<Self, &'static str>) {
        Example::try_from_repr(bits as u8)
    }

    fn into_bits(self) -> (r: u32) {
        self.repr() as u32
    }
}

impl FromBits<u64> for Example {
    type Error = &'static str;

    const BITS: u32 = Example::NEEDED_BITS;

    open spec fn accepts_bits(bits: u64) -> bool {
        true
    }

    open spec fn spec_from_bits(bits: u64) -> Result<Self, &'static str> {
        example_from_repr(bits as u8)
    }

    open spec fn spec_into_bits(self) -> u64 {
        example_repr(self) as u64
    }

    fn try_from_bits(bits: u64) -> (r: Result<Self, &'static str>) {
        Example::try_from_repr(bits as u8)
    }

    fn into_bits(self) -> (r: u64) {
        self.repr() as u64
    }
}

impl FromBits<u128> for Example {
    type Error = &'static str;

    const BITS: u32 = Example::NEEDED_BITS;

    open spec fn accepts_bits(bits: u128) -> bool {
        true
    }

    open spec fn spec_from_bits(bits: u128) -> Result<Self, &'static str> {
        example_from_repr(bits as u8)
    }

    open spec fn spec_into_bits(self) -> u128 {
        example_repr(self) as u128
    }

    fn try_from_bits(bits: u128) -> (r: Result<Self, &'static str>) {
        Example::try_from_repr(bits as u8)
    }

    fn into_bits(self) -> (r: u128) {
        self.repr() as u128
    }
}

impl FromBits<usize> for Example {
    type Error = &'static str;

    const BITS: u32 = Example::NEEDED_BITS;

    open spec fn accepts_bits(bits: usize) -> bool {
        true
    }

    open spec fn spec_from_bits(bits: usize) -> Result<Self, &'static str> {
        example_from_repr(bits as u8)
    }

    open spec fn spec_into_bits(self) -> usize {
        example_repr(self) as usize
    }

    fn try_from_bits(bits: usize) -> (r: Result<Self, &'static str>) {
        Example::try_from_repr(bits as u8)
    }

    fn into_bits(self) -> (r: usize) {
        self.repr() as usize
    }
}

/// Every variant of [`TestEnum`] and of [`AnotherTestEnum`] survives a round
/// trip through its raw bits, and distinct variants have distinct bits: the
/// variants of [`TestEnum`] take the four patterns below 4, and those of
/// [`AnotherTestEnum`] the patterns `0b1000`, `0b1100` and `0b1110`, any
/// other low byte being refused.
pub proof fn law_test_enums_round_trip(
    e: TestEnum,
    e2: TestEnum,
    a: AnotherTestEnum,
    a2: AnotherTestEnum,
    bits: u64,
)
    ensures
        <TestEnum as FromBits<u64>>::spec_from_bits(FromBits::<u64>::spec_into_bits(e)) == Ok::<
            TestEnum,
            Infallible,
        >(e),
        <TestEnum as FromBits<usize>>::spec_from_bits(FromBits::<usize>::spec_into_bits(e)) == Ok::<
            TestEnum,
            Infallible,
        >(e),
        <TestEnum as FromBits<u64>>::spec_into_bits(e) < 4,
        <TestEnum as FromBits<u64>>::spec_into_bits(e) as int == <TestEnum as FromBits<
            usize,
        >>::spec_into_bits(e) as int,
        e != e2 ==> <TestEnum as FromBits<u64>>::spec_into_bits(e) != <TestEnum as FromBits<
            u64,
        >>::spec_into_bits(e2),
        <AnotherTestEnum as FromBits<u64>>::spec_from_bits(FromBits::<u64>::spec_into_bits(a))
            == Ok::<AnotherTestEnum, &'static str>(a),
        a != a2 ==> <AnotherTestEnum as FromBits<u64>>::spec_into_bits(a) != <AnotherTestEnum as FromBits<
            u64,
        >>::spec_into_bits(a2),
        bits < 0x100 && bits != 0b1000 && bits != 0b1100 && bits != 0b1110 ==> <AnotherTestEnum as FromBits<
            u64,
        >>::spec_from_bits(bits) is Err,
{
}

/// Every variant of [`Example`] survives a round trip through its raw bits
/// at every width: converting it to bits and back gives it again.
pub proof fn law_bits_round_trip(e: Example)
    ensures
        <Example as FromBits<u8>>::spec_from_bits(FromBits::<u8>::spec_into_bits(e)) == Ok::<
            Example,
            &'static str,
        >(e),
        <Example as FromBits<u16>>::spec_from_bits(FromBits::<u16>::spec_into_bits(e)) == Ok::<
            Example,
            &'static str,
        >(e),
        <Example as FromBits<u32>>::spec_from_bits(FromBits::<u32>::spec_into_bits(e)) == Ok::<
            Example,
            &'static str,
        >(e),
        <Example as FromBits<u64>>::spec_from_bits(FromBits::<u64>::spec_into_bits(e)) == Ok::<
            Example,
            &'static str,
        >(e),
        <Example as FromBits<u128>>::spec_from_bits(FromBits::<u128>::spec_into_bits(e)) == Ok::<
            Example,
            &'static str,
        >(e),
        <Example as FromBits<usize>>::spec_from_bits(FromBits::<usize>::spec_into_bits(e)) == Ok::<
            Example,
            &'static str,
        >(e),
{
    Example::law_variants(e);
}

} // verus!
