//! Conversion of values to and from raw bit patterns.
use vstd::prelude::*;

use core::convert::Infallible;

verus! {

/// Values that can be converted to and from raw bits of type `B`.
///
/// Each implementation names, as spec functions, the bit patterns that
/// `try_from_bits` accepts without panicking, what it returns, and what
/// `into_bits` returns.
pub trait FromBits<B>: Sized {
    /// The error returned by [`FromBits::try_from_bits`] for an invalid bit
    /// pattern.
    type Error;

    /// The number of bits required to represent a value of this type.
    const BITS: u32;

    /// The bit patterns that `try_from_bits` handles.
    spec fn accepts_bits(bits: B) -> bool;

    /// The result of converting `bits`.
    spec fn spec_from_bits(bits: B) -> Result<Self, Self::Error>;

    /// The raw bits of `self`.
    spec fn spec_into_bits(self) -> B;

    /// Attempts to convert `bits` into a value of this type: `Err` if `bits`
    /// is not a valid bit pattern for one.
    fn try_from_bits(bits: B) -> (r: Result<Self, Self::Error>)
        requires
            Self::accepts_bits(bits),
        ensures
            r == Self::spec_from_bits(bits),
    ;

    /// Converts `self` into its raw bit representation.
    fn into_bits(self) -> (r: B)
        ensures
            r == self.spec_into_bits(),
    ;
}

impl FromBits<u8> for bool {
    type Error = Infallible;

    const BITS: u32 = 1;

    open spec fn accepts_bits(bits: u8) -> bool {
        true
    }

    open spec fn spec_from_bits(bits: u8) -> Result<Self, Infallible> {
        Ok(bits != 0)
    }

    open spec fn spec_into_bits(self) -> u8 {
        if self {
            1
        } else {
            0
        }
    }

    fn try_from_bits(bits: u8) -> (r: Result<Self, Infallible>) {
        Ok(if bits == 0 {
            false
        } else {
            true
        })
    }

    fn into_bits(self) -> (r: u8) {
        if self {
            1
        } else {
            0
        }
    }
}

impl FromBits<u16> for bool {
    type Error = Infallible;

    const BITS: u32 = 1;

    open spec fn accepts_bits(bits: u16) -> bool {
        true
    }

    open spec fn spec_from_bits(bits: u16) -> Result<Self, Infallible> {
        Ok(bits != 0)
    }

    open spec fn spec_into_bits(self) -> u16 {
        if self {
            1
        } else {
            0
        }
    }

    fn try_from_bits(bits: u16) -> (r: Result<Self, Infallible>) {
        Ok(if bits == 0 {
            false
        } else {
            true
        })
    }

    fn into_bits(self) -> (r: u16) {
        if self {
            1
        } else {
            0
        }
    }
}

impl FromBits<u32> for bool {
    type Error = Infallible;

    const BITS: u32 = 1;

    open spec fn accepts_bits(bits: u32) -> bool {
        true
    }

    open spec fn spec_from_bits(bits: u32) -> Result<Self, Infallible> {
        Ok(bits != 0)
    }

    open spec fn spec_into_bits(self) -> u32 {
        if self {
            1
        } else {
            0
        }
    }

    fn try_from_bits(bits: u32) -> (r: Result<Self, Infallible>) {
        Ok(if bits == 0 {
            false
        } else {
            true
        })
    }

    fn into_bits(self) -> (r: u32) {
        if self {
            1
        } else {
            0
        }
    }
}

impl FromBits<u64> for bool {
    type Error = Infallible;

    const BITS: u32 = 1;

    open spec fn accepts_bits(bits: u64) -> bool {
        true
    }

    open spec fn spec_from_bits(bits: u64) -> Result<Self, Infallible> {
        Ok(bits != 0)
    }

    open spec fn spec_into_bits(self) -> u64 {
        if self {
            1
        } else {
            0
        }
    }

    fn try_from_bits(bits: u64) -> (r: Result<Self, Infallible>) {
        Ok(if bits == 0 {
            false
        } else {
            true
        })
    }

    fn into_bits(self) -> (r: u64) {
        if self {
            1
        } else {
            0
        }
    }
}

impl FromBits<u128> for bool {
    type Error = Infallible;

    const BITS: u32 = 1;

    open spec fn accepts_bits(bits: u128) -> bool {
        true
    }

    open spec fn spec_from_bits(bits: u128) -> Result<Self, Infallible> {
        Ok(bits != 0)
    }

    open spec fn spec_into_bits(self) -> u128 {
        if self {
            1
        } else {
            0
        }
    }

    fn try_from_bits(bits: u128) -> (r: Result<Self, Infallible>) {
        Ok(if bits == 0 {
            false
        } else {
            true
        })
    }

    fn into_bits(self) -> (r: u128) {
        if self {
            1
        } else {
            0
        }
    }
}

impl FromBits<usize> for bool {
    type Error = Infallible;

    const BITS: u32 = 1;

    open spec fn accepts_bits(bits: usize) -> bool {
        true
    }

    open spec fn spec_from_bits(bits: usize) -> Result<Self, Infallible> {
        Ok(bits != 0)
    }

    open spec fn spec_into_bits(self) -> usize {
        if self {
            1
        } else {
            0
        }
    }

    fn try_from_bits(bits: usize) -> (r: Result<Self, Infallible>) {
        Ok(if bits == 0 {
            false
        } else {
            true
        })
    }

    fn into_bits(self) -> (r: usize) {
        if self {
            1
        } else {
            0
        }
    }
}

impl FromBits<u8> for u8 {
    type Error = Infallible;

    const BITS: u32 = u8::BITS;

    open spec fn accepts_bits(bits: u8) -> bool {
        true
    }

    open spec fn spec_from_bits(bits: u8) -> Result<Self, Infallible> {
        Ok(bits as u8)
    }

    open spec fn spec_into_bits(self) -> u8 {
        self as u8
    }

    fn try_from_bits(bits: u8) -> (r: Result<Self, Infallible>) {
        Ok(bits as u8)
    }

    fn into_bits(self) -> (r: u8) {
        self as u8
    }
}

impl FromBits<u16> for u8 {
    type Error = Infallible;

    const BITS: u32 = u8::BITS;

    open spec fn accepts_bits(bits: u16) -> bool {
        true
    }

    open spec fn spec_from_bits(bits: u16) -> Result<Self, Infallible> {
        Ok(bits as u8)
    }

    open spec fn spec_into_bits(self) -> u16 {
        self as u16
    }

    fn try_from_bits(bits: u16) -> (r: Result<Self, Infallible>) {
        Ok(bits as u8)
    }

    fn into_bits(self) -> (r: u16) {
        self as u16
    }
}

impl FromBits<u32> for u8 {
    type Error = Infallible;

    const BITS: u32 = u8::BITS;

    open spec fn accepts_bits(bits: u32) -> bool {
        true
    }

    open spec fn spec_from_bits(bits: u32) -> Result<Self, Infallible> {
        Ok(bits as u8)
    }

    open spec fn spec_into_bits(self) -> u32 {
        self as u32
    }

    fn try_from_bits(bits: u32) -> (r: Result<Self, Infallible>) {
        Ok(bits as u8)
    }

    fn into_bits(self) -> (r: u32) {
        self as u32
    }
}

impl FromBits<u64> for u8 {
    type Error = Infallible;

    const BITS: u32 = u8::BITS;

    open spec fn accepts_bits(bits: u64) -> bool {
        true
    }

    open spec fn spec_from_bits(bits: u64) -> Result<Self, Infallible> {
        Ok(bits as u8)
    }

    open spec fn spec_into_bits(self) -> u64 {
        self as u64
    }

    fn try_from_bits(bits: u64) -> (r: Result<Self, Infallible>) {
        Ok(bits as u8)
    }

    fn into_bits(self) -> (r: u64) {
        self as u64
    }
}

impl FromBits<u128> for u8 {
    type Error = Infallible;

    const BITS: u32 = u8::BITS;

    open spec fn accepts_bits(bits: u128) -> bool {
        true
    }

    open spec fn spec_from_bits(bits: u128) -> Result<Self, Infallible> {
        Ok(bits as u8)
    }

    open spec fn spec_into_bits(self) -> u128 {
        self as u128
    }

    fn try_from_bits(bits: u128) -> (r: Result<Self, Infallible>) {
        Ok(bits as u8)
    }

    fn into_bits(self) -> (r: u128) {
        self as u128
    }
}

impl FromBits<u16> for u16 {
    type Error = Infallible;

    const BITS: u32 = u16::BITS;

    open spec fn accepts_bits(bits: u16) -> bool {
        true
    }

    open spec fn spec_from_bits(bits: u16) -> Result<Self, Infallible> {
        Ok(bits as u16)
    }

    open spec fn spec_into_bits(self) -> u16 {
        self as u16
    }

    fn try_from_bits(bits: u16) -> (r: Result<Self, Infallible>) {
        Ok(bits as u16)
    }

    fn into_bits(self) -> (r: u16) {
        self as u16
    }
}

impl FromBits<u32> for u16 {
    type Error = Infallible;

    const BITS: u32 = u16::BITS;

    open spec fn accepts_bits(bits: u32) -> bool {
        true
    }

    open spec fn spec_from_bits(bits: u32) -> Result<Self, Infallible> {
        Ok(bits as u16)
    }

    open spec fn spec_into_bits(self) -> u32 {
        self as u32
    }

    fn try_from_bits(bits: u32) -> (r: Result<Self, Infallible>) {
        Ok(bits as u16)
    }

    fn into_bits(self) -> (r: u32) {
        self as u32
    }
}

impl FromBits<u64> for u16 {
    type Error = Infallible;

    const BITS: u32 = u16::BITS;

    open spec fn accepts_bits(bits: u64) -> bool {
        true
    }

    open spec fn spec_from_bits(bits: u64) -> Result<Self, Infallible> {
        Ok(bits as u16)
    }

    open spec fn spec_into_bits(self) -> u64 {
        self as u64
    }

    fn try_from_bits(bits: u64) -> (r: Result<Self, Infallible>) {
        Ok(bits as u16)
    }

    fn into_bits(self) -> (r: u64) {
        self as u64
    }
}

impl FromBits<u128> for u16 {
    type Error = Infallible;

    const BITS: u32 = u16::BITS;

    open spec fn accepts_bits(bits: u128) -> bool {
        true
    }

    open spec fn spec_from_bits(bits: u128) -> Result<Self, Infallible> {
        Ok(bits as u16)
    }

    open spec fn spec_into_bits(self) -> u128 {
        self as u128
    }

    fn try_from_bits(bits: u128) -> (r: Result<Self, Infallible>) {
        Ok(bits as u16)
    }

    fn into_bits(self) -> (r: u128) {
        self as u128
    }
}

impl FromBits<u32> for u32 {
    type Error = Infallible;

    const BITS: u32 = u32::BITS;

    open spec fn accepts_bits(bits: u32) -> bool {
        true
    }

    open spec fn spec_from_bits(bits: u32) -> Result<Self, Infallible> {
        Ok(bits as u32)
    }

    open spec fn spec_into_bits(self) -> u32 {
        self as u32
    }

    fn try_from_bits(bits: u32) -> (r: Result<Self, Infallible>) {
        Ok(bits as u32)
    }

    fn into_bits(self) -> (r: u32) {
        self as u32
    }
}

impl FromBits<u64> for u32 {
    type Error = Infallible;

    const BITS: u32 = u32::BITS;

    open spec fn accepts_bits(bits: u64) -> bool {
        true
    }

    open spec fn spec_from_bits(bits: u64) -> Result<Self, Infallible> {
        Ok(bits as u32)
    }

    open spec fn spec_into_bits(self) -> u64 {
        self as u64
    }

    fn try_from_bits(bits: u64) -> (r: Result<Self, Infallible>) {
        Ok(bits as u32)
    }

    fn into_bits(self) -> (r: u64) {
        self as u64
    }
}

impl FromBits<u128> for u32 {
    type Error = Infallible;

    const BITS: u32 = u32::BITS;

    open spec fn accepts_bits(bits: u128) -> bool {
        true
    }

    open spec fn spec_from_bits(bits: u128) -> Result<Self, Infallible> {
        Ok(bits as u32)
    }

    open spec fn spec_into_bits(self) -> u128 {
        self as u128
    }

    fn try_from_bits(bits: u128) -> (r: Result<Self, Infallible>) {
        Ok(bits as u32)
    }

    fn into_bits(self) -> (r: u128) {
        self as u128
    }
}

impl FromBits<u64> for u64 {
    type Error = Infallible;

    const BITS: u32 = u64::BITS;

    open spec fn accepts_bits(bits: u64) -> bool {
        true
    }

    open spec fn spec_from_bits(bits: u64) -> Result<Self, Infallible> {
        Ok(bits as u64)
    }

    open spec fn spec_into_bits(self) -> u64 {
        self as u64
    }

    fn try_from_bits(bits: u64) -> (r: Result<Self, Infallible>) {
        Ok(bits as u64)
    }

    fn into_bits(self) -> (r: u64) {
        self as u64
    }
}

impl FromBits<u128> for u64 {
    type Error = Infallible;

    const BITS: u32 = u64::BITS;

    open spec fn accepts_bits(bits: u128) -> bool {
        true
    }

    open spec fn spec_from_bits(bits: u128) -> Result<Self, Infallible> {
        Ok(bits as u64)
    }

    open spec fn spec_into_bits(self) -> u128 {
        self as u128
    }

    fn try_from_bits(bits: u128) -> (r: Result<Self, Infallible>) {
        Ok(bits as u64)
    }

    fn into_bits(self) -> (r: u128) {
        self as u128
    }
}

impl FromBits<u128> for u128 {
    type Error = Infallible;

    const BITS: u32 = u128::BITS;

    open spec fn accepts_bits(bits: u128) -> bool {
        true
    }

    open spec fn spec_from_bits(bits: u128) -> Result<Self, Infallible> {
        Ok(bits as u128)
    }

    open spec fn spec_into_bits(self) -> u128 {
        self as u128
    }

    fn try_from_bits(bits: u128) -> (r: Result<Self, Infallible>) {
        Ok(bits as u128)
    }

    fn into_bits(self) -> (r: u128) {
        self as u128
    }
}

impl FromBits<u8> for i8 {
    type Error = Infallible;

    const BITS: u32 = i8::BITS;

    open spec fn accepts_bits(bits: u8) -> bool {
        true
    }

    open spec fn spec_from_bits(bits: u8) -> Result<Self, Infallible> {
        Ok(bits as i8)
    }

    open spec fn spec_into_bits(self) -> u8 {
        self as u8
    }

    fn try_from_bits(bits: u8) -> (r: Result<Self, Infallible>) {
        Ok(bits as i8)
    }

    fn into_bits(self) -> (r: u8) {
        self as u8
    }
}

impl FromBits<u16> for i8 {
    type Error = Infallible;

    const BITS: u32 = i8::BITS;

    open spec fn accepts_bits(bits: u16) -> bool {
        true
    }

    open spec fn spec_from_bits(bits: u16) -> Result<Self, Infallible> {
        Ok(bits as i8)
    }

    open spec fn spec_into_bits(self) -> u16 {
        self as u16
    }

    fn try_from_bits(bits: u16) -> (r: Result<Self, Infallible>) {
        Ok(bits as i8)
    }

    fn into_bits(self) -> (r: u16) {
        self as u16
    }
}

impl FromBits<u32> for i8 {
    type Error = Infallible;

    const BITS: u32 = i8::BITS;

    open spec fn accepts_bits(bits: u32) -> bool {
        true
    }

    open spec fn spec_from_bits(bits: u32) -> Result<Self, Infallible> {
        Ok(bits as i8)
    }

    open spec fn spec_into_bits(self) -> u32 {
        self as u32
    }

    fn try_from_bits(bits: u32) -> (r: Result<Self, Infallible>) {
        Ok(bits as i8)
    }

    fn into_bits(self) -> (r: u32) {
        self as u32
    }
}

impl FromBits<u64> for i8 {
    type Error = Infallible;

    const BITS: u32 = i8::BITS;

    open spec fn accepts_bits(bits: u64) -> bool {
        true
    }

    open spec fn spec_from_bits(bits: u64) -> Result<Self, Infallible> {
        Ok(bits as i8)
    }

    open spec fn spec_into_bits(self) -> u64 {
        self as u64
    }

    fn try_from_bits(bits: u64) -> (r: Result<Self, Infallible>) {
        Ok(bits as i8)
    }

    fn into_bits(self) -> (r: u64) {
        self as u64
    }
}

impl FromBits<u128> for i8 {
    type Error = Infallible;

    const BITS: u32 = i8::BITS;

    open spec fn accepts_bits(bits: u128) -> bool {
        true
    }

    open spec fn spec_from_bits(bits: u128) -> Result<Self, Infallible> {
        Ok(bits as i8)
    }

    open spec fn spec_into_bits(self) -> u128 {
        self as u128
    }

    fn try_from_bits(bits: u128) -> (r: Result<Self, Infallible>) {
        Ok(bits as i8)
    }

    fn into_bits(self) -> (r: u128) {
        self as u128
    }
}

impl FromBits<u16> for i16 {
    type Error = Infallible;

    const BITS: u32 = i16::BITS;

    open spec fn accepts_bits(bits: u16) -> bool {
        true
    }

    open spec fn spec_from_bits(bits: u16) -> Result<Self, Infallible> {
        Ok(bits as i16)
    }

    open spec fn spec_into_bits(self) -> u16 {
        self as u16
    }

    fn try_from_bits(bits: u16) -> (r: Result<Self, Infallible>) {
        Ok(bits as i16)
    }

    fn into_bits(self) -> (r: u16) {
        self as u16
    }
}

impl FromBits<u32> for i16 {
    type Error = Infallible;

    const BITS: u32 = i16::BITS;

    open spec fn accepts_bits(bits: u32) -> bool {
        true
    }

    open spec fn spec_from_bits(bits: u32) -> Result<Self, Infallible> {
        Ok(bits as i16)
    }

    open spec fn spec_into_bits(self) -> u32 {
        self as u32
    }

    fn try_from_bits(bits: u32) -> (r: Result<Self, Infallible>) {
        Ok(bits as i16)
    }

    fn into_bits(self) -> (r: u32) {
        self as u32
    }
}

impl FromBits<u64> for i16 {
    type Error = Infallible;

    const BITS: u32 = i16::BITS;

    open spec fn accepts_bits(bits: u64) -> bool {
        true
    }

    open spec fn spec_from_bits(bits: u64) -> Result<Self, Infallible> {
        Ok(bits as i16)
    }

    open spec fn spec_into_bits(self) -> u64 {
        self as u64
    }

    fn try_from_bits(bits: u64) -> (r: Result<Self, Infallible>) {
        Ok(bits as i16)
    }

    fn into_bits(self) -> (r: u64) {
        self as u64
    }
}

impl FromBits<u128> for i16 {
    type Error = Infallible;

    const BITS: u32 = i16::BITS;

    open spec fn accepts_bits(bits: u128) -> bool {
        true
    }

    open spec fn spec_from_bits(bits: u128) -> Result<Self, Infallible> {
        Ok(bits as i16)
    }

    open spec fn spec_into_bits(self) -> u128 {
        self as u128
    }

    fn try_from_bits(bits: u128) -> (r: Result<Self, Infallible>) {
        Ok(bits as i16)
    }

    fn into_bits(self) -> (r: u128) {
        self as u128
    }
}

impl FromBits<u32> for i32 {
    type Error = Infallible;

    const BITS: u32 = i32::BITS;

    open spec fn accepts_bits(bits: u32) -> bool {
        true
    }

    open spec fn spec_from_bits(bits: u32) -> Result<Self, Infallible> {
        Ok(bits as i32)
    }

    open spec fn spec_into_bits(self) -> u32 {
        self as u32
    }

    fn try_from_bits(bits: u32) -> (r: Result<Self, Infallible>) {
        Ok(bits as i32)
    }

    fn into_bits(self) -> (r: u32) {
        self as u32
    }
}

impl FromBits<u64> for i32 {
    type Error = Infallible;

    const BITS: u32 = i32::BITS;

    open spec fn accepts_bits(bits: u64) -> bool {
        true
    }

    open spec fn spec_from_bits(bits: u64) -> Result<Self, Infallible> {
        Ok(bits as i32)
    }

    open spec fn spec_into_bits(self) -> u64 {
        self as u64
    }

    fn try_from_bits(bits: u64) -> (r: Result<Self, Infallible>) {
        Ok(bits as i32)
    }

    fn into_bits(self) -> (r: u64) {
        self as u64
    }
}

impl FromBits<u128> for i32 {
    type Error = Infallible;

    const BITS: u32 = i32::BITS;

    open spec fn accepts_bits(bits: u128) -> bool {
        true
    }

    open spec fn spec_from_bits(bits: u128) -> Result<Self, Infallible> {
        Ok(bits as i32)
    }

    open spec fn spec_into_bits(self) -> u128 {
        self as u128
    }

    fn try_from_bits(bits: u128) -> (r: Result<Self, Infallible>) {
        Ok(bits as i32)
    }

    fn into_bits(self) -> (r: u128) {
        self as u128
    }
}

impl FromBits<u64> for i64 {
    type Error = Infallible;

    const BITS: u32 = i64::BITS;

    open spec fn accepts_bits(bits: u64) -> bool {
        true
    }

    open spec fn spec_from_bits(bits: u64) -> Result<Self, Infallible> {
        Ok(bits as i64)
    }

    open spec fn spec_into_bits(self) -> u64 {
        self as u64
    }

    fn try_from_bits(bits: u64) -> (r: Result<Self, Infallible>) {
        Ok(bits as i64)
    }

    fn into_bits(self) -> (r: u64) {
        self as u64
    }
}

impl FromBits<u128> for i64 {
    type Error = Infallible;

    const BITS: u32 = i64::BITS;

    open spec fn accepts_bits(bits: u128) -> bool {
        true
    }

    open spec fn spec_from_bits(bits: u128) -> Result<Self, Infallible> {
        Ok(bits as i64)
    }

    open spec fn spec_into_bits(self) -> u128 {
        self as u128
    }

    fn try_from_bits(bits: u128) -> (r: Result<Self, Infallible>) {
        Ok(bits as i64)
    }

    fn into_bits(self) -> (r: u128) {
        self as u128
    }
}

impl FromBits<usize> for u8 {
    type Error = Infallible;

    const BITS: u32 = u8::BITS;

    open spec fn accepts_bits(bits: usize) -> bool {
        true
    }

    open spec fn spec_from_bits(bits: usize) -> Result<Self, Infallible> {
        Ok(bits as u8)
    }

    open spec fn spec_into_bits(self) -> usize {
        self as usize
    }

    fn try_from_bits(bits: usize) -> (r: Result<Self, Infallible>) {
        Ok(bits as u8)
    }

    fn into_bits(self) -> (r: usize) {
        self as usize
    }
}

impl FromBits<usize> for i8 {
    type Error = Infallible;

    const BITS: u32 = i8::BITS;

    open spec fn accepts_bits(bits: usize) -> bool {
        true
    }

    open spec fn spec_from_bits(bits: usize) -> Result<Self, Infallible> {
        Ok(bits as i8)
    }

    open spec fn spec_into_bits(self) -> usize {
        self as usize
    }

    fn try_from_bits(bits: usize) -> (r: Result<Self, Infallible>) {
        Ok(bits as i8)
    }

    fn into_bits(self) -> (r: usize) {
        self as usize
    }
}

impl FromBits<usize> for u16 {
    type Error = Infallible;

    const BITS: u32 = u16::BITS;

    open spec fn accepts_bits(bits: usize) -> bool {
        true
    }

    open spec fn spec_from_bits(bits: usize) -> Result<Self, Infallible> {
        Ok(bits as u16)
    }

    open spec fn spec_into_bits(self) -> usize {
        self as usize
    }

    fn try_from_bits(bits: usize) -> (r: Result<Self, Infallible>) {
        Ok(bits as u16)
    }

    fn into_bits(self) -> (r: usize) {
        self as usize
    }
}

impl FromBits<usize> for i16 {
    type Error = Infallible;

    const BITS: u32 = i16::BITS;

    open spec fn accepts_bits(bits: usize) -> bool {
        true
    }

    open spec fn spec_from_bits(bits: usize) -> Result<Self, Infallible> {
        Ok(bits as i16)
    }

    open spec fn spec_into_bits(self) -> usize {
        self as usize
    }

    fn try_from_bits(bits: usize) -> (r: Result<Self, Infallible>) {
        Ok(bits as i16)
    }

    fn into_bits(self) -> (r: usize) {
        self as usize
    }
}

impl FromBits<usize> for usize {
    type Error = Infallible;

    const BITS: u32 = usize::BITS;

    open spec fn accepts_bits(bits: usize) -> bool {
        true
    }

    open spec fn spec_from_bits(bits: usize) -> Result<Self, Infallible> {
        Ok(bits as usize)
    }

    open spec fn spec_into_bits(self) -> usize {
        self as usize
    }

    fn try_from_bits(bits: usize) -> (r: Result<Self, Infallible>) {
        Ok(bits as usize)
    }

    fn into_bits(self) -> (r: usize) {
        self as usize
    }
}

impl FromBits<usize> for isize {
    type Error = Infallible;

    const BITS: u32 = isize::BITS;

    open spec fn accepts_bits(bits: usize) -> bool {
        true
    }

    open spec fn spec_from_bits(bits: usize) -> Result<Self, Infallible> {
        Ok(bits as isize)
    }

    open spec fn spec_into_bits(self) -> usize {
        self as usize
    }

    fn try_from_bits(bits: usize) -> (r: Result<Self, Infallible>) {
        Ok(bits as isize)
    }

    fn into_bits(self) -> (r: usize) {
        self as usize
    }
}

impl FromBits<u128> for usize {
    type Error = Infallible;

    const BITS: u32 = usize::BITS;

    open spec fn accepts_bits(bits: u128) -> bool {
        true
    }

    open spec fn spec_from_bits(bits: u128) -> Result<Self, Infallible> {
        Ok(bits as usize)
    }

    open spec fn spec_into_bits(self) -> u128 {
        self as u128
    }

    fn try_from_bits(bits: u128) -> (r: Result<Self, Infallible>) {
        Ok(bits as usize)
    }

    fn into_bits(self) -> (r: u128) {
        self as u128
    }
}

impl FromBits<u64> for usize {
    type Error = Infallible;

    const BITS: u32 = usize::BITS;

    open spec fn accepts_bits(bits: u64) -> bool {
        true
    }

    open spec fn spec_from_bits(bits: u64) -> Result<Self, Infallible> {
        Ok(bits as usize)
    }

    open spec fn spec_into_bits(self) -> u64 {
        self as u64
    }

    fn try_from_bits(bits: u64) -> (r: Result<Self, Infallible>) {
        Ok(bits as usize)
    }

    fn into_bits(self) -> (r: u64) {
        self as u64
    }
}

impl FromBits<u64> for isize {
    type Error = Infallible;

    const BITS: u32 = isize::BITS;

    open spec fn accepts_bits(bits: u64) -> bool {
        true
    }

    open spec fn spec_from_bits(bits: u64) -> Result<Self, Infallible> {
        Ok(bits as isize)
    }

    open spec fn spec_into_bits(self) -> u64 {
        self as u64
    }

    fn try_from_bits(bits: u64) -> (r: Result<Self, Infallible>) {
        Ok(bits as isize)
    }

    fn into_bits(self) -> (r: u64) {
        self as u64
    }
}

impl FromBits<usize> for u32 {
    type Error = Infallible;

    const BITS: u32 = u32::BITS;

    open spec fn accepts_bits(bits: usize) -> bool {
        true
    }

    open spec fn spec_from_bits(bits: usize) -> Result<Self, Infallible> {
        Ok(bits as u32)
    }

    open spec fn spec_into_bits(self) -> usize {
        self as usize
    }

    fn try_from_bits(bits: usize) -> (r: Result<Self, Infallible>) {
        Ok(bits as u32)
    }

    fn into_bits(self) -> (r: usize) {
        self as usize
    }
}

impl FromBits<usize> for i32 {
    type Error = Infallible;

    const BITS: u32 = i32::BITS;

    open spec fn accepts_bits(bits: usize) -> bool {
        true
    }

    open spec fn spec_from_bits(bits: usize) -> Result<Self, Infallible> {
        Ok(bits as i32)
    }

    open spec fn spec_into_bits(self) -> usize {
        self as usize
    }

    fn try_from_bits(bits: usize) -> (r: Result<Self, Infallible>) {
        Ok(bits as i32)
    }

    fn into_bits(self) -> (r: usize) {
        self as usize
    }
}

impl FromBits<usize> for u64 {
    type Error = Infallible;

    const BITS: u32 = u64::BITS;

    open spec fn accepts_bits(bits: usize) -> bool {
        true
    }

    open spec fn spec_from_bits(bits: usize) -> Result<Self, Infallible> {
        Ok(bits as u64)
    }

    open spec fn spec_into_bits(self) -> usize {
        self as usize
    }

    fn try_from_bits(bits: usize) -> (r: Result<Self, Infallible>) {
        Ok(bits as u64)
    }

    fn into_bits(self) -> (r: usize) {
        self as usize
    }
}

impl FromBits<usize> for i64 {
    type Error = Infallible;

    const BITS: u32 = i64::BITS;

    open spec fn accepts_bits(bits: usize) -> bool {
        true
    }

    open spec fn spec_from_bits(bits: usize) -> Result<Self, Infallible> {
        Ok(bits as i64)
    }

    open spec fn spec_into_bits(self) -> usize {
        self as usize
    }

    fn try_from_bits(bits: usize) -> (r: Result<Self, Infallible>) {
        Ok(bits as i64)
    }

    fn into_bits(self) -> (r: usize) {
        self as usize
    }
}

/// A `bool` packs into one bit, and a `usize` into all of a `usize`.
pub proof fn lemma_widths()
    ensures
        <bool as FromBits<usize>>::BITS == 1,
        <usize as FromBits<usize>>::BITS == usize::BITS,
{
}

/// The integer that the low bits of `x` stand for in two's complement, `m`
/// being the number of values those bits can hold.
pub open spec fn signed_low_bits(x: int, m: int) -> int {
    if x % m < m / 2 {
        x % m
    } else {
        x % m - m
    }
}

/// Casts from `u8`: to a narrower unsigned type they keep the low bits, to a
/// signed type they read the low bits in two's complement, and a negative
/// value cast to `u8` wraps around by the type's range.
proof fn lemma_casts_u8(x: u8, a8: i8) by (bit_vector)
    ensures
        x < 0x80 ==> x as i8 == x,
        x >= 0x80 ==> x as i8 == x - 0x100int,
        a8 < 0 ==> a8 as u8 == a8 + 0x100int,
        (a8 as u8) as i8 == a8,
{
}

/// Casts from `u16`: to a narrower unsigned type they keep the low bits, to a
/// signed type they read the low bits in two's complement, and a negative
/// value cast to `u16` wraps around by the type's range.
proof fn lemma_casts_u16(x: u16, a8: i8, a16: i16) by (bit_vector)
    ensures
        x as u8 == x % 0x100,
        x % 0x100 < 0x80 ==> x as i8 == x % 0x100,
        x % 0x100 >= 0x80 ==> x as i8 == x % 0x100 - 0x100int,
        a8 < 0 ==> a8 as u16 == a8 + 0x10000int,
        (a8 as u16) as i8 == a8,
        x < 0x8000 ==> x as i16 == x,
        x >= 0x8000 ==> x as i16 == x - 0x10000int,
        a16 < 0 ==> a16 as u16 == a16 + 0x10000int,
        (a16 as u16) as i16 == a16,
{
}

/// Casts from `u32`: to a narrower unsigned type they keep the low bits, to a
/// signed type they read the low bits in two's complement, and a negative
/// value cast to `u32` wraps around by the type's range.
proof fn lemma_casts_u32(x: u32, a8: i8, a16: i16, a32: i32) by (bit_vector)
    ensures
        x as u8 == x % 0x100,
        x as u16 == x % 0x10000,
        x % 0x100 < 0x80 ==> x as i8 == x % 0x100,
        x % 0x100 >= 0x80 ==> x as i8 == x % 0x100 - 0x100int,
        a8 < 0 ==> a8 as u32 == a8 + 0x100000000int,
        (a8 as u32) as i8 == a8,
        x % 0x10000 < 0x8000 ==> x as i16 == x % 0x10000,
        x % 0x10000 >= 0x8000 ==> x as i16 == x % 0x10000 - 0x10000int,
        a16 < 0 ==> a16 as u32 == a16 + 0x100000000int,
        (a16 as u32) as i16 == a16,
        x < 0x80000000 ==> x as i32 == x,
        x >= 0x80000000 ==> x as i32 == x - 0x100000000int,
        a32 < 0 ==> a32 as u32 == a32 + 0x100000000int,
        (a32 as u32) as i32 == a32,
{
}

/// Casts from `u64`: to a narrower unsigned type they keep the low bits, to a
/// signed type they read the low bits in two's complement, and a negative
/// value cast to `u64` wraps around by the type's range.
proof fn lemma_casts_u64(x: u64, a8: i8, a16: i16, a32: i32, a64: i64) by (bit_vector)
    ensures
        x as u8 == x % 0x100,
        x as u16 == x % 0x10000,
        x as u32 == x % 0x100000000,
        x % 0x100 < 0x80 ==> x as i8 == x % 0x100,
        x % 0x100 >= 0x80 ==> x as i8 == x % 0x100 - 0x100int,
        a8 < 0 ==> a8 as u64 == a8 + 0x10000000000000000int,
        (a8 as u64) as i8 == a8,
        x % 0x10000 < 0x8000 ==> x as i16 == x % 0x10000,
        x % 0x10000 >= 0x8000 ==> x as i16 == x % 0x10000 - 0x10000int,
        a16 < 0 ==> a16 as u64 == a16 + 0x10000000000000000int,
        (a16 as u64) as i16 == a16,
        x % 0x100000000 < 0x80000000 ==> x as i32 == x % 0x100000000,
        x % 0x100000000 >= 0x80000000 ==> x as i32 == x % 0x100000000 - 0x100000000int,
        a32 < 0 ==> a32 as u64 == a32 + 0x10000000000000000int,
        (a32 as u64) as i32 == a32,
        x < 0x8000000000000000 ==> x as i64 == x,
        x >= 0x8000000000000000 ==> x as i64 == x - 0x10000000000000000int,
        a64 < 0 ==> a64 as u64 == a64 + 0x10000000000000000int,
        (a64 as u64) as i64 == a64,
{
}

/// Casts from `u128`: to a narrower unsigned type they keep the low bits, to a
/// signed type they read the low bits in two's complement, and a negative
/// value cast to `u128` wraps around by the type's range.
proof fn lemma_casts_u128(x: u128, a8: i8, a16: i16, a32: i32, a64: i64) by (bit_vector)
    ensures
        x as u8 == x % 0x100,
        x as u16 == x % 0x10000,
        x as u32 == x % 0x100000000,
        x as u64 == x % 0x10000000000000000,
        x % 0x100 < 0x80 ==> x as i8 == x % 0x100,
        x % 0x100 >= 0x80 ==> x as i8 == x % 0x100 - 0x100int,
        a8 < 0 ==> a8 as u128 == a8 + (u128::MAX as int + 1),
        (a8 as u128) as i8 == a8,
        x % 0x10000 < 0x8000 ==> x as i16 == x % 0x10000,
        x % 0x10000 >= 0x8000 ==> x as i16 == x % 0x10000 - 0x10000int,
        a16 < 0 ==> a16 as u128 == a16 + (u128::MAX as int + 1),
        (a16 as u128) as i16 == a16,
        x % 0x100000000 < 0x80000000 ==> x as i32 == x % 0x100000000,
        x % 0x100000000 >= 0x80000000 ==> x as i32 == x % 0x100000000 - 0x100000000int,
        a32 < 0 ==> a32 as u128 == a32 + (u128::MAX as int + 1),
        (a32 as u128) as i32 == a32,
        x % 0x10000000000000000 < 0x8000000000000000 ==> x as i64 == x % 0x10000000000000000,
        x % 0x10000000000000000 >= 0x8000000000000000
            ==> x as i64 == x % 0x10000000000000000 - 0x10000000000000000int,
        a64 < 0 ==> a64 as u128 == a64 + (u128::MAX as int + 1),
        (a64 as u128) as i64 == a64,
{
}

/// Converting raw `u8` bits to an integer keeps the bits that fit: an
/// unsigned target gets them modulo its range, a signed one reads them in
/// two's complement, and `bool` is `true` for any nonzero bits. Converting a
/// value to `u8` bits gives it modulo the range of `u8`, and converting
/// those bits back gives the value again.
pub proof fn law_from_bits_u8(bits: u8, v_bool: bool, v_u8: u8, v_i8: i8)
    ensures
        <bool as FromBits<u8>>::spec_from_bits(bits) == Ok::<bool, Infallible>(bits != 0),
        <bool as FromBits<u8>>::spec_into_bits(v_bool) as int == if v_bool { 1int } else { 0int },
        <bool as FromBits<u8>>::spec_from_bits(<bool as FromBits<u8>>::spec_into_bits(v_bool))
            == Ok::<bool, Infallible>(v_bool),
        <u8 as FromBits<u8>>::spec_from_bits(bits) matches Ok(r) && r as int == bits as int % 0x100,
        <u8 as FromBits<u8>>::spec_into_bits(v_u8) as int == v_u8 as int % 0x100,
        <u8 as FromBits<u8>>::spec_from_bits(<u8 as FromBits<u8>>::spec_into_bits(v_u8))
            == Ok::<u8, Infallible>(v_u8),
        <i8 as FromBits<u8>>::spec_from_bits(bits) matches Ok(r)
            && r as int == signed_low_bits(bits as int, 0x100),
        <i8 as FromBits<u8>>::spec_into_bits(v_i8) as int == v_i8 as int % 0x100,
        <i8 as FromBits<u8>>::spec_from_bits(<i8 as FromBits<u8>>::spec_into_bits(v_i8))
            == Ok::<i8, Infallible>(v_i8),
{
    lemma_casts_u8(bits, v_i8);
}

/// Converting raw `u16` bits to an integer keeps the bits that fit: an
/// unsigned target gets them modulo its range, a signed one reads them in
/// two's complement, and `bool` is `true` for any nonzero bits. Converting a
/// value to `u16` bits gives it modulo the range of `u16`, and converting
/// those bits back gives the value again.
pub proof fn law_from_bits_u16(bits: u16, v_bool: bool, v_u8: u8, v_u16: u16, v_i8: i8, v_i16: i16)
    ensures
        <bool as FromBits<u16>>::spec_from_bits(bits) == Ok::<bool, Infallible>(bits != 0),
        <bool as FromBits<u16>>::spec_into_bits(v_bool) as int == if v_bool { 1int } else { 0int },
        <bool as FromBits<u16>>::spec_from_bits(<bool as FromBits<u16>>::spec_into_bits(v_bool))
            == Ok::<bool, Infallible>(v_bool),
        <u8 as FromBits<u16>>::spec_from_bits(bits) matches Ok(r)
            && r as int == bits as int % 0x100,
        <u8 as FromBits<u16>>::spec_into_bits(v_u8) as int == v_u8 as int % 0x10000,
        <u8 as FromBits<u16>>::spec_from_bits(<u8 as FromBits<u16>>::spec_into_bits(v_u8))
            == Ok::<u8, Infallible>(v_u8),
        <u16 as FromBits<u16>>::spec_from_bits(bits) matches Ok(r)
            && r as int == bits as int % 0x10000,
        <u16 as FromBits<u16>>::spec_into_bits(v_u16) as int == v_u16 as int % 0x10000,
        <u16 as FromBits<u16>>::spec_from_bits(<u16 as FromBits<u16>>::spec_into_bits(v_u16))
            == Ok::<u16, Infallible>(v_u16),
        <i8 as FromBits<u16>>::spec_from_bits(bits) matches Ok(r)
            && r as int == signed_low_bits(bits as int, 0x100),
        <i8 as FromBits<u16>>::spec_into_bits(v_i8) as int == v_i8 as int % 0x10000,
        <i8 as FromBits<u16>>::spec_from_bits(<i8 as FromBits<u16>>::spec_into_bits(v_i8))
            == Ok::<i8, Infallible>(v_i8),
        <i16 as FromBits<u16>>::spec_from_bits(bits) matches Ok(r)
            && r as int == signed_low_bits(bits as int, 0x10000),
        <i16 as FromBits<u16>>::spec_into_bits(v_i16) as int == v_i16 as int % 0x10000,
        <i16 as FromBits<u16>>::spec_from_bits(<i16 as FromBits<u16>>::spec_into_bits(v_i16))
            == Ok::<i16, Infallible>(v_i16),
{
    lemma_casts_u16(bits, v_i8, v_i16);
}

/// Converting raw `u32` bits to an integer keeps the bits that fit: an
/// unsigned target gets them modulo its range, a signed one reads them in
/// two's complement, and `bool` is `true` for any nonzero bits. Converting a
/// value to `u32` bits gives it modulo the range of `u32`, and converting
/// those bits back gives the value again.
pub proof fn law_from_bits_u32(
    bits: u32,
    v_bool: bool,
    v_u8: u8,
    v_u16: u16,
    v_u32: u32,
    v_i8: i8,
    v_i16: i16,
    v_i32: i32,
)
    ensures
        <bool as FromBits<u32>>::spec_from_bits(bits) == Ok::<bool, Infallible>(bits != 0),
        <bool as FromBits<u32>>::spec_into_bits(v_bool) as int == if v_bool { 1int } else { 0int },
        <bool as FromBits<u32>>::spec_from_bits(<bool as FromBits<u32>>::spec_into_bits(v_bool))
            == Ok::<bool, Infallible>(v_bool),
        <u8 as FromBits<u32>>::spec_from_bits(bits) matches Ok(r)
            && r as int == bits as int % 0x100,
        <u8 as FromBits<u32>>::spec_into_bits(v_u8) as int == v_u8 as int % 0x100000000,
        <u8 as FromBits<u32>>::spec_from_bits(<u8 as FromBits<u32>>::spec_into_bits(v_u8))
            == Ok::<u8, Infallible>(v_u8),
        <u16 as FromBits<u32>>::spec_from_bits(bits) matches Ok(r)
            && r as int == bits as int % 0x10000,
        <u16 as FromBits<u32>>::spec_into_bits(v_u16) as int == v_u16 as int % 0x100000000,
        <u16 as FromBits<u32>>::spec_from_bits(<u16 as FromBits<u32>>::spec_into_bits(v_u16))
            == Ok::<u16, Infallible>(v_u16),
        <u32 as FromBits<u32>>::spec_from_bits(bits) matches Ok(r)
            && r as int == bits as int % 0x100000000,
        <u32 as FromBits<u32>>::spec_into_bits(v_u32) as int == v_u32 as int % 0x100000000,
        <u32 as FromBits<u32>>::spec_from_bits(<u32 as FromBits<u32>>::spec_into_bits(v_u32))
            == Ok::<u32, Infallible>(v_u32),
        <i8 as FromBits<u32>>::spec_from_bits(bits) matches Ok(r)
            && r as int == signed_low_bits(bits as int, 0x100),
        <i8 as FromBits<u32>>::spec_into_bits(v_i8) as int == v_i8 as int % 0x100000000,
        <i8 as FromBits<u32>>::spec_from_bits(<i8 as FromBits<u32>>::spec_into_bits(v_i8))
            == Ok::<i8, Infallible>(v_i8),
        <i16 as FromBits<u32>>::spec_from_bits(bits) matches Ok(r)
            && r as int == signed_low_bits(bits as int, 0x10000),
        <i16 as FromBits<u32>>::spec_into_bits(v_i16) as int == v_i16 as int % 0x100000000,
        <i16 as FromBits<u32>>::spec_from_bits(<i16 as FromBits<u32>>::spec_into_bits(v_i16))
            == Ok::<i16, Infallible>(v_i16),
        <i32 as FromBits<u32>>::spec_from_bits(bits) matches Ok(r)
            && r as int == signed_low_bits(bits as int, 0x100000000),
        <i32 as FromBits<u32>>::spec_into_bits(v_i32) as int == v_i32 as int % 0x100000000,
        <i32 as FromBits<u32>>::spec_from_bits(<i32 as FromBits<u32>>::spec_into_bits(v_i32))
            == Ok::<i32, Infallible>(v_i32),
{
    lemma_casts_u32(bits, v_i8, v_i16, v_i32);
}

/// Converting raw `u64` bits to an integer keeps the bits that fit: an
/// unsigned target gets them modulo its range, a signed one reads them in
/// two's complement, and `bool` is `true` for any nonzero bits. Converting a
/// value to `u64` bits gives it modulo the range of `u64`, and converting
/// those bits back gives the value again.
pub proof fn law_from_bits_u64(
    bits: u64,
    v_bool: bool,
    v_u8: u8,
    v_u16: u16,
    v_u32: u32,
    v_u64: u64,
    v_i8: i8,
    v_i16: i16,
    v_i32: i32,
    v_i64: i64,
    v_usize: usize,
    v_isize: isize,
)
    ensures
        <bool as FromBits<u64>>::spec_from_bits(bits) == Ok::<bool, Infallible>(bits != 0),
        <bool as FromBits<u64>>::spec_into_bits(v_bool) as int == if v_bool { 1int } else { 0int },
        <bool as FromBits<u64>>::spec_from_bits(<bool as FromBits<u64>>::spec_into_bits(v_bool))
            == Ok::<bool, Infallible>(v_bool),
        <u8 as FromBits<u64>>::spec_from_bits(bits) matches Ok(r)
            && r as int == bits as int % 0x100,
        <u8 as FromBits<u64>>::spec_into_bits(v_u8) as int == v_u8 as int % 0x10000000000000000,
        <u8 as FromBits<u64>>::spec_from_bits(<u8 as FromBits<u64>>::spec_into_bits(v_u8))
            == Ok::<u8, Infallible>(v_u8),
        <u16 as FromBits<u64>>::spec_from_bits(bits) matches Ok(r)
            && r as int == bits as int % 0x10000,
        <u16 as FromBits<u64>>::spec_into_bits(v_u16) as int == v_u16 as int % 0x10000000000000000,
        <u16 as FromBits<u64>>::spec_from_bits(<u16 as FromBits<u64>>::spec_into_bits(v_u16))
            == Ok::<u16, Infallible>(v_u16),
        <u32 as FromBits<u64>>::spec_from_bits(bits) matches Ok(r)
            && r as int == bits as int % 0x100000000,
        <u32 as FromBits<u64>>::spec_into_bits(v_u32) as int == v_u32 as int % 0x10000000000000000,
        <u32 as FromBits<u64>>::spec_from_bits(<u32 as FromBits<u64>>::spec_into_bits(v_u32))
            == Ok::<u32, Infallible>(v_u32),
        <u64 as FromBits<u64>>::spec_from_bits(bits) matches Ok(r)
            && r as int == bits as int % 0x10000000000000000,
        <u64 as FromBits<u64>>::spec_into_bits(v_u64) as int == v_u64 as int % 0x10000000000000000,
        <u64 as FromBits<u64>>::spec_from_bits(<u64 as FromBits<u64>>::spec_into_bits(v_u64))
            == Ok::<u64, Infallible>(v_u64),
        <i8 as FromBits<u64>>::spec_from_bits(bits) matches Ok(r)
            && r as int == signed_low_bits(bits as int, 0x100),
        <i8 as FromBits<u64>>::spec_into_bits(v_i8) as int == v_i8 as int % 0x10000000000000000,
        <i8 as FromBits<u64>>::spec_from_bits(<i8 as FromBits<u64>>::spec_into_bits(v_i8))
            == Ok::<i8, Infallible>(v_i8),
        <i16 as FromBits<u64>>::spec_from_bits(bits) matches Ok(r)
            && r as int == signed_low_bits(bits as int, 0x10000),
        <i16 as FromBits<u64>>::spec_into_bits(v_i16) as int == v_i16 as int % 0x10000000000000000,
        <i16 as FromBits<u64>>::spec_from_bits(<i16 as FromBits<u64>>::spec_into_bits(v_i16))
            == Ok::<i16, Infallible>(v_i16),
        <i32 as FromBits<u64>>::spec_from_bits(bits) matches Ok(r)
            && r as int == signed_low_bits(bits as int, 0x100000000),
        <i32 as FromBits<u64>>::spec_into_bits(v_i32) as int == v_i32 as int % 0x10000000000000000,
        <i32 as FromBits<u64>>::spec_from_bits(<i32 as FromBits<u64>>::spec_into_bits(v_i32))
            == Ok::<i32, Infallible>(v_i32),
        <i64 as FromBits<u64>>::spec_from_bits(bits) matches Ok(r)
            && r as int == signed_low_bits(bits as int, 0x10000000000000000),
        <i64 as FromBits<u64>>::spec_into_bits(v_i64) as int == v_i64 as int % 0x10000000000000000,
        <i64 as FromBits<u64>>::spec_from_bits(<i64 as FromBits<u64>>::spec_into_bits(v_i64))
            == Ok::<i64, Infallible>(v_i64),
        <usize as FromBits<u64>>::spec_from_bits(bits) matches Ok(r)
            && r as int == bits as int % (usize::MAX as int + 1),
        <usize as FromBits<u64>>::spec_into_bits(v_usize) as int
            == v_usize as int % 0x10000000000000000,
        <usize as FromBits<u64>>::spec_from_bits(<usize as FromBits<u64>>::spec_into_bits(v_usize))
            == Ok::<usize, Infallible>(v_usize),
        <isize as FromBits<u64>>::spec_from_bits(bits) matches Ok(r)
            && r as int == signed_low_bits(bits as int, (usize::MAX as int + 1)),
        <isize as FromBits<u64>>::spec_into_bits(v_isize) as int
            == v_isize as int % 0x10000000000000000,
        <isize as FromBits<u64>>::spec_from_bits(<isize as FromBits<u64>>::spec_into_bits(v_isize))
            == Ok::<isize, Infallible>(v_isize),
{
    lemma_casts_u64(bits, v_i8, v_i16, v_i32, v_i64);
    if usize::BITS == 64 {
        lemma_casts_u64(bits, v_i8, v_i16, v_i32, v_isize as i64);
    } else {
        lemma_casts_u64(bits, v_i8, v_i16, v_isize as i32, v_i64);
    }
}

/// Converting raw `u128` bits to an integer keeps the bits that fit: an
/// unsigned target gets them modulo its range, a signed one reads them in
/// two's complement, and `bool` is `true` for any nonzero bits. Converting a
/// value to `u128` bits gives it modulo the range of `u128`, and converting
/// those bits back gives the value again.
pub proof fn law_from_bits_u128(
    bits: u128,
    v_bool: bool,
    v_u8: u8,
    v_u16: u16,
    v_u32: u32,
    v_u64: u64,
    v_u128: u128,
    v_i8: i8,
    v_i16: i16,
    v_i32: i32,
    v_i64: i64,
    v_usize: usize,
)
    ensures
        <bool as FromBits<u128>>::spec_from_bits(bits) == Ok::<bool, Infallible>(bits != 0),
        <bool as FromBits<u128>>::spec_into_bits(v_bool) as int == if v_bool { 1int } else { 0int },
        <bool as FromBits<u128>>::spec_from_bits(<bool as FromBits<u128>>::spec_into_bits(v_bool))
            == Ok::<bool, Infallible>(v_bool),
        <u8 as FromBits<u128>>::spec_from_bits(bits) matches Ok(r)
            && r as int == bits as int % 0x100,
        <u8 as FromBits<u128>>::spec_into_bits(v_u8) as int == v_u8 as int % (u128::MAX as int + 1),
        <u8 as FromBits<u128>>::spec_from_bits(<u8 as FromBits<u128>>::spec_into_bits(v_u8))
            == Ok::<u8, Infallible>(v_u8),
        <u16 as FromBits<u128>>::spec_from_bits(bits) matches Ok(r)
            && r as int == bits as int % 0x10000,
        <u16 as FromBits<u128>>::spec_into_bits(v_u16) as int
            == v_u16 as int % (u128::MAX as int + 1),
        <u16 as FromBits<u128>>::spec_from_bits(<u16 as FromBits<u128>>::spec_into_bits(v_u16))
            == Ok::<u16, Infallible>(v_u16),
        <u32 as FromBits<u128>>::spec_from_bits(bits) matches Ok(r)
            && r as int == bits as int % 0x100000000,
        <u32 as FromBits<u128>>::spec_into_bits(v_u32) as int
            == v_u32 as int % (u128::MAX as int + 1),
        <u32 as FromBits<u128>>::spec_from_bits(<u32 as FromBits<u128>>::spec_into_bits(v_u32))
            == Ok::<u32, Infallible>(v_u32),
        <u64 as FromBits<u128>>::spec_from_bits(bits) matches Ok(r)
            && r as int == bits as int % 0x10000000000000000,
        <u64 as FromBits<u128>>::spec_into_bits(v_u64) as int
            == v_u64 as int % (u128::MAX as int + 1),
        <u64 as FromBits<u128>>::spec_from_bits(<u64 as FromBits<u128>>::spec_into_bits(v_u64))
            == Ok::<u64, Infallible>(v_u64),
        <u128 as FromBits<u128>>::spec_from_bits(bits) matches Ok(r)
            && r as int == bits as int % (u128::MAX as int + 1),
        <u128 as FromBits<u128>>::spec_into_bits(v_u128) as int
            == v_u128 as int % (u128::MAX as int + 1),
        <u128 as FromBits<u128>>::spec_from_bits(<u128 as FromBits<u128>>::spec_into_bits(v_u128))
            == Ok::<u128, Infallible>(v_u128),
        <i8 as FromBits<u128>>::spec_from_bits(bits) matches Ok(r)
            && r as int == signed_low_bits(bits as int, 0x100),
        <i8 as FromBits<u128>>::spec_into_bits(v_i8) as int == v_i8 as int % (u128::MAX as int + 1),
        <i8 as FromBits<u128>>::spec_from_bits(<i8 as FromBits<u128>>::spec_into_bits(v_i8))
            == Ok::<i8, Infallible>(v_i8),
        <i16 as FromBits<u128>>::spec_from_bits(bits) matches Ok(r)
            && r as int == signed_low_bits(bits as int, 0x10000),
        <i16 as FromBits<u128>>::spec_into_bits(v_i16) as int
            == v_i16 as int % (u128::MAX as int + 1),
        <i16 as FromBits<u128>>::spec_from_bits(<i16 as FromBits<u128>>::spec_into_bits(v_i16))
            == Ok::<i16, Infallible>(v_i16),
        <i32 as FromBits<u128>>::spec_from_bits(bits) matches Ok(r)
            && r as int == signed_low_bits(bits as int, 0x100000000),
        <i32 as FromBits<u128>>::spec_into_bits(v_i32) as int
            == v_i32 as int % (u128::MAX as int + 1),
        <i32 as FromBits<u128>>::spec_from_bits(<i32 as FromBits<u128>>::spec_into_bits(v_i32))
            == Ok::<i32, Infallible>(v_i32),
        <i64 as FromBits<u128>>::spec_from_bits(bits) matches Ok(r)
            && r as int == signed_low_bits(bits as int, 0x10000000000000000),
        <i64 as FromBits<u128>>::spec_into_bits(v_i64) as int
            == v_i64 as int % (u128::MAX as int + 1),
        <i64 as FromBits<u128>>::spec_from_bits(<i64 as FromBits<u128>>::spec_into_bits(v_i64))
            == Ok::<i64, Infallible>(v_i64),
        <usize as FromBits<u128>>::spec_from_bits(bits) matches Ok(r)
            && r as int == bits as int % (usize::MAX as int + 1),
        <usize as FromBits<u128>>::spec_into_bits(v_usize) as int
            == v_usize as int % (u128::MAX as int + 1),
        <usize as FromBits<u128>>::spec_from_bits(<usize as FromBits<u128>>::spec_into_bits(v_usize)) == Ok::<usize, Infallible>(v_usize),
{
    lemma_casts_u128(bits, v_i8, v_i16, v_i32, v_i64);
}

/// Converting raw `usize` bits to an integer keeps the bits that fit: an
/// unsigned target gets them modulo its range, a signed one reads them in
/// two's complement, and `bool` is `true` for any nonzero bits. Converting a
/// value to `usize` bits gives it modulo the range of `usize`, and converting
/// those bits back gives the value again.
pub proof fn law_from_bits_usize(
    bits: usize,
    v_bool: bool,
    v_u8: u8,
    v_i8: i8,
    v_u16: u16,
    v_i16: i16,
    v_usize: usize,
    v_isize: isize,
    v_u32: u32,
    v_i32: i32,
    v_u64: u64,
    v_i64: i64,
)
    ensures
        <bool as FromBits<usize>>::spec_from_bits(bits) == Ok::<bool, Infallible>(bits != 0),
        <bool as FromBits<usize>>::spec_into_bits(v_bool) as int
            == if v_bool { 1int } else { 0int },
        <bool as FromBits<usize>>::spec_from_bits(<bool as FromBits<usize>>::spec_into_bits(v_bool))
            == Ok::<bool, Infallible>(v_bool),
        <u8 as FromBits<usize>>::spec_from_bits(bits) matches Ok(r)
            && r as int == bits as int % 0x100,
        <u8 as FromBits<usize>>::spec_into_bits(v_u8) as int
            == v_u8 as int % (usize::MAX as int + 1),
        <u8 as FromBits<usize>>::spec_from_bits(<u8 as FromBits<usize>>::spec_into_bits(v_u8))
            == Ok::<u8, Infallible>(v_u8),
        <i8 as FromBits<usize>>::spec_from_bits(bits) matches Ok(r)
            && r as int == signed_low_bits(bits as int, 0x100),
        <i8 as FromBits<usize>>::spec_into_bits(v_i8) as int
            == v_i8 as int % (usize::MAX as int + 1),
        <i8 as FromBits<usize>>::spec_from_bits(<i8 as FromBits<usize>>::spec_into_bits(v_i8))
            == Ok::<i8, Infallible>(v_i8),
        <u16 as FromBits<usize>>::spec_from_bits(bits) matches Ok(r)
            && r as int == bits as int % 0x10000,
        <u16 as FromBits<usize>>::spec_into_bits(v_u16) as int
            == v_u16 as int % (usize::MAX as int + 1),
        <u16 as FromBits<usize>>::spec_from_bits(<u16 as FromBits<usize>>::spec_into_bits(v_u16))
            == Ok::<u16, Infallible>(v_u16),
        <i16 as FromBits<usize>>::spec_from_bits(bits) matches Ok(r)
            && r as int == signed_low_bits(bits as int, 0x10000),
        <i16 as FromBits<usize>>::spec_into_bits(v_i16) as int
            == v_i16 as int % (usize::MAX as int + 1),
        <i16 as FromBits<usize>>::spec_from_bits(<i16 as FromBits<usize>>::spec_into_bits(v_i16))
            == Ok::<i16, Infallible>(v_i16),
        <usize as FromBits<usize>>::spec_from_bits(bits) matches Ok(r)
            && r as int == bits as int % (usize::MAX as int + 1),
        <usize as FromBits<usize>>::spec_into_bits(v_usize) as int
            == v_usize as int % (usize::MAX as int + 1),
        <usize as FromBits<usize>>::spec_from_bits(<usize as FromBits<usize>>::spec_into_bits(v_usize)) == Ok::<usize, Infallible>(v_usize),
        <isize as FromBits<usize>>::spec_from_bits(bits) matches Ok(r)
            && r as int == signed_low_bits(bits as int, (usize::MAX as int + 1)),
        <isize as FromBits<usize>>::spec_into_bits(v_isize) as int
            == v_isize as int % (usize::MAX as int + 1),
        <isize as FromBits<usize>>::spec_from_bits(<isize as FromBits<usize>>::spec_into_bits(v_isize)) == Ok::<isize, Infallible>(v_isize),
        <u32 as FromBits<usize>>::spec_from_bits(bits) matches Ok(r)
            && r as int == bits as int % 0x100000000,
        <u32 as FromBits<usize>>::spec_into_bits(v_u32) as int
            == v_u32 as int % (usize::MAX as int + 1),
        <u32 as FromBits<usize>>::spec_from_bits(<u32 as FromBits<usize>>::spec_into_bits(v_u32))
            == Ok::<u32, Infallible>(v_u32),
        <i32 as FromBits<usize>>::spec_from_bits(bits) matches Ok(r)
            && r as int == signed_low_bits(bits as int, 0x100000000),
        <i32 as FromBits<usize>>::spec_into_bits(v_i32) as int
            == v_i32 as int % (usize::MAX as int + 1),
        <i32 as FromBits<usize>>::spec_from_bits(<i32 as FromBits<usize>>::spec_into_bits(v_i32))
            == Ok::<i32, Infallible>(v_i32),
        <u64 as FromBits<usize>>::spec_from_bits(bits) matches Ok(r)
            && r as int == bits as int % 0x10000000000000000,
        usize::BITS == 64
            ==> <u64 as FromBits<usize>>::spec_into_bits(v_u64) as int
                == v_u64 as int % (usize::MAX as int + 1),
        usize::BITS == 64
            ==> <u64 as FromBits<usize>>::spec_from_bits(<u64 as FromBits<usize>>::spec_into_bits(v_u64)) == Ok::<u64, Infallible>(v_u64),
        <i64 as FromBits<usize>>::spec_from_bits(bits) matches Ok(r)
            && r as int == signed_low_bits(bits as int, 0x10000000000000000),
        usize::BITS == 64
            ==> <i64 as FromBits<usize>>::spec_into_bits(v_i64) as int
                == v_i64 as int % (usize::MAX as int + 1),
        usize::BITS == 64
            ==> <i64 as FromBits<usize>>::spec_from_bits(<i64 as FromBits<usize>>::spec_into_bits(v_i64)) == Ok::<i64, Infallible>(v_i64),
{
    if usize::BITS == 64 {
        assert(usize::MAX as int + 1 == 0x1_0000_0000_0000_0000);
        lemma_casts_u64(bits as u64, v_i8, v_i16, v_i32, v_i64);
        lemma_casts_u64(bits as u64, v_i8, v_i16, v_i32, v_isize as i64);
    } else {
        assert(usize::MAX as int + 1 == 0x1_0000_0000);
        lemma_casts_u32(bits as u32, v_i8, v_i16, v_i32);
        lemma_casts_u32(bits as u32, v_i8, v_i16, v_isize as i32);
    }
}

} // verus!
