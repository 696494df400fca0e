//! Packing specs: descriptions of a range of bits within a `usize`, used to
//! pack values into that range and unpack them from it.
use vstd::prelude::*;

use core::marker::PhantomData;

use vstd::arithmetic::power2::{pow2, lemma_pow2_unfold, lemma_pow2_pos};

use crate::from_bits::FromBits;
use crate::math::{bit_len, msb_index};

verus! {

/// The value with the `n` least-significant bits set (all bits, from the
/// width of `usize` on).
pub open spec fn ones(n: nat) -> usize {
    if n >= usize::BITS {
        usize::MAX
    } else {
        (pow2(n) - 1) as usize
    }
}

/// The mask of the first `n` bits that a packing spec is built from. Like a
/// wrapping shift, a width beyond that of `usize` wraps around.
pub open spec fn mask_of_width(n: u32) -> usize {
    if n == 0 {
        0
    } else {
        ones(((n - 1) as int % usize::BITS as int + 1) as nat)
    }
}

/// The checks that make the spec of `mask` from bit `shift` on usable: the
/// shift and the packed bits fit in a `usize`, and the mask ends where its
/// bits, counted from the shift, end.
pub open spec fn spec_valid(mask: usize, shift: u32) -> bool {
    let bits = bit_len((mask >> shift) as nat);
    let end = bit_len(mask as nat);
    &&& shift < usize::BITS
    &&& bits <= usize::BITS
    &&& bits + shift <= usize::BITS
    &&& end >= shift
    &&& end - shift == bits
}

/// A spec for packing a value into a range of bits of a `usize`: the bits
/// of `mask`, the lowest of which is bit `shift`. `T` is the type of the
/// values packed.
pub struct PackUsize<T> {
    mask: usize,
    shift: u32,
    _ty: PhantomData<T>,
}

impl<T> Clone for PackUsize<T> {
    fn clone(&self) -> (r: Self)
        ensures
            r == *self,
    {
        PackUsize { mask: self.mask, shift: self.shift, _ty: PhantomData }
    }
}

impl<T> Copy for PackUsize<T> {

}

impl<T> PackUsize<T> {
    /// The mask of the packed bits, in place.
    pub closed spec fn mask_spec(&self) -> usize {
        self.mask
    }

    /// The index of the lowest packed bit.
    pub closed spec fn shift_spec(&self) -> u32 {
        self.shift
    }

    /// The number of bits packed: the bit length of the mask shifted down.
    pub open spec fn bits_spec(&self) -> nat {
        bit_len((self.mask_spec() >> self.shift_spec()) as nat)
    }

    /// The index one past the highest packed bit.
    pub open spec fn end_spec(&self) -> nat {
        bit_len(self.mask_spec() as nat)
    }

    /// The checks that make a spec usable (see [`spec_valid`]).
    pub open spec fn valid(&self) -> bool {
        spec_valid(self.mask_spec(), self.shift_spec())
    }

    /// The mask is exactly the `bits_spec()` bits from the shift on, and a
    /// value of that many bits still leaves a bit to spare.
    pub open spec fn contiguous(&self) -> bool {
        &&& self.shift_spec() < usize::BITS
        &&& self.bits_spec() < usize::BITS
        &&& self.bits_spec() + self.shift_spec() <= usize::BITS
        &&& self.mask_spec() == ones(self.bits_spec()) << self.shift_spec()
    }

    /// `value` packed into `base`: the spec's bits of `base` replaced by the
    /// low `bits_spec()` bits of `value`.
    pub open spec fn pack_spec(&self, value: usize, base: usize) -> usize {
        (base & !self.mask_spec()) | ((value & ones(self.bits_spec())) << self.shift_spec())
    }

    /// The bits of `src` in this spec's range, shifted down.
    pub open spec fn unpack_spec(&self, src: usize) -> usize {
        (src & self.mask_spec()) >> self.shift_spec()
    }

    /// Returns a value with the first `n` bits set.
    fn mk_mask(n: u32) -> (r: usize)
        ensures
            r == mask_of_width(n),
    {
        if n == 0 {
            return 0;
        }
        let k = (n - 1) % usize::BITS;
        proof {
            vstd::bits::lemma_usize_pow2_no_overflow(k as nat);
            vstd::bits::lemma_usize_shl_is_mul(1, k as usize);
        }
        let s: usize = 1usize << k;
        proof {
            lemma_or_below(k);
            lemma_pow2_unfold((k + 1) as nat);
            lemma_pow2_full();
        }
        s | (s - 1)
    }

    /// Returns a spec packing into the `n` least-significant bits.
    pub fn least_significant(n: u32) -> (r: Self)
        ensures
            r.mask_spec() == mask_of_width(n),
            r.shift_spec() == 0,
    {
        PackUsize { mask: Self::mk_mask(n), shift: 0, _ty: PhantomData }
    }

    /// The index one past the highest bit of this spec.
    fn shift_next(&self) -> (r: u32)
        ensures
            r == self.end_spec(),
            r <= usize::BITS,
    {
        msb_index(self.mask)
    }

    /// Returns this spec for values of type `T2`, which need at most as many
    /// bits as the spec holds.
    pub fn typed<T2: FromBits<usize>>(self) -> (r: PackUsize<T2>)
        requires
            self.shift_spec() < usize::BITS,
            T2::BITS >= self.bits_spec(),
        ensures
            r.mask_spec() == self.mask_spec(),
            r.shift_spec() == self.shift_spec(),
    {
        PackUsize { mask: self.mask, shift: self.shift, _ty: PhantomData }
    }

    /// Returns the number of bits packed.
    pub fn bits(&self) -> (r: u32)
        requires
            self.shift_spec() < usize::BITS,
        ensures
            r == self.bits_spec(),
    {
        msb_index(self.mask >> self.shift)
    }

    /// Returns the largest value the spec packs: all its bits set.
    pub fn max_value(&self) -> (r: usize)
        requires
            self.shift_spec() < usize::BITS,
            self.bits_spec() < usize::BITS,
        ensures
            r == ones(self.bits_spec()),
    {
        let b = self.bits();
        proof {
            vstd::bits::lemma_usize_pow2_no_overflow(b as nat);
            vstd::bits::lemma_usize_shl_is_mul(1, b as usize);
        }
        (1usize << b) - 1
    }

    /// Returns a value with the first bit of this spec set.
    pub fn first_bit(&self) -> (r: usize)
        requires
            self.shift_spec() < usize::BITS,
        ensures
            r == pow2(self.shift_spec() as nat),
    {
        proof {
            vstd::bits::lemma_usize_pow2_no_overflow(self.shift as nat);
            vstd::bits::lemma_usize_shl_is_mul(1, self.shift as usize);
        }
        1usize << self.shift
    }

    /// Returns the mask of this spec's bits, in place.
    pub fn raw_mask(&self) -> (r: usize)
        ensures
            r == self.mask_spec(),
    {
        self.mask
    }

    /// Packs the low `bits()` bits of `value` into `base`; more significant
    /// bits of `value` are ignored.
    pub fn pack_truncating(&self, value: usize, base: usize) -> (r: usize)
        requires
            self.shift_spec() < usize::BITS,
            self.bits_spec() < usize::BITS,
        ensures
            r == self.pack_spec(value, base),
    {
        let value = value & self.max_value();
        let rest = base & !self.mask;
        rest | (value << self.shift)
    }

    /// Returns a spec for the `n` bits after this one's.
    pub fn next(&self, n: u32) -> (r: PackUsize<usize>)
        requires
            self.end_spec() < usize::BITS,
        ensures
            r.shift_spec() == self.end_spec(),
            r.mask_spec() == mask_of_width(n) << self.end_spec(),
    {
        let shift = self.shift_next();
        let mask = Self::mk_mask(n) << shift;
        PackUsize { mask, shift, _ty: PhantomData }
    }

    /// Returns a spec for all the bits after this one's.
    pub fn remaining(&self) -> (r: PackUsize<usize>)
        requires
            self.end_spec() < usize::BITS,
        ensures
            r.shift_spec() == self.end_spec(),
            r.mask_spec() == mask_of_width((usize::BITS - self.end_spec()) as u32)
                << self.end_spec(),
    {
        let shift = self.shift_next();
        let n = usize::BITS - shift;
        let mask = Self::mk_mask(n) << shift;
        PackUsize { mask, shift, _ty: PhantomData }
    }

    /// Sets all of this spec's bits in `base`.
    pub fn set_all(&self, base: usize) -> (r: usize)
        requires
            self.shift_spec() < usize::BITS,
            self.bits_spec() < usize::BITS,
        ensures
            r == self.pack_spec(ones(self.bits_spec()), base),
    {
        self.pack_truncating(self.max_value(), base)
    }

    /// Clears all of this spec's bits in `base`.
    pub fn unset_all(&self, base: usize) -> (r: usize)
        ensures
            r == base & !self.mask_spec(),
    {
        base & !self.mask
    }

    /// Returns this spec's bits of `src`, shifted down.
    pub fn unpack_bits(&self, src: usize) -> (r: usize)
        requires
            self.shift_spec() < usize::BITS,
        ensures
            r == self.unpack_spec(src),
    {
        (src & self.mask) >> self.shift
    }

    /// Returns `true` if any of this spec's bits are set in `bits`.
    pub fn contained_in_any(&self, bits: usize) -> (r: bool)
        ensures
            r == (bits & self.mask_spec() != 0),
    {
        bits & self.mask != 0
    }

    /// Returns `true` if all of this spec's bits are set in `bits`.
    pub fn contained_in_all(&self, bits: usize) -> (r: bool)
        ensures
            r == (bits & self.mask_spec() == self.mask_spec()),
    {
        bits & self.mask == self.mask
    }

    /// Returns the index of the lowest bit of this spec.
    pub fn least_significant_index(&self) -> (r: u32)
        ensures
            r == self.shift_spec(),
    {
        self.shift
    }

    /// Returns the index one past the highest bit of this spec.
    pub fn most_significant_index(&self) -> (r: u32)
        ensures
            r == self.end_spec(),
    {
        msb_index(self.mask)
    }

    /// Checks, when verifying the caller, that this spec is valid; calling it
    /// on a spec not known to be valid does not verify.
    pub fn assert_valid(&self)
        requires
            self.valid(),
    {
    }
}

impl<T: FromBits<usize>> PackUsize<T> {
    /// Returns a spec packing a `T` into the `T::BITS` least-significant
    /// bits.
    pub fn first() -> (r: Self)
        requires
            0 < T::BITS <= usize::BITS,
        ensures
            r.mask_spec() == ones(T::BITS as nat),
            r.shift_spec() == 0,
    {
        let p = PackUsize::<usize>::least_significant(T::BITS);
        proof {
            lemma_bit_len_ones(T::BITS as nat);
            let m = p.mask_spec();
            assert(m >> 0u32 == m) by (bit_vector);
        }
        p.typed()
    }

    /// Returns a spec packing a `T2` into the `T2::BITS` bits after this
    /// spec's.
    pub fn followed_by<T2: FromBits<usize>>(&self) -> (r: PackUsize<T2>)
        requires
            self.end_spec() + T2::BITS <= usize::BITS,
            0 < T2::BITS,
        ensures
            r.shift_spec() == self.end_spec(),
            r.mask_spec() == ones(T2::BITS as nat) << self.end_spec(),
    {
        let p = self.next(T2::BITS);
        proof {
            lemma_bit_len_ones(T2::BITS as nat);
            lemma_shl_shr_ones(T2::BITS as nat, self.end_spec() as u32);
        }
        p.typed()
    }

    /// Packs `value` into `base`. The value's bits must fit in the spec.
    pub fn pack(&self, value: T, base: usize) -> (r: usize)
        requires
            self.shift_spec() < usize::BITS,
            self.bits_spec() < usize::BITS,
            value.spec_into_bits() <= ones(self.bits_spec()),
        ensures
            r == self.pack_spec(value.spec_into_bits(), base),
    {
        let v = value.into_bits();
        self.pack_truncating(v, base)
    }

    /// Unpacks a `T` from `src`, or returns the error of `T`'s
    /// `try_from_bits` if the bits are not a valid `T`.
    pub fn try_unpack(&self, src: usize) -> (r: Result<T, T::Error>)
        requires
            self.shift_spec() < usize::BITS,
            T::accepts_bits(self.unpack_spec(src)),
        ensures
            r == T::spec_from_bits(self.unpack_spec(src)),
    {
        T::try_from_bits(self.unpack_bits(src))
    }

    /// Unpacks a `T` from `src`, whose bits must be a valid `T`.
    pub fn unpack(&self, src: usize) -> (r: T)
        requires
            self.shift_spec() < usize::BITS,
            T::accepts_bits(self.unpack_spec(src)),
            T::spec_from_bits(self.unpack_spec(src)) is Ok,
        ensures
            T::spec_from_bits(self.unpack_spec(src)) == Ok::<T, T::Error>(r),
    {
        match T::try_from_bits(self.unpack_bits(src)) {
            Ok(v) => v,
            Err(_) => vstd::pervasive::unreached(),
        }
    }
}

/// Packing a value and unpacking it again gives back its low `bits_spec()`
/// bits, and packing leaves every bit outside the spec as it was.
pub proof fn law_pack_unpack<T>(p: PackUsize<T>, value: usize, base: usize)
    requires
        p.contiguous(),
    ensures
        p.unpack_spec(p.pack_spec(value, base)) == value & ones(p.bits_spec()),
        p.pack_spec(value, base) & !p.mask_spec() == base & !p.mask_spec(),
{
    let k = p.bits_spec();
    let s = p.shift_spec();
    lemma_ones_shl(k);
    let m = ones(k);
    lemma_pack_bits(base, value, m, k as u32, s);
}

/// `s | (s - 1)` for `s = 2^k` is the `k + 1` low bits.
proof fn lemma_or_below(k: u32)
    requires
        k < usize::BITS,
    ensures
        (1usize << k) | ((1usize << k) - 1) as usize == (1usize << k) + ((1usize << k) - 1),
{
    assert((1usize << k) | ((1usize << k) - 1) as usize == (1usize << k) + ((1usize << k) - 1))
        by (bit_vector)
        requires
            k < usize::BITS,
    ;
}

/// `2^BITS` is one past `usize::MAX`.
proof fn lemma_pow2_full()
    ensures
        pow2(usize::BITS as nat) == usize::MAX + 1,
{
    vstd::arithmetic::power2::lemma2_to64();
    vstd::arithmetic::power2::lemma2_to64_rest();
}

/// For fewer bits than the width of `usize`, the mask of `k` ones is
/// `(1 << k) - 1`.
proof fn lemma_ones_shl(k: nat)
    requires
        k < usize::BITS,
    ensures
        ones(k) == (1usize << (k as u32)) - 1,
{
    vstd::bits::lemma_usize_pow2_no_overflow(k);
    vstd::bits::lemma_usize_shl_is_mul(1, k as usize);
}

/// The bits of a packed value: packing the low bits `m = (1 << k) - 1` of
/// `v` at `s` and masking them out again gives them back, and leaves `base`
/// outside the mask.
proof fn lemma_pack_bits(base: usize, v: usize, m: usize, k: u32, s: u32)
    requires
        k < usize::BITS,
        s < usize::BITS,
        k + s <= usize::BITS,
        m == (1usize << k) - 1,
    ensures
        ((((base & !(m << s)) | ((v & m) << s)) & (m << s)) >> s) == v & m,
        (((base & !(m << s)) | ((v & m) << s)) & !(m << s)) == base & !(m << s),
{
    assert(((((base & !(m << s)) | ((v & m) << s)) & (m << s)) >> s) == v & m
        && (((base & !(m << s)) | ((v & m) << s)) & !(m << s)) == base & !(m << s))
        by (bit_vector)
        requires
            k < usize::BITS,
            s < usize::BITS,
            k + s <= usize::BITS,
            m == (1usize << k) - 1,
    ;
}

/// `k` ones have bit length `k`.
pub proof fn lemma_bit_len_ones(k: nat)
    requires
        k <= usize::BITS,
    ensures
        bit_len(ones(k) as nat) == k,
        k > 0 ==> mask_of_width(k as u32) == ones(k),
    decreases k,
{
    lemma_pow2_full();
    vstd::arithmetic::power2::lemma2_to64();
    if k > 0 {
        lemma_pow2_unfold(k);
        let a = pow2((k - 1) as nat);
        lemma_pow2_pos((k - 1) as nat);
        vstd::bits::lemma_usize_pow2_no_overflow((k - 1) as nat);
        if k < usize::BITS {
            vstd::bits::lemma_usize_pow2_no_overflow(k);
        }
        assert(ones(k) as int == 2 * a - 1);
        assert(ones((k - 1) as nat) as int == a - 1);
        assert((2 * a - 1) / 2 == a - 1);
        assert(ones(k) as nat > 0);
        assert((ones(k) as nat) / 2 == ones((k - 1) as nat) as nat);
        lemma_bit_len_ones((k - 1) as nat);
        assert(bit_len(ones(k) as nat) == 1 + bit_len((ones(k) as nat) / 2));
    }
}

/// Shifting `k` ones up by `s` and back down gives them back, when they fit.
proof fn lemma_shl_shr_ones(k: nat, s: u32)
    requires
        k + s <= usize::BITS,
        0 < k,
    ensures
        (ones(k) << s) >> s == ones(k),
{
    lemma_pow2_full();
    if k < usize::BITS {
        lemma_ones_shl(k);
        let kk = k as u32;
        assert(((((1usize << kk) - 1) as usize) << s) >> s == ((1usize << kk) - 1) as usize)
            by (bit_vector)
            requires
                kk < usize::BITS,
                kk + s <= usize::BITS,
        ;
    } else {
        assert(s == 0);
        let mx = usize::MAX;
        assert((mx << 0u32) >> 0u32 == mx) by (bit_vector);
    }
}

} // verus!
