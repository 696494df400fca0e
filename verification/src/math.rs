use vstd::prelude::*;

use vstd::arithmetic::power2::{pow2, lemma_pow2_pos, lemma_pow2_unfold, lemma_pow2_strictly_increases};

use crate::addr::{align_up_spec, is_power_of_two, lemma_align_bits, lemma_mask_is_mod};

verus! {

/// The least `k` with `2^k >= n`.
pub open spec fn log2_ceil_spec(n: nat) -> nat
    decreases n,
{
    if n <= 1 {
        0
    } else {
        1 + log2_ceil_spec(((n + 1) / 2) as nat)
    }
}

/// The least power of two that is not below `n`.
pub open spec fn next_pow2_spec(n: nat) -> nat {
    pow2(log2_ceil_spec(n))
}

/// `n` is a power of two.
pub open spec fn is_pow2_spec(n: int) -> bool {
    exists|k: nat| pow2(k) == n
}

/// The number of significant bits of `n`.
pub open spec fn bit_len(n: nat) -> nat
    decreases n,
{
    if n == 0 {
        0
    } else {
        1 + bit_len(n / 2)
    }
}

/// `2^log2_ceil(n)` is the least power of two not below `n`.
pub proof fn lemma_log2_ceil(n: nat)
    ensures
        pow2(log2_ceil_spec(n)) >= n,
        n > 1 ==> log2_ceil_spec(n) > 0 && pow2((log2_ceil_spec(n) - 1) as nat) < n,
    decreases n,
{
    lemma_pow2_pos(log2_ceil_spec(n));
    if n <= 1 {
        vstd::arithmetic::power2::lemma2_to64();
    } else {
        let m = ((n + 1) / 2) as nat;
        lemma_log2_ceil(m);
        let l = log2_ceil_spec(m);
        lemma_pow2_unfold(l + 1);
        assert(pow2(l + 1) == 2 * pow2(l));
        if m > 1 {
            lemma_pow2_unfold(l);
            assert(pow2(l) == 2 * pow2((l - 1) as nat));
        } else {
            vstd::arithmetic::power2::lemma2_to64();
        }
    }
}

/// Any `k` with `2^(k-1) < n <= 2^k` is `log2_ceil(n)`.
pub proof fn lemma_log2_ceil_unique(n: nat, k: nat)
    requires
        pow2(k) >= n,
        k == 0 || pow2((k - 1) as nat) < n,
    ensures
        k == log2_ceil_spec(n),
{
    lemma_log2_ceil(n);
    let l = log2_ceil_spec(n);
    if k < l {
        if l > 0 {
            if k < l - 1 {
                lemma_pow2_strictly_increases(k, (l - 1) as nat);
            }
        }
    } else if k > l {
        if k - 1 > l {
            lemma_pow2_strictly_increases(l, (k - 1) as nat);
        }
        vstd::arithmetic::power2::lemma2_to64();
    }
}

/// A power of two is its own least power of two.
pub proof fn lemma_log2_ceil_pow2(k: nat)
    ensures
        log2_ceil_spec(pow2(k)) == k,
{
    if k > 0 {
        lemma_pow2_strictly_increases((k - 1) as nat, k);
    }
    lemma_log2_ceil_unique(pow2(k), k);
}

/// The bit test for a power of two agrees with `2^k`.
pub proof fn lemma_power_of_two_bits(n: usize)
    ensures
        is_power_of_two(n) <==> is_pow2_spec(n as int),
    decreases n,
{
    if is_power_of_two(n) {
        if n == 1 {
            vstd::arithmetic::power2::lemma2_to64();
            assert(pow2(0) == 1);
        } else {
            let h = n / 2;
            assert(h != 0 && h & ((h - 1) as usize) == 0 && n == 2 * h) by (bit_vector)
                requires
                    n != 0,
                    n != 1,
                    n & ((n - 1) as usize) == 0,
                    h == n / 2,
            ;
            lemma_power_of_two_bits(h);
            let k = choose|k: nat| pow2(k) == h;
            lemma_pow2_unfold(k + 1);
            assert(pow2(k + 1) == n);
        }
    }
    if is_pow2_spec(n as int) {
        let k = choose|k: nat| pow2(k) == n;
        if k == 0 {
            vstd::arithmetic::power2::lemma2_to64();
            assert(n & 0 == 0) by (bit_vector);
        } else {
            lemma_pow2_unfold(k);
            let h = (n / 2) as usize;
            lemma_pow2_pos((k - 1) as nat);
            assert(pow2((k - 1) as nat) == h);
            assert(h < n);
            assert(is_pow2_spec(h as int));
            lemma_power_of_two_bits(h);
            assert(n & ((n - 1) as usize) == 0) by (bit_vector)
                requires
                    h != 0,
                    h & ((h - 1) as usize) == 0,
                    n == 2 * h,
            ;
        }
    }
}

/// Returns `true` if `n` is a power of two.
pub fn is_power_of_two_usize(n: usize) -> (r: bool)
    ensures
        r == is_pow2_spec(n as int),
        r == is_power_of_two(n),
{
    proof {
        lemma_power_of_two_bits(n);
    }
    n != 0 && n & (n - 1) == 0
}

/// Returns the least `k` with `2^k >= n`.
pub fn log2_ceil(n: usize) -> (k: usize)
    ensures
        k == log2_ceil_spec(n as nat),
        k <= usize::BITS,
{
    let mut k: usize = 0;
    let mut p: u128 = 1;
    proof {
        vstd::arithmetic::power2::lemma2_to64();
        vstd::arithmetic::power2::lemma2_to64_rest();
    }
    while p < n as u128
        invariant
            p == pow2(k as nat),
            k == 0 || pow2((k - 1) as nat) < n,
            k <= 64,
            pow2(64) == 0x1_0000_0000_0000_0000,
        decreases 64 - k,
    {
        proof {
            if k >= 64 {
                if k > 64 {
                    lemma_pow2_strictly_increases(64, k as nat);
                }
                assert(false);
            }
            lemma_pow2_unfold((k + 1) as nat);
        }
        p = p * 2;
        k = k + 1;
    }
    proof {
        lemma_log2_ceil_unique(n as nat, k as nat);
        if k > usize::BITS {
            lemma_pow2_strictly_increases(usize::BITS as nat, (k - 1) as nat);
            assert(pow2(usize::BITS as nat) > usize::MAX) by {
                vstd::arithmetic::power2::lemma2_to64();
                vstd::arithmetic::power2::lemma2_to64_rest();
            }
        }
    }
    k
}

/// Returns the least power of two that is not below `n`.
pub fn next_power_of_two(n: usize) -> (r: usize)
    requires
        next_pow2_spec(n as nat) <= usize::MAX,
    ensures
        r == next_pow2_spec(n as nat),
        r >= n,
        r > 0,
{
    let k = log2_ceil(n);
    proof {
        lemma_log2_ceil(n as nat);
        lemma_pow2_pos(k as nat);
    }
    let mut p: usize = 1;
    let mut i: usize = 0;
    proof {
        vstd::arithmetic::power2::lemma2_to64();
    }
    while i < k
        invariant
            i <= k,
            p == pow2(i as nat),
            pow2(k as nat) <= usize::MAX,
            k == log2_ceil_spec(n as nat),
        decreases k - i,
    {
        proof {
            lemma_pow2_unfold((i + 1) as nat);
            if i + 1 < k {
                lemma_pow2_strictly_increases((i + 1) as nat, k as nat);
            }
        }
        p = p * 2;
        i = i + 1;
    }
    p
}

/// The greatest power of two that is not above `n`, for `n >= 1`; 1 for 0.
pub open spec fn prev_pow2_spec(n: nat) -> nat {
    if n == 0 {
        1
    } else {
        pow2((bit_len(n) - 1) as nat)
    }
}

/// The greatest power of two not above `n` lies in `(n / 2, n]`.
pub proof fn lemma_prev_pow2(n: nat)
    requires
        n >= 1,
    ensures
        bit_len(n) >= 1,
        prev_pow2_spec(n) <= n < 2 * prev_pow2_spec(n),
        prev_pow2_spec(n) > 0,
{
    let l = bit_len(n);
    if l == 0 {
        vstd::arithmetic::power2::lemma2_to64();
        lemma_bit_len_ge(n, 0);
    }
    let k = (l - 1) as nat;
    lemma_pow2_unfold(k + 1);
    lemma_pow2_pos(k);
    if n < pow2(k) {
        lemma_bit_len_lt(n, k);
    }
    if n >= pow2(k + 1) {
        lemma_bit_len_ge(n, k + 1);
    }
}

/// Any power of two `2^k` with `2^k <= n < 2^(k+1)` is the greatest power
/// of two not above `n`.
pub proof fn lemma_prev_pow2_unique(n: nat, k: nat)
    requires
        pow2(k) <= n < 2 * pow2(k),
    ensures
        prev_pow2_spec(n) == pow2(k),
{
    lemma_pow2_pos(k);
    lemma_pow2_unfold(k + 1);
    lemma_bit_len_ge(n, k);
    lemma_bit_len_lt(n, k + 1);
}

/// Returns the greatest power of two that is not above `n` (1 for 0), the
/// size to which a region that is not a power of two is split down.
pub fn prev_power_of_two(n: usize) -> (r: usize)
    ensures
        r == prev_pow2_spec(n as nat),
        n >= 1 ==> is_power_of_two(r) && r <= n && n < 2 * r,
        n == 0 ==> r == 1,
{
    if n == 0 {
        return 1;
    }
    let mut p: usize = 1;
    let ghost mut k: nat = 0;
    proof {
        vstd::arithmetic::power2::lemma2_to64();
    }
    while p <= n / 2
        invariant
            1 <= p <= n,
            p == pow2(k),
        decreases n - p,
    {
        proof {
            lemma_pow2_unfold(k + 1);
        }
        p = p * 2;
        proof {
            k = k + 1;
        }
    }
    proof {
        lemma_prev_pow2_unique(n as nat, k);
        assert(is_pow2_spec(p as int));
        lemma_power_of_two_bits(p);
    }
    p
}

/// Rounds `n` up to a multiple of `multiple`, a power of two.
pub fn align_up(n: usize, multiple: usize) -> (r: usize)
    requires
        is_power_of_two(multiple),
        n + multiple - 1 <= usize::MAX,
    ensures
        r == align_up_spec(n as int, multiple as int),
{
    let m = multiple - 1;
    let x = n + m;
    proof {
        lemma_align_bits(x, multiple);
        lemma_mask_is_mod(n, multiple);
        lemma_mask_is_mod(x, multiple);
        assert(x % multiple == (n % multiple + m) % (multiple as int)) by {
            vstd::arithmetic::div_mod::lemma_add_mod_noop(n as int, m as int, multiple as int);
            vstd::arithmetic::div_mod::lemma_small_mod(m as nat, multiple as nat);
        }
        if n % multiple == 0 {
            vstd::arithmetic::div_mod::lemma_small_mod(m as nat, multiple as nat);
        } else {
            vstd::arithmetic::div_mod::lemma_mod_bound(n as int, multiple as int);
            assert((n % multiple + m) % (multiple as int) == n % multiple - 1) by {
                vstd::arithmetic::div_mod::lemma_mod_sub_multiples_vanish(
                    (n % multiple + m) as int,
                    multiple as int,
                );
                vstd::arithmetic::div_mod::lemma_small_mod(
                    (n % multiple - 1) as nat,
                    multiple as nat,
                );
            }
        }
    }
    x & !m
}

/// Returns the number of significant bits of `u`: one more than the index
/// of its most significant set bit, or 0 for 0.
pub fn msb_index(u: usize) -> (r: u32)
    ensures
        r == bit_len(u as nat),
        r <= usize::BITS,
{
    let mut x = u;
    let mut r: u32 = 0;
    proof {
        lemma_bit_len_bound(u as nat);
    }
    while x != 0
        invariant
            bit_len(u as nat) == r + bit_len(x as nat),
            r + bit_len(x as nat) <= usize::BITS,
        decreases x,
    {
        proof {
            lemma_bit_len_bound(x as nat);
        }
        x = x / 2;
        r = r + 1;
    }
    r
}

/// A value of `usize` has at most `usize::BITS` significant bits.
pub proof fn lemma_bit_len_bound(n: nat)
    requires
        n <= usize::MAX,
    ensures
        bit_len(n) <= usize::BITS,
        bit_len(n) <= 64,
        n > 0 ==> bit_len(n) >= 1,
{
    vstd::arithmetic::power2::lemma2_to64();
    vstd::arithmetic::power2::lemma2_to64_rest();
    if usize::BITS == 32 {
        lemma_bit_len_lt(n, 32);
    } else {
        lemma_bit_len_lt(n, 64);
    }
}

proof fn lemma_bit_len_lt(n: nat, k: nat)
    requires
        n < pow2(k),
    ensures
        bit_len(n) <= k,
    decreases k,
{
    if k == 0 {
        vstd::arithmetic::power2::lemma2_to64();
    } else if n > 0 {
        lemma_pow2_unfold(k);
        lemma_bit_len_lt(n / 2, (k - 1) as nat);
    }
}

/// The size class of an allocation of `size` bytes: sizes are counted in
/// machine words; one word is class 1, up to eight words round up to an even
/// count, and above that each doubling of the word count is split into four
/// classes.
pub open spec fn size_class_spec(size: nat, word: nat) -> int {
    let wsize = ((size + word - 1) as nat) / word;
    if wsize == 1 {
        1
    } else if wsize <= 8 {
        align_up_spec(wsize as int, 2)
    } else {
        let w = (wsize - 1) as nat;
        let b = bit_len(w);
        4 * b + (w / pow2((b - 2) as nat)) % 4 - 3
    }
}

/// Returns the size class of an allocation of `size` bytes.
pub fn size_class(size: usize) -> (r: usize)
    requires
        size > 0,
        size + usize::BITS / 8 - 1 <= usize::MAX,
    ensures
        r == size_class_spec(size as nat, (usize::BITS / 8) as nat),
{
    let word = (usize::BITS / 8) as usize;
    proof {
        assert(word == 8 || word == 4);
        assert(is_power_of_two(8usize)) by (bit_vector);
        assert(is_power_of_two(4usize)) by (bit_vector);
        assert(is_power_of_two(2usize)) by (bit_vector);
    }
    let aligned = align_up(size, word);
    let wsize = aligned / word;
    proof {
        let sz = size as int;
        let wd = word as int;
        vstd::arithmetic::div_mod::lemma_fundamental_div_mod(sz, wd);
        vstd::arithmetic::div_mod::lemma_fundamental_div_mod(sz + wd - 1, wd);
        if sz % wd == 0 {
            assert(aligned == sz);
            assert((sz + wd - 1) / wd == sz / wd) by {
                vstd::arithmetic::div_mod::lemma_div_multiples_vanish_fancy(sz / wd, wd - 1, wd);
            }
        } else {
            assert(aligned == sz - sz % wd + wd);
            assert(aligned == wd * (sz / wd + 1)) by (nonlinear_arith)
                requires
                    aligned == sz - sz % wd + wd,
                    sz == wd * (sz / wd) + sz % wd,
            ;
            assert((sz + wd - 1) / wd == sz / wd + 1) by {
                vstd::arithmetic::div_mod::lemma_div_multiples_vanish_fancy(
                    sz / wd + 1,
                    sz % wd - 1,
                    wd,
                );
                assert(sz + wd - 1 == wd * (sz / wd + 1) + (sz % wd - 1)) by (nonlinear_arith)
                    requires
                        sz == wd * (sz / wd) + sz % wd,
                ;
            }
            vstd::arithmetic::div_mod::lemma_div_multiples_vanish(sz / wd + 1, wd);
            assert(wd * (sz / wd + 1) == (sz / wd + 1) * wd) by (nonlinear_arith);
        }
    }
    if wsize == 1 {
        return 1;
    }
    if wsize <= 8 {
        return align_up(wsize, 2);
    }
    let w = wsize - 1;
    let bit_pos = msb_index(w);
    proof {
        vstd::arithmetic::power2::lemma2_to64();
        lemma_bit_len_ge(w as nat, 3);
        assert(bit_pos >= 4);
    }
    let shifted = w >> ((bit_pos - 2) as usize);
    let low = shifted & 3;
    proof {
        vstd::bits::lemma_usize_shr_is_div(w, (bit_pos - 2) as usize);
        lemma_mask_is_mod(shifted, 4);
        let b = bit_pos as usize;
        assert((b << 2usize) | low == 4 * b + low) by (bit_vector)
            requires
                low < 4,
                b <= 64,
        ;
    }
    (((bit_pos as usize) << 2) | low) - 3
}

/// A number of at least `2^k` has more than `k` significant bits.
proof fn lemma_bit_len_ge(n: nat, k: nat)
    requires
        n >= pow2(k),
    ensures
        bit_len(n) > k,
    decreases k,
{
    lemma_pow2_pos(k);
    if k > 0 {
        lemma_pow2_unfold(k);
        lemma_bit_len_ge(n / 2, (k - 1) as nat);
    }
}

} // verus!
