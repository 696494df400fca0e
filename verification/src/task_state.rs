//! The state of an asynchronous task: whether it is being polled, whether it
//! was woken, whether it has completed, and how many references to it are
//! live, packed into one `usize`.
//!
//! [`StateVar`] holds a task's state and makes its transitions. The state
//! word is modified through `&mut` access, one transition at a time.
use vstd::prelude::*;

use vstd::arithmetic::power2::pow2;

use crate::pack::{PackUsize, ones, spec_valid, lemma_bit_len_ones};

verus! {

/// The bit of a task that is being polled.
pub open spec fn is_polling(s: usize) -> bool {
    s & 1 != 0
}

/// The bit of a task whose waker has been woken.
pub open spec fn is_woken(s: usize) -> bool {
    s & 2 != 0
}

/// The bit of a task whose future has completed.
pub open spec fn is_completed(s: usize) -> bool {
    s & 4 != 0
}

/// The number of live references to a task: the bits above the flags.
pub open spec fn refs_of(s: usize) -> usize {
    s >> 3usize
}

/// The reference count's unit: its lowest bit.
pub open spec fn ref_one_spec() -> usize {
    8
}

/// The reference count's mask: every bit above the flags.
pub open spec fn ref_max_spec() -> usize {
    ones((usize::BITS - 3) as nat) << 3u32
}

/// A task's state: bit 0 is set while the task is polled, bit 1 when its
/// waker was woken, bit 2 once its future has completed, and the bits above
/// count the live references to the task.
#[derive(Copy, Clone, Debug, PartialEq, Eq, Structural)]
pub struct State(usize);

impl State {
    /// The state word.
    pub closed spec fn word(&self) -> usize {
        self.0
    }

    /// The packing spec of the polling flag.
    pub fn polling() -> (r: PackUsize<bool>)
        ensures
            r.mask_spec() == 1,
            r.shift_spec() == 0,
            r.bits_spec() == 1,
    {
        proof {
            lemma_small_ones();
            lemma_bit_len_small();
            lemma_small_shifts();
        }
        proof {
            crate::from_bits::lemma_widths();
        }
        PackUsize::<bool>::first()
    }

    /// The packing spec of the woken flag.
    pub fn woken() -> (r: PackUsize<bool>)
        ensures
            r.mask_spec() == 2,
            r.shift_spec() == 1,
            r.bits_spec() == 1,
    {
        proof {
            lemma_small_ones();
            lemma_bit_len_small();
            lemma_small_shifts();
        }
        proof {
            crate::from_bits::lemma_widths();
        }
        Self::polling().followed_by::<bool>()
    }

    /// The packing spec of the completed flag.
    pub fn completed() -> (r: PackUsize<bool>)
        ensures
            r.mask_spec() == 4,
            r.shift_spec() == 2,
            r.bits_spec() == 1,
    {
        proof {
            lemma_small_ones();
            lemma_bit_len_small();
            lemma_small_shifts();
        }
        proof {
            crate::from_bits::lemma_widths();
        }
        Self::woken().followed_by::<bool>()
    }

    /// The packing spec of the reference count: every bit above the flags.
    pub fn refs() -> (r: PackUsize<usize>)
        ensures
            r.mask_spec() == ref_max_spec(),
            r.shift_spec() == 3,
            r.bits_spec() == usize::BITS - 3,
    {
        proof {
            lemma_small_ones();
            lemma_bit_len_small();
            lemma_bit_len_ones((usize::BITS - 3) as nat);
            lemma_refs_mask();
        }
        Self::completed().remaining()
    }

    /// Returns a state with every bit clear.
    pub fn new() -> (r: State)
        ensures
            r.word() == 0,
    {
        State(0)
    }

    /// Returns the state word.
    pub fn bits(self) -> (r: usize)
        ensures
            r == self.word(),
    {
        self.0
    }

    /// Unpacks the value of `field` from this state. The field's bits must
    /// be a valid `T`.
    pub fn get<T: crate::from_bits::FromBits<usize>>(self, field: PackUsize<T>) -> (r: T)
        requires
            field.shift_spec() < usize::BITS,
            T::accepts_bits(field.unpack_spec(self.word())),
            T::spec_from_bits(field.unpack_spec(self.word())) is Ok,
        ensures
            T::spec_from_bits(field.unpack_spec(self.word())) == Ok::<T, T::Error>(r),
    {
        field.unpack(self.0)
    }

    /// Returns this state with `field` set to `value`, whose bits must fit
    /// in the field.
    pub fn with<T: crate::from_bits::FromBits<usize>>(self, field: PackUsize<T>, value: T) -> (r: State)
        requires
            field.shift_spec() < usize::BITS,
            field.bits_spec() < usize::BITS,
            value.spec_into_bits() <= ones(field.bits_spec()),
        ensures
            r.word() == field.pack_spec(value.spec_into_bits(), self.word()),
    {
        State(field.pack(value, self.0))
    }

    /// Returns the number of live references to the task.
    pub fn ref_count(self) -> (r: usize)
        ensures
            r == refs_of(self.word()),
    {
        let refs = Self::refs();
        proof {
            lemma_refs_unpack(self.0);
        }
        self.get(refs)
    }

    /// The packing specs of the state are valid and do not overlap.
    pub fn assert_valid()
        ensures
            spec_valid(1, 0),
            spec_valid(2, 1),
            spec_valid(4, 2),
            spec_valid(ref_max_spec(), 3),
            1usize & 2 == 0 && 1usize & 4 == 0 && 2usize & 4 == 0,
            ref_max_spec() & 7 == 0,
    {
        let p = Self::polling();
        let w = Self::woken();
        let c = Self::completed();
        let r = Self::refs();
        proof {
            lemma_bit_len_small();
            lemma_refs_end();
        }
        p.assert_valid();
        w.assert_valid();
        c.assert_valid();
        r.assert_valid();
        proof {
            let rm = r.mask_spec();
            assert(rm == ref_max_spec());
            lemma_refs_disjoint();
            assert(1usize & 2 == 0 && 1usize & 4 == 0 && 2usize & 4 == 0) by (bit_vector);
        }
    }
}

/// A task's state, changed one transition at a time.
#[derive(Debug)]
pub struct StateVar {
    state: usize,
}

/// The state word after a poll of a task in state `s` ends: the polling
/// flag is cleared and the completed flag set if the future completed.
pub open spec fn end_poll_word(s: usize, completed: bool) -> usize {
    (s & !1usize) | if completed {
        4usize
    } else {
        0usize
    }
}

impl StateVar {
    /// The current state word.
    pub closed spec fn word(&self) -> usize {
        self.state
    }

    /// Returns the state of a new task: one reference, no flag set.
    pub fn new() -> (r: StateVar)
        ensures
            r.word() == ref_one_spec(),
            refs_of(r.word()) == 1,
            !is_polling(r.word()) && !is_woken(r.word()) && !is_completed(r.word()),
    {
        let one = Self::ref_one();
        proof {
            assert((8usize >> 3usize) == 1usize && 8usize & 1 == 0 && 8usize & 2 == 0 && 8usize & 4
                == 0) by (bit_vector);
        }
        StateVar { state: one }
    }

    /// The unit of the reference count.
    fn ref_one() -> (r: usize)
        ensures
            r == ref_one_spec(),
    {
        let r = State::refs().first_bit();
        proof {
            vstd::arithmetic::power2::lemma2_to64();
        }
        r
    }

    /// The largest state word whose reference count may still be raised.
    fn ref_max() -> (r: usize)
        ensures
            r == ref_max_spec(),
    {
        State::refs().raw_mask()
    }

    /// Returns the current state.
    pub fn load(&self) -> (r: State)
        ensures
            r.word() == self.word(),
    {
        State(self.state)
    }

    /// Starts polling the task. Fails, returning the current state, if the
    /// task is already being polled or has completed; otherwise sets the
    /// polling flag and consumes a wakeup.
    pub fn start_poll(&mut self) -> (r: Result<(), State>)
        ensures
            is_polling(old(self).word()) || is_completed(old(self).word()) ==> (r matches Err(s)
                && s.word() == old(self).word()) && final(self).word() == old(self).word(),
            !is_polling(old(self).word()) && !is_completed(old(self).word()) ==> r is Ok
                && final(self).word() == (old(self).word() | 1) & !2usize,
            r is Ok ==> is_polling(final(self).word()) && !is_woken(final(self).word())
                && !is_completed(final(self).word()) && refs_of(final(self).word()) == refs_of(
                old(self).word(),
            ),
    {
        let r = self.transition(Self::start_poll_step);
        proof {
            if r is Ok {
                law_start_poll(old(self).word());
            }
        }
        r
    }

    /// The transition that starts a poll: refused, with the state as the
    /// error, if the task is being polled elsewhere or has completed;
    /// otherwise the polling flag is set and any wakeup is consumed.
    fn start_poll_step(state: State) -> (r: Result<State, State>)
        ensures
            is_polling(state.word()) || is_completed(state.word()) ==> r == Err::<State, State>(
                state,
            ),
            !is_polling(state.word()) && !is_completed(state.word()) ==> r is Ok
                && r->Ok_0.word() == (state.word() | 1) & !2usize,
    {
        let p = State::polling();
        let c = State::completed();
        let w = State::woken();
        proof {
            lemma_flag_unpack(state.word());
            lemma_small_ones();
        }
        // a task being polled elsewhere, or one that completed, cannot start
        // a poll
        if state.get(p) {
            return Err(state);
        }
        if state.get(c) {
            return Err(state);
        }
        // the task is now being polled, and any wakeup is consumed
        let s1 = state.with(p, true);
        let s2 = s1.with(w, false);
        proof {
            lemma_flag_pack(state.word());
            lemma_flag_pack(state.word() | 1);
        }
        Ok(s2)
    }

    /// Ends a poll of the task, which is being polled and has not
    /// completed: clears the polling flag and records whether the future
    /// completed.
    pub fn end_poll(&mut self, completed: bool) -> (r: Result<(), State>)
        requires
            is_polling(old(self).word()),
            !is_completed(old(self).word()),
        ensures
            r is Ok,
            final(self).word() == end_poll_word(old(self).word(), completed),
            !is_polling(final(self).word()),
            is_completed(final(self).word()) == completed,
            is_woken(final(self).word()) == is_woken(old(self).word()),
            refs_of(final(self).word()) == refs_of(old(self).word()),
    {
        let state = self.load();
        let p = State::polling();
        let c = State::completed();
        proof {
            lemma_small_ones();
        }
        let s1 = state.with(p, false);
        let s2 = s1.with(c, completed);
        proof {
            lemma_flag_pack(state.word());
            lemma_end_poll_pack(state.word(), completed);
        }
        self.state = s2.0;
        proof {
            law_end_poll(state.word(), completed);
        }
        Ok(())
    }

    /// Runs `transition` on the current state: if it gives a new state, the
    /// task moves to it; if it fails, the state is left as it was and its
    /// error is returned.
    fn transition<E, F: Fn(State) -> Result<State, E>>(&mut self, transition: F) -> (r: Result<
        (),
        E,
    >)
        requires
            transition.requires((State(old(self).word()),)),
        ensures
            match r {
                Ok(()) => transition.ensures(
                    (State(old(self).word()),),
                    Ok::<State, E>(State(final(self).word())),
                ),
                Err(e) => transition.ensures((State(old(self).word()),), Err::<State, E>(e))
                    && final(self).word() == old(self).word(),
            },
    {
        let current = self.load();
        let next = match transition(current) {
            Ok(next) => next,
            Err(e) => return Err(e),
        };
        self.state = next.0;
        Ok(())
    }

    /// Adds a reference to the task. The reference count must not be at its
    /// maximum.
    pub fn clone_ref(&mut self)
        requires
            old(self).word() <= ref_max_spec(),
        ensures
            final(self).word() == old(self).word().wrapping_add(ref_one_spec()),
            old(self).word() < ref_max_spec() ==> final(self).word() == old(self).word()
                + ref_one_spec(),
            old(self).word() < ref_max_spec() ==> refs_of(final(self).word()) == refs_of(
                old(self).word(),
            ) + 1,
            old(self).word() < ref_max_spec() ==> is_polling(final(self).word()) == is_polling(
                old(self).word(),
            ) && is_woken(final(self).word()) == is_woken(old(self).word()) && is_completed(
                final(self).word(),
            ) == is_completed(old(self).word()),
    {
        let one = Self::ref_one();
        let old_refs = self.state;
        proof {
            lemma_ref_max_bound();
        }
        self.state = old_refs.wrapping_add(one);
        let max = Self::ref_max();
        proof {
            assert(old_refs <= max);
            if old_refs < max {
                law_ref_count_steps(old_refs);
            }
        }
    }

    /// Drops a reference to the task. Returns `true` if it was the last
    /// one: the state was one reference and no flag.
    pub fn drop_ref(&mut self) -> (r: bool)
        ensures
            r == (old(self).word() == ref_one_spec()),
            final(self).word() == old(self).word().wrapping_sub(ref_one_spec()),
            old(self).word() >= ref_one_spec() ==> final(self).word() == old(self).word()
                - ref_one_spec(),
            old(self).word() >= ref_one_spec() ==> refs_of(final(self).word()) + 1 == refs_of(
                old(self).word(),
            ) && is_polling(final(self).word()) == is_polling(old(self).word()) && is_woken(
                final(self).word(),
            ) == is_woken(old(self).word()) && is_completed(final(self).word()) == is_completed(
                old(self).word(),
            ),
    {
        let one = Self::ref_one();
        let old_refs = self.state;
        self.state = old_refs.wrapping_sub(one);
        proof {
            if old_refs >= one {
                lemma_add_ref(self.state, old_refs);
            }
        }
        old_refs == one
    }
}

/// Adding a reference and dropping it again restores the state, and that
/// drop reports the last reference only if the state held no reference and
/// no flag before.
pub proof fn law_clone_drop_ref(s: usize)
    requires
        s <= ref_max_spec(),
    ensures
        s.wrapping_add(ref_one_spec()).wrapping_sub(ref_one_spec()) == s,
        (s.wrapping_add(ref_one_spec()) == ref_one_spec()) == (s == 0),
{
    lemma_ref_max_bound();
}

/// A successful start of a poll leaves the reference count and the
/// completed flag as they were, sets the polling flag and clears the woken
/// flag.
pub proof fn law_start_poll(s: usize)
    requires
        !is_polling(s),
        !is_completed(s),
    ensures
        is_polling(((s | 1) & !2usize) as usize),
        !is_woken(((s | 1) & !2usize) as usize),
        !is_completed(((s | 1) & !2usize) as usize),
        refs_of(((s | 1) & !2usize) as usize) == refs_of(s),
{
    assert(s & 4 == 0 ==> (((s | 1) & !2usize) & 1 != 0 && ((s | 1) & !2usize) & 2 == 0 && ((s
        | 1) & !2usize) & 4 == 0 && ((s | 1) & !2usize) >> 3usize == s >> 3usize)) by (bit_vector);
}

/// Ending a poll clears the polling flag, sets the completed flag exactly
/// when the future completed, and leaves the reference count and the woken
/// flag as they were.
pub proof fn law_end_poll(s: usize, completed: bool)
    ensures
        !is_polling(end_poll_word(s, completed)),
        is_completed(end_poll_word(s, completed)) == (completed || is_completed(s)),
        is_woken(end_poll_word(s, completed)) == is_woken(s),
        refs_of(end_poll_word(s, completed)) == refs_of(s),
{
    assert(((s & !1usize) | 4usize) & 1 == 0 && ((s & !1usize) | 4usize) & 4 != 0 && ((s & !1usize)
        | 4usize) & 2 == s & 2 && ((s & !1usize) | 4usize) >> 3usize == s >> 3usize && ((s
        & !1usize) | 0usize) & 1 == 0 && ((s & !1usize) | 0usize) & 4 == s & 4 && ((s & !1usize)
        | 0usize) & 2 == s & 2 && ((s & !1usize) | 0usize) >> 3usize == s >> 3usize)
        by (bit_vector);
}

/// Adding a reference raises the reference count by one, and dropping one
/// lowers it by one; neither touches the flags.
pub proof fn law_ref_count_steps(s: usize)
    requires
        s < ref_max_spec(),
    ensures
        refs_of(s.wrapping_add(ref_one_spec())) == refs_of(s) + 1,
        is_polling(s.wrapping_add(ref_one_spec())) == is_polling(s),
        is_woken(s.wrapping_add(ref_one_spec())) == is_woken(s),
        is_completed(s.wrapping_add(ref_one_spec())) == is_completed(s),
        s.wrapping_add(ref_one_spec()).wrapping_sub(ref_one_spec()) == s,
{
    lemma_ref_max_bound();
    let t = s.wrapping_add(ref_one_spec());
    assert(t == s + 8);
    lemma_add_ref(s, t);
}

/// Adding one reference unit to a word.
proof fn lemma_add_ref(s: usize, t: usize)
    by (bit_vector)
    requires
        t == s + 8,
    ensures
        t >> 3usize == (s >> 3usize) + 1,
        t & 1 == s & 1,
        t & 2 == s & 2,
        t & 4 == s & 4,
{
}

/// Shifts of the flags' bits.
proof fn lemma_small_shifts()
    ensures
        (1usize << 1u32) == 2 && (1usize << 2u32) == 4 && (1usize >> 0u32) == 1 && (2usize >> 1u32)
            == 1 && (4usize >> 2u32) == 1,
{
    assert((1usize << 1u32) == 2 && (1usize << 2u32) == 4 && (1usize >> 0u32) == 1 && (2usize
        >> 1u32) == 1 && (4usize >> 2u32) == 1) by (bit_vector);
}

/// `ones(1)` is 1.
proof fn lemma_small_ones()
    ensures
        ones(1) == 1,
        ones(2) == 3,
        ones(3) == 7,
{
    vstd::arithmetic::power2::lemma2_to64();
}

proof fn lemma_bit_len_small()
    ensures
        crate::math::bit_len(1) == 1,
        crate::math::bit_len(2) == 2,
        crate::math::bit_len(4) == 3,
        crate::math::bit_len(0) == 0,
{
    assert(crate::math::bit_len(0) == 0);
    assert(crate::math::bit_len(1) == 1);
    assert(crate::math::bit_len(2) == 2);
    assert(crate::math::bit_len(4) == 3);
}

/// The reference count's mask, shifted down, is the bits below the flags'
/// width, and shifting it back up gives it again.
proof fn lemma_refs_mask()
    ensures
        (ones((usize::BITS - 3) as nat) << 3u32) >> 3u32 == ones((usize::BITS - 3) as nat),
{
    let k = (usize::BITS - 3) as u32;
    vstd::bits::lemma_usize_pow2_no_overflow(k as nat);
    vstd::bits::lemma_usize_shl_is_mul(1, k as usize);
    assert(((((1usize << k) - 1) as usize) << 3u32) >> 3u32 == ((1usize << k) - 1) as usize)
        by (bit_vector)
        requires
            k == usize::BITS - 3,
    ;
}

/// The reference count's mask ends at the top bit.
proof fn lemma_refs_end()
    ensures
        crate::math::bit_len(ref_max_spec() as nat) == usize::BITS,
{
    let k = (usize::BITS - 3) as u32;
    vstd::bits::lemma_usize_pow2_no_overflow(k as nat);
    vstd::bits::lemma_usize_shl_is_mul(1, k as usize);
    let m = ref_max_spec();
    assert(m == (((1usize << k) - 1) as usize) << 3u32);
    assert(m >> 1usize == ((((1usize << k) - 1) as usize) << 3u32) >> 1usize);
    lemma_top_bit_len(m);
}

/// A `usize` with its top bit set has the full bit length.
proof fn lemma_top_bit_len(m: usize)
    requires
        m == ((((1usize << ((usize::BITS - 3) as u32)) - 1) as usize) << 3u32),
    ensures
        crate::math::bit_len(m as nat) == usize::BITS,
{
    let k = (usize::BITS - 3) as u32;
    assert(m >= (1usize << ((usize::BITS - 1) as u32))) by (bit_vector)
        requires
            m == ((((1usize << k) - 1) as usize) << 3u32),
            k == usize::BITS - 3,
    ;
    vstd::bits::lemma_usize_pow2_no_overflow((usize::BITS - 1) as nat);
    vstd::bits::lemma_usize_shl_is_mul(1, (usize::BITS - 1) as usize);
    lemma_bit_len_at_least(m as nat, (usize::BITS - 1) as nat);
    crate::math::lemma_bit_len_bound(m as nat);
}

/// A number of at least `2^k` has more than `k` significant bits.
proof fn lemma_bit_len_at_least(n: nat, k: nat)
    requires
        n >= pow2(k),
    ensures
        crate::math::bit_len(n) > k,
    decreases k,
{
    vstd::arithmetic::power2::lemma_pow2_pos(k);
    if k > 0 {
        vstd::arithmetic::power2::lemma_pow2_unfold(k);
        lemma_bit_len_at_least(n / 2, (k - 1) as nat);
    }
}

/// Unpacking the reference count from `s` gives the bits above the flags.
proof fn lemma_refs_unpack(s: usize)
    ensures
        (s & ref_max_spec()) >> 3u32 == refs_of(s),
{
    let k = (usize::BITS - 3) as u32;
    vstd::bits::lemma_usize_pow2_no_overflow(k as nat);
    vstd::bits::lemma_usize_shl_is_mul(1, k as usize);
    let m = ref_max_spec();
    assert(m == (((1usize << k) - 1) as usize) << 3u32);
    assert((s & ((((1usize << k) - 1) as usize) << 3u32)) >> 3u32 == s >> 3usize) by (bit_vector)
        requires
            k == usize::BITS - 3,
    ;
}

/// The flags unpack to their bits.
proof fn lemma_flag_unpack(s: usize)
    ensures
        ((s & 1usize) >> 0u32 != 0) == is_polling(s),
        ((s & 2usize) >> 1u32 != 0) == is_woken(s),
        ((s & 4usize) >> 2u32 != 0) == is_completed(s),
{
    assert(((s & 1usize) >> 0u32 != 0) == (s & 1 != 0) && ((s & 2usize) >> 1u32 != 0) == (s & 2
        != 0) && ((s & 4usize) >> 2u32 != 0) == (s & 4 != 0)) by (bit_vector);
}

/// Packing the flags sets or clears their bits.
proof fn lemma_flag_pack(s: usize)
    ensures
        (s & !1usize) | ((1usize & 1usize) << 0u32) == s | 1,
        (s & !1usize) | ((0usize & 1usize) << 0u32) == s & !1usize,
        (s & !2usize) | ((0usize & 1usize) << 1u32) == s & !2usize,
{
    assert((s & !1usize) | ((1usize & 1usize) << 0u32) == s | 1 && (s & !1usize) | ((0usize
        & 1usize) << 0u32) == s & !1usize && (s & !2usize) | ((0usize & 1usize) << 1u32) == s
        & !2usize) by (bit_vector);
}

/// Setting the completed flag to `c` after clearing the polling flag, when
/// the completed flag was clear.
proof fn lemma_end_poll_pack(s: usize, c: bool)
    requires
        s & 4 == 0,
    ensures
        ((s & !1usize) & !4usize) | ((if c { 1usize } else { 0usize } & 1usize) << 2u32) == (s
            & !1usize) | if c {
            4usize
        } else {
            0usize
        },
{
    assert(s & 4 == 0 ==> ((s & !1usize) & !4usize) | ((1usize & 1usize) << 2u32) == (s & !1usize)
        | 4usize && ((s & !1usize) & !4usize) | ((0usize & 1usize) << 2u32) == (s & !1usize)
        | 0usize) by (bit_vector);
}

/// The reference count's mask is below `usize::MAX` by the flags.
proof fn lemma_ref_max_bound()
    ensures
        ref_max_spec() + ref_one_spec() <= usize::MAX + 1,
{
    let k = (usize::BITS - 3) as u32;
    vstd::bits::lemma_usize_pow2_no_overflow(k as nat);
    vstd::bits::lemma_usize_shl_is_mul(1, k as usize);
    lemma_refs_disjoint();
    let m = ref_max_spec();
    assert(m & 7 == 0 ==> m | 7 == m + 7) by (bit_vector);
}

/// The flags and the reference count use disjoint bits.
proof fn lemma_refs_disjoint()
    ensures
        ref_max_spec() & 7 == 0,
{
    let k = (usize::BITS - 3) as u32;
    vstd::bits::lemma_usize_pow2_no_overflow(k as nat);
    vstd::bits::lemma_usize_shl_is_mul(1, k as usize);
    assert(((((1usize << k) - 1) as usize) << 3u32) & 7 == 0) by (bit_vector);
}

} // verus!
