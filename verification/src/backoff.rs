//! An exponential backoff for spin loops.
use vstd::prelude::*;

verus! {

/// An exponential backoff for spin loops: each spin issues `2^exp` pause
/// hints and then doubles the next spin, up to `2^max`.
#[derive(Debug, Clone)]
pub struct Backoff {
    exp: u8,
    max: u8,
}

/// Tells the processor that the caller is in a spin loop.
///
/// Calls `core::hint::spin_loop`, which only emits a pause instruction (or
/// nothing) and has no effect that the library observes.
#[verifier::external_body]
fn spin_loop_hint() {
    core::hint::spin_loop()
}

impl Backoff {
    /// The largest exponent a backoff may reach.
    pub const DEFAULT_MAX_EXPONENT: u8 = 8;

    /// The exponent of the next spin.
    pub closed spec fn exp_spec(&self) -> u8 {
        self.exp
    }

    /// The exponent at which spins stop growing.
    pub closed spec fn max_spec(&self) -> u8 {
        self.max
    }

    /// The exponent never passes the maximum, which is at most
    /// [`Backoff::DEFAULT_MAX_EXPONENT`].
    pub closed spec fn wf(&self) -> bool {
        &&& self.exp <= self.max
        &&& self.max <= Self::DEFAULT_MAX_EXPONENT
    }

    /// Returns a backoff whose first spin issues one pause hint and whose
    /// spins grow up to the default maximum.
    pub fn new() -> (r: Self)
        ensures
            r.wf(),
            r.exp_spec() == 0,
            r.max_spec() == Self::DEFAULT_MAX_EXPONENT,
    {
        Backoff { exp: 0, max: Self::DEFAULT_MAX_EXPONENT }
    }

    /// Returns a backoff whose spins grow up to `2^max` pause hints; `max`
    /// must not be above [`Backoff::DEFAULT_MAX_EXPONENT`].
    pub fn with_max_exponent(max: u8) -> (r: Self)
        requires
            max <= Self::DEFAULT_MAX_EXPONENT,
        ensures
            r.wf(),
            r.exp_spec() == 0,
            r.max_spec() == max,
    {
        Backoff { exp: 0, max }
    }

    /// Issues `2^exp` pause hints, then raises the exponent by one unless it
    /// has reached the maximum.
    pub fn spin(&mut self)
        requires
            old(self).wf(),
        ensures
            final(self).wf(),
            final(self).max_spec() == old(self).max_spec(),
            final(self).exp_spec() == if old(self).exp_spec() < old(self).max_spec() {
                old(self).exp_spec() + 1
            } else {
                old(self).exp_spec() as int
            },
    {
        let exp = self.exp as u32;
        proof {
            vstd::bits::lemma_u32_pow2_no_overflow(exp as nat);
            vstd::bits::lemma_u32_shl_is_mul(1, exp);
        }
        let n: u32 = 1u32 << exp;
        let mut i: u32 = 0;
        while i < n
            invariant
                i <= n,
            decreases n - i,
        {
            spin_loop_hint();
            i = i + 1;
        }
        if self.exp < self.max {
            self.exp = self.exp + 1;
        }
    }
}

impl Default for Backoff {
    fn default() -> (r: Self)
        ensures
            r.wf(),
            r.exp_spec() == 0,
            r.max_spec() == Self::DEFAULT_MAX_EXPONENT,
    {
        Self::new()
    }
}

} // verus!
