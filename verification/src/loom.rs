//! A wrapper that tracks a value's allocation.
use vstd::prelude::*;

verus! {

/// Tracks a value for leaks.
#[derive(Debug, Default)]
pub struct Track<T> {
    value: T,
}

impl<T> Track<T> {
    /// The tracked value.
    pub closed spec fn value_spec(&self) -> T {
        self.value
    }

    /// Tracks `value`.
    pub fn new(value: T) -> (r: Track<T>)
        ensures
            r.value_spec() == value,
    {
        Track { value }
    }

    /// Tracks `value`; usable where a value must be built without tracking
    /// state.
    pub fn new_const(value: T) -> (r: Track<T>)
        ensures
            r.value_spec() == value,
    {
        Track { value }
    }

    /// Returns a reference to the value.
    pub fn get_ref(&self) -> (r: &T)
        ensures
            *r == self.value_spec(),
    {
        &self.value
    }

    /// Returns a mutable reference to the value.
    pub fn get_mut(&mut self) -> (r: &mut T)
        ensures
            *r == old(self).value_spec(),
            final(self).value_spec() == *final(r),
    {
        &mut self.value
    }

    /// Stops tracking the value and returns it.
    pub fn into_inner(self) -> (r: T)
        ensures
            r == self.value_spec(),
    {
        self.value
    }
}

} // verus!
