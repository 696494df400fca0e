use vstd::prelude::*;

use core::marker::PhantomData;

use crate::addr::{Address, align_down_spec, is_aligned_spec, is_power_of_two};

verus! {

/// The statically known size of a frame.
pub trait Size: Copy + Sized {
    /// The size in bytes.
    spec fn spec_size() -> usize;

    fn size() -> (r: usize)
        ensures
            r == Self::spec_size(),
    ;
}

/// A memory frame: `S::size()` bytes starting at `base`.
#[derive(Debug)]
pub struct Frame<A, S> {
    base: A,
    _size: PhantomData<S>,
}

impl<A: Copy, S> Clone for Frame<A, S> {
    fn clone(&self) -> (r: Self)
        ensures
            r == *self,
    {
        Frame { base: self.base, _size: PhantomData }
    }
}

impl<A: Copy, S> Copy for Frame<A, S> {

}

/// A range of memory frames of the same size, from `start` to `end`
/// inclusive.
#[derive(Debug)]
pub struct FrameRange<A, S> {
    start: Frame<A, S>,
    end: Frame<A, S>,
}

impl<A: Copy, S> Clone for FrameRange<A, S> {
    fn clone(&self) -> (r: Self)
        ensures
            r == *self,
    {
        FrameRange { start: self.start, end: self.end }
    }
}

impl<A: Copy, S> Copy for FrameRange<A, S> {

}

/// The error returned when an address is not aligned on the frame size.
#[derive(Debug)]
pub struct NotAligned<S> {
    _size: PhantomData<S>,
}

/// The error returned when a frame allocation fails.
#[derive(Debug)]
pub struct AllocErr {
    _p: (),
}

impl<A: Address, S: Size> Frame<A, S> {
    /// The base address.
    pub closed spec fn base_spec(&self) -> usize {
        self.base.addr()
    }

    /// Returns the frame starting at `addr`, or an error if `addr` is not
    /// aligned on the frame size.
    pub fn starting_at(addr: A) -> (r: Result<Self, NotAligned<S>>)
        requires
            is_power_of_two(S::spec_size()),
            is_aligned_spec(addr.addr() as int, S::spec_size() as int) ==> A::valid(addr.addr()),
        ensures
            r is Ok <==> is_aligned_spec(addr.addr() as int, S::spec_size() as int),
            r matches Ok(f) ==> f.base_spec() == addr.addr(),
    {
        if !addr.is_aligned(S::size()) {
            return Err(NotAligned { _size: PhantomData });
        }
        Ok(Self::containing(addr))
    }

    /// Returns the frame that contains `addr`.
    pub fn containing(addr: A) -> (r: Self)
        requires
            is_power_of_two(S::spec_size()),
            A::valid(align_down_spec(addr.addr() as int, S::spec_size() as int) as usize),
        ensures
            r.base_spec() as int == align_down_spec(addr.addr() as int, S::spec_size() as int),
    {
        let base = addr.align_down(S::size());
        Self { base, _size: PhantomData }
    }

    pub fn base_address(&self) -> (r: A)
        ensures
            r.addr() == self.base_spec(),
    {
        self.base
    }

    /// Returns the base address plus the frame size.
    pub fn end_address(&self) -> (r: A)
        requires
            self.base_spec() + S::spec_size() <= usize::MAX,
            A::valid((self.base_spec() + S::spec_size()) as usize),
        ensures
            r.addr() == self.base_spec() + S::spec_size(),
    {
        self.base.add(S::size())
    }

    /// Returns `true` if `addr` lies between the base address and the end
    /// address, both included.
    pub fn contains(&self, addr: A) -> (r: bool)
        requires
            self.base_spec() + S::spec_size() <= usize::MAX,
            A::valid((self.base_spec() + S::spec_size()) as usize),
        ensures
            r == (self.base_spec() <= addr.addr() <= self.base_spec() + S::spec_size()),
    {
        let a = addr.as_usize();
        a >= self.base.as_usize() && a <= self.end_address().as_usize()
    }

    /// The range of frames from `self` to `end`, inclusive.
    pub fn range_inclusive(self, end: Frame<A, S>) -> (r: FrameRange<A, S>)
        ensures
            r.start_spec() == self,
            r.end_spec() == end,
    {
        FrameRange { start: self, end }
    }

    /// The range of frames from `self` up to, but not including, `end`.
    pub fn range_to(self, end: Frame<A, S>) -> (r: FrameRange<A, S>)
        requires
            end.base_spec() >= S::spec_size(),
            A::valid((end.base_spec() - S::spec_size()) as usize),
        ensures
            r.start_spec() == self,
            r.end_spec().base_spec() == end.base_spec() - S::spec_size(),
    {
        FrameRange { start: self, end: end.sub(1) }
    }

    /// The frame `rhs` frames after this one.
    pub fn add(self, rhs: usize) -> (r: Self)
        requires
            self.base_spec() + S::spec_size() * rhs <= usize::MAX,
            A::valid((self.base_spec() + S::spec_size() * rhs) as usize),
        ensures
            r.base_spec() == self.base_spec() + S::spec_size() * rhs,
    {
        let size = S::size();
        proof {
            assert(0 <= size * rhs <= usize::MAX) by (nonlinear_arith)
                requires
                    self.base_spec() + size * rhs <= usize::MAX,
            ;
        }
        Frame { base: self.base.add(size * rhs), _size: PhantomData }
    }

    /// The frame `rhs` frames before this one.
    pub fn sub(self, rhs: usize) -> (r: Self)
        requires
            self.base_spec() >= S::spec_size() * rhs,
            A::valid((self.base_spec() - S::spec_size() * rhs) as usize),
        ensures
            r.base_spec() == self.base_spec() - S::spec_size() * rhs,
    {
        let size = S::size();
        proof {
            assert(0 <= size * rhs <= usize::MAX) by (nonlinear_arith)
                requires
                    self.base_spec() >= size * rhs,
            ;
        }
        Frame { base: self.base.sub(size * rhs), _size: PhantomData }
    }
}

impl<A: Address, S: Size> FrameRange<A, S> {
    pub closed spec fn start_spec(&self) -> Frame<A, S> {
        self.start
    }

    pub closed spec fn end_spec(&self) -> Frame<A, S> {
        self.end
    }

    pub fn start(&self) -> (r: Frame<A, S>)
        ensures
            r == self.start_spec(),
    {
        self.start
    }

    pub fn end(&self) -> (r: Frame<A, S>)
        ensures
            r == self.end_spec(),
    {
        self.end
    }

    /// Yields the first remaining frame and advances the start of the range;
    /// returns `None` once the start has passed the end.
    pub fn next(&mut self) -> (r: Option<Frame<A, S>>)
        requires
            old(self).start_spec().base_spec() <= old(self).end_spec().base_spec() ==> {
                &&& old(self).start_spec().base_spec() + S::spec_size() <= usize::MAX
                &&& A::valid((old(self).start_spec().base_spec() + S::spec_size()) as usize)
            },
        ensures
            old(self).start_spec().base_spec() > old(self).end_spec().base_spec() ==> {
                &&& r is None
                &&& *final(self) == *old(self)
            },
            old(self).start_spec().base_spec() <= old(self).end_spec().base_spec() ==> {
                &&& r == Some(old(self).start_spec())
                &&& final(self).start_spec().base_spec() == old(self).start_spec().base_spec()
                    + S::spec_size()
                &&& final(self).end_spec() == old(self).end_spec()
            },
    {
        if self.start.base.as_usize() > self.end.base.as_usize() {
            return None;
        }
        let next = self.start;
        self.start = self.start.add(1);
        Some(next)
    }
}

} // verus!
