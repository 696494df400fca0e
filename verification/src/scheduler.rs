//! The bookkeeping of a scheduler tick: how many tasks a tick polled, how
//! many of them completed, and whether the run queue still had tasks when
//! the tick ended.
//!
//! Polling a task's future is the caller's work: it dequeues a task, polls
//! it, and reports each poll, or the run queue running dry, to the tick.
use vstd::prelude::*;

verus! {

/// The number of tasks polled per tick by default.
pub const DEFAULT_TICK_SIZE: usize = 256;

/// What happened since the tick last heard from the caller.
#[derive(Copy, Clone, Debug, PartialEq, Eq, Structural)]
pub enum TickEvent {
    /// A task was polled; the flag says whether its future completed.
    Polled(bool),
    /// The run queue was empty.
    Drained,
}

/// The outcome of a scheduler tick.
#[derive(Debug)]
pub struct Tick {
    /// The number of tasks polled.
    pub polled: usize,
    /// The number of polled tasks whose futures completed.
    pub completed: usize,
    /// Whether the run queue still held tasks when the tick ended.
    pub has_remaining: bool,
    _p: (),
}

impl Tick {
    /// The number of tasks polled.
    pub closed spec fn polled_spec(&self) -> usize {
        self.polled
    }

    /// The number of polled tasks whose futures completed.
    pub closed spec fn completed_spec(&self) -> usize {
        self.completed
    }

    /// Whether the run queue still held tasks.
    pub closed spec fn has_remaining_spec(&self) -> bool {
        self.has_remaining
    }

    /// Returns the state of a tick before any task is polled.
    pub fn new() -> (r: Tick)
        ensures
            r.polled_spec() == 0,
            r.completed_spec() == 0,
            r.has_remaining_spec(),
    {
        Tick { polled: 0, completed: 0, has_remaining: true, _p: () }
    }

    /// Records `event` in a tick that ends once it has polled `n` tasks.
    /// Returns `true` if the tick goes on: a task was polled and the count
    /// of polled tasks has not reached `n`.
    pub fn step(&mut self, n: usize, event: TickEvent) -> (r: bool)
        requires
            old(self).polled_spec() < usize::MAX,
            old(self).completed_spec() <= old(self).polled_spec(),
        ensures
            final(self).completed_spec() <= final(self).polled_spec(),
            event matches TickEvent::Polled(ready) ==> {
                &&& final(self).polled_spec() == old(self).polled_spec() + 1
                &&& final(self).completed_spec() == old(self).completed_spec() + if ready {
                    1int
                } else {
                    0int
                }
                &&& final(self).has_remaining_spec() == old(self).has_remaining_spec()
                &&& r == (final(self).polled_spec() != n)
            },
            event is Drained ==> {
                &&& final(self).polled_spec() == old(self).polled_spec()
                &&& final(self).completed_spec() == old(self).completed_spec()
                &&& !final(self).has_remaining_spec()
                &&& !r
            },
    {
        match event {
            TickEvent::Polled(ready) => {
                if ready {
                    self.completed = self.completed + 1;
                }
                self.polled = self.polled + 1;
                self.polled != n
            },
            TickEvent::Drained => {
                self.has_remaining = false;
                false
            },
        }
    }
}

} // verus!
