use vstd::prelude::*;

pub mod addr;
pub mod backoff;
pub mod bitfield;
pub mod buddy;
pub mod bump;
pub mod example;
pub mod from_bits;
pub mod framebuffer;
pub mod interrupt;
pub mod mem;
pub mod list;
pub mod loom;
pub mod math;
pub mod mpsc_queue;
pub mod multiboot2;
pub mod pack;
pub mod scheduler;
pub mod sorted_list;
pub mod task_state;
pub mod transfer_stack;

verus! {

} // verus!
