use mycelium::backoff::Backoff;
use mycelium::addr::{Address, VAddr};
use mycelium::interrupt::{
    ClaimLockError, Interrupt, PageFault, PageFaultContext, RegistrationError, Test,
};
use mycelium::loom::Track;
use mycelium::math::{
    align_up, is_power_of_two_usize, log2_ceil, msb_index, next_power_of_two, prev_power_of_two,
    size_class,
};
use mycelium::multiboot2::{Arch, TagType};
use mycelium::scheduler::{Tick, TickEvent, DEFAULT_TICK_SIZE};

#[test]
fn powers_of_two() {
    assert!(is_power_of_two_usize(1));
    assert!(is_power_of_two_usize(4096));
    assert!(!is_power_of_two_usize(0));
    assert!(!is_power_of_two_usize(48));
    assert_eq!(next_power_of_two(0), 1);
    assert_eq!(next_power_of_two(1), 1);
    assert_eq!(next_power_of_two(48), 64);
    assert_eq!(next_power_of_two(64), 64);
    assert_eq!(prev_power_of_two(48), 32);
    assert_eq!(prev_power_of_two(5), 4);
    assert_eq!(prev_power_of_two(64), 64);
    assert_eq!(prev_power_of_two(65), 64);
    assert_eq!(prev_power_of_two(1), 1);
    assert_eq!(log2_ceil(1), 0);
    assert_eq!(log2_ceil(4096), 12);
    assert_eq!(log2_ceil(4097), 13);
}

#[test]
fn alignment_and_bits() {
    assert_eq!(align_up(0, 8), 0);
    assert_eq!(align_up(1, 8), 8);
    assert_eq!(align_up(8, 8), 8);
    assert_eq!(align_up(13, 4), 16);
    assert_eq!(msb_index(0), 0);
    assert_eq!(msb_index(1), 1);
    assert_eq!(msb_index(0x80), 8);
    assert_eq!(msb_index(usize::MAX), usize::BITS);
}

#[test]
fn size_classes() {
    let word = core::mem::size_of::<usize>();
    // one word
    assert_eq!(size_class(1), 1);
    assert_eq!(size_class(word), 1);
    // up to eight words round up to an even word count
    assert_eq!(size_class(word + 1), 2);
    assert_eq!(size_class(3 * word), 4);
    assert_eq!(size_class(8 * word), 8);
    // from then on, four classes per doubling
    let w: usize = 9 - 1; // nine words, less one
    let bit_pos = (usize::BITS - w.leading_zeros()) as usize;
    assert_eq!(size_class(9 * word), ((bit_pos << 2) | ((w >> (bit_pos - 2)) & 3)) - 3);
    assert_eq!(size_class(9 * word), 15);
    // classes never go down as sizes grow
    let mut last = 0;
    for size in 1..4096 {
        let class = size_class(size);
        assert!(class >= last);
        last = class;
    }
}

#[test]
fn backoff_spins() {
    let mut boff = Backoff::new();
    for _ in 0..20 {
        boff.spin();
    }
    let mut boff = Backoff::with_max_exponent(2);
    boff.spin();
    boff.spin();
    boff.spin();
    let _ = Backoff::default();
}

#[test]
#[allow(clippy::bool_assert_comparison)]
fn tick_counts_polls() {
    let mut tick = Tick::new();
    assert_eq!(tick.polled, 0);
    assert_eq!(tick.completed, 0);
    assert!(tick.has_remaining);

    assert_eq!(tick.step(3, TickEvent::Polled(true)), true);
    assert_eq!(tick.step(3, TickEvent::Polled(false)), true);
    // the third poll reaches the tick size: the tick ends with tasks left
    assert_eq!(tick.step(3, TickEvent::Polled(true)), false);
    assert_eq!(tick.polled, 3);
    assert_eq!(tick.completed, 2);
    assert!(tick.has_remaining);
}

#[test]
fn tick_ends_when_run_queue_drains() {
    let mut tick = Tick::new();
    assert!(tick.step(DEFAULT_TICK_SIZE, TickEvent::Polled(true)));
    assert!(!tick.step(DEFAULT_TICK_SIZE, TickEvent::Drained));
    assert_eq!(tick.polled, 1);
    assert_eq!(tick.completed, 1);
    assert!(!tick.has_remaining);
    assert_eq!(DEFAULT_TICK_SIZE, 256);
}

#[test]
fn registration_errors() {
    let e = RegistrationError::nonexistant();
    assert!(e.is_nonexistant());
    assert!(!e.is_already_registered());
    let e = RegistrationError::already_registered();
    assert!(e.is_already_registered());
    assert!(!e.is_nonexistant());
    let e = RegistrationError::other("platform says no");
    assert!(!e.is_nonexistant());
    assert!(!e.is_already_registered());
    assert_ne!(ClaimLockError::AlreadyClaimed, ClaimLockError::NoSuchIrq);
}

#[test]
fn interrupt_names() {
    assert_eq!(<PageFault<()> as Interrupt<()>>::NAME, "page fault");
    assert_eq!(<Test<()> as Interrupt<()>>::NAME, "test");
}

#[test]
fn multiboot2_ids() {
    assert_eq!(Arch::X86.id(), 0);
    assert_eq!(Arch::Mips.id(), 4);
    assert_eq!(TagType::End.id(), 0);
    assert_eq!(TagType::CommandLine.id(), 1);
    assert_eq!(TagType::MemoryMap.id(), 6);
    assert_eq!(TagType::FramebufferInfo.id(), 8);
    assert_eq!(TagType::ApmTable.id(), 10);
}

#[test]
fn track_holds_its_value() {
    let mut t = Track::new(5);
    assert_eq!(*t.get_ref(), 5);
    *t.get_mut() = 6;
    assert_eq!(t.into_inner(), 6);
    let t = Track::new_const("x");
    assert_eq!(*t.get_ref(), "x");
}

struct Fault {
    addr: usize,
    not_present: bool,
}

impl PageFaultContext for Fault {
    fn spec_not_present(&self) -> bool {
        self.not_present
    }

    fn address(&self) -> VAddr {
        VAddr::from_usize(self.addr)
    }

    fn was_not_present(&self) -> bool {
        self.not_present
    }

    fn was_user_mode(&self) -> bool {
        false
    }
}

#[test]
fn protection_violation_is_a_fault_on_a_present_page() {
    let missing = Fault { addr: 0x1000, not_present: true };
    assert!(!missing.was_protection_violation());
    let present = Fault { addr: 0x2000, not_present: false };
    assert!(present.was_protection_violation());
    assert_eq!(present.address().as_usize(), 0x2000);
}
