//! Interrupt handling: the errors of registering a handler, and the kinds
//! of faults.
use vstd::prelude::*;

use core::marker::PhantomData;

use crate::addr::VAddr;

verus! {

/// Why registering an interrupt handler failed.
#[derive(Debug, Clone, PartialEq, Eq)]
pub enum RegistrationErrorKind {
    /// The interrupt vector does not exist.
    Nonexistant,
    /// A handler is already registered for the vector.
    AlreadyRegistered,
    /// A platform-specific error.
    Other(&'static str),
}

/// An error that may occur while registering an interrupt handler.
#[derive(Debug, Clone, PartialEq, Eq)]
pub struct RegistrationError {
    kind: RegistrationErrorKind,
}

impl RegistrationError {
    /// Why registration failed.
    pub closed spec fn kind_spec(&self) -> RegistrationErrorKind {
        self.kind
    }

    /// Returns an error saying that the interrupt vector does not exist.
    pub fn nonexistant() -> (r: Self)
        ensures
            r.kind_spec() == RegistrationErrorKind::Nonexistant,
    {
        RegistrationError { kind: RegistrationErrorKind::Nonexistant }
    }

    /// Returns an error saying that the interrupt vector already has a
    /// handler and cannot be registered again.
    pub fn already_registered() -> (r: Self)
        ensures
            r.kind_spec() == RegistrationErrorKind::AlreadyRegistered,
    {
        RegistrationError { kind: RegistrationErrorKind::AlreadyRegistered }
    }

    /// Returns a platform-specific error with `message`.
    pub fn other(message: &'static str) -> (r: Self)
        ensures
            r.kind_spec() == RegistrationErrorKind::Other(message),
    {
        RegistrationError { kind: RegistrationErrorKind::Other(message) }
    }

    /// Returns `true` if the interrupt vector does not exist.
    pub fn is_nonexistant(&self) -> (r: bool)
        ensures
            r == (self.kind_spec() is Nonexistant),
    {
        match self.kind {
            RegistrationErrorKind::Nonexistant => true,
            _ => false,
        }
    }

    /// Returns `true` if the interrupt vector already had a handler.
    pub fn is_already_registered(&self) -> (r: bool)
        ensures
            r == (self.kind_spec() is AlreadyRegistered),
    {
        match self.kind {
            RegistrationErrorKind::AlreadyRegistered => true,
            _ => false,
        }
    }
}

/// An interrupt, handled in a context of type `Ctx`.
pub trait Interrupt<Ctx> {
    /// What the handler returns.
    type Out;

    /// The name of the interrupt, for diagnostics.
    const NAME: &'static str;
}

/// The page fault interrupt.
pub struct PageFault<C> {
    _p: PhantomData<C>,
}

impl<C> Interrupt<C> for PageFault<C> {
    type Out = ();

    const NAME: &'static str = "page fault";
}

/// An interrupt raised for testing.
pub struct Test<C> {
    _p: PhantomData<C>,
}

impl<C> Interrupt<C> for Test<C> {
    type Out = ();

    const NAME: &'static str = "test";
}

/// The context an interrupt handler runs in: the saved registers.
pub trait Context {
    /// The saved register state.
    type Registers;

    /// Returns the saved registers.
    fn registers(&self) -> &Self::Registers;
}

/// The context of a page fault: the address that faulted and why.
pub trait PageFaultContext {
    /// Whether the faulting page was not present.
    spec fn spec_not_present(&self) -> bool;

    /// Returns the virtual address whose access faulted.
    fn address(&self) -> VAddr;

    /// Returns `true` if the fault happened because the page was not
    /// present.
    fn was_not_present(&self) -> (r: bool)
        ensures
            r == self.spec_not_present(),
    ;

    /// Returns `true` if the fault happened in user mode.
    fn was_user_mode(&self) -> bool;

    /// Returns `true` if the fault was a protection violation: every fault
    /// on a page that was present is one.
    fn was_protection_violation(&self) -> (r: bool)
        ensures
            r == !self.spec_not_present(),
    {
        !self.was_not_present()
    }
}

/// A fault caused by the code that was running.
pub trait CodeFault: Context {
    /// Returns `true` if the fault happened while running user mode code.
    fn is_user_mode(&self) -> bool;

    /// Returns the virtual address of the instruction that faulted.
    fn instruction_ptr(&self) -> VAddr;

    /// Returns a static string naming the kind of fault.
    fn fault_kind(&self) -> &'static str;
}

/// The kind of a fault caused by the code that was running.
#[non_exhaustive]
#[derive(Debug, Clone, Copy, PartialEq, Eq)]
pub enum CodeFaultKind {
    /// A division by zero.
    Division,
    /// An invalid instruction.
    InvalidInstruction,
    /// An arithmetic overflow.
    Overflow,
    /// A misaligned access.
    Alignment,
    /// Another kind of fault, described by the message.
    Other(&'static str),
}

/// Why claiming an interrupt vector's lock failed.
#[derive(Debug, Clone, Copy, PartialEq, Eq, Structural)]
pub enum ClaimLockError {
    /// The lock was already claimed.
    AlreadyClaimed,
    /// There is no such interrupt vector.
    NoSuchIrq,
}

} // verus!
