//! How far a commit record has come, and why it stopped.
use vstd::prelude::*;

verus! {

#[derive(Debug, Clone, Copy, Default, Eq, PartialEq, Structural)]
pub struct Milestones {
    pub producer_ready: bool,
    pub dispatched: bool,
    pub accepted: bool,
    pub hardware_complete: bool,
    pub presented: bool,
    pub prior_buffer_released: bool,
}

#[derive(Debug, Clone, Copy, Eq, PartialEq, Structural)]
pub enum FailureCause {
    /// Cancelled, or refused by the executor, before any IPC crossed the
    /// uncertainty boundary.
    NeverDispatched(RefusalCause),
    /// An explicit ioctl rejection: the only proof after dispatch that the
    /// commit failed before it was submitted.
    IoctlRejected { errno: i32 },
}

/// Why the executor refused before anything was in flight: nothing crossed
/// the boundary, so nothing is uncertain.
#[derive(Debug, Clone, Copy, Eq, PartialEq, Structural)]
pub enum RefusalCause {
    Reaped,
    Stalled,
    AlreadyInFlight,
    ReservationMismatch,
    BoundaryViolation,
}

} // verus!
