//! Completion evidence gathered for one commit.
use vstd::prelude::*;

use std::collections::{BTreeMap, BTreeSet};
use std::time::Instant;

use crate::clock::ClockSample;

verus! {

#[derive(Debug, Clone, Copy, Eq, PartialEq, Structural)]
pub enum CompletionClass {
    FastUpdate,
    LifecycleInstallRestore,
}

/// What a commit has shown of its completion so far.
#[derive(Debug, Default)]
pub struct CompletionState {
    pub observed: BTreeSet<u32>,
    pub staged_general: BTreeMap<u32, ClockSample>,
    pub staged_present: BTreeMap<u32, ClockSample>,
    pub successful_fences: BTreeSet<u32>,
    pub accepted_at: Option<Instant>,
    pub hardware_complete_at: Option<Instant>,
    pub hardware_deadline: Option<Instant>,
    pub present_deadlines: BTreeMap<u32, Instant>,
}

#[derive(Debug, Clone, Copy, Eq, PartialEq, Structural)]
pub enum MechanismFailure {
    MalformedEvent,
    ActiveEventContradiction,
    ClockContradiction,
    FenceInvalid,
    FenceError,
    FencePollError,
    HardwareTimeout,
    PresentTimeout,
    DeadlineOverflow,
    HostCallUnknown,
}

} // verus!
