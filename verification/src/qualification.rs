//! Exact install/restore completion-mechanism qualification.
use vstd::prelude::*;

use std::collections::BTreeSet;

use crate::identity::{CommitId, IncarnationId};

verus! {

#[derive(Debug, Clone, Copy, PartialEq, Eq, Structural)]
pub enum CompletionQualification {
    Unqualified { topology_generation: u64 },
    Awaiting { topology_generation: u64, commit: CommitId },
    Qualified { topology_generation: u64, commit: CommitId },
}

/// The completion capabilities a device reported for one topology.
#[derive(Debug, Clone, PartialEq, Eq)]
pub struct CompletionCaps {
    pub(crate) incarnation: IncarnationId,
    pub(crate) topology_generation: u64,
    pub(crate) atomic_enabled: bool,
    pub(crate) crtc_in_event: bool,
    pub(crate) monotonic: bool,
    pub(crate) out_fence_crtcs: BTreeSet<u32>,
}

impl CompletionCaps {
    pub closed spec fn spec_incarnation(&self) -> IncarnationId {
        self.incarnation
    }

    pub closed spec fn spec_topology_generation(&self) -> u64 {
        self.topology_generation
    }

    pub closed spec fn spec_atomic_enabled(&self) -> bool {
        self.atomic_enabled
    }

    pub closed spec fn spec_crtc_in_event(&self) -> bool {
        self.crtc_in_event
    }

    pub closed spec fn spec_monotonic(&self) -> bool {
        self.monotonic
    }

    pub closed spec fn spec_out_fence_crtcs(&self) -> Set<u32> {
        self.out_fence_crtcs@
    }

    pub(crate) fn new(
        incarnation: IncarnationId,
        topology_generation: u64,
        atomic_enabled: bool,
        crtc_in_event: bool,
        monotonic: bool,
        out_fence_crtcs: BTreeSet<u32>,
    ) -> (r: Self)
        ensures
            r.spec_incarnation() == incarnation,
            r.spec_topology_generation() == topology_generation,
            r.spec_atomic_enabled() == atomic_enabled,
            r.spec_crtc_in_event() == crtc_in_event,
            r.spec_monotonic() == monotonic,
            r.spec_out_fence_crtcs() == out_fence_crtcs@,
    {
        CompletionCaps {
            incarnation,
            topology_generation,
            atomic_enabled,
            crtc_in_event,
            monotonic,
            out_fence_crtcs,
        }
    }

    pub fn new_for_tests(
        incarnation: IncarnationId,
        topology_generation: u64,
        atomic_enabled: bool,
        crtc_in_event: bool,
        monotonic: bool,
        out_fence_crtcs: BTreeSet<u32>,
    ) -> (r: Self)
        ensures
            r.spec_incarnation() == incarnation,
            r.spec_topology_generation() == topology_generation,
            r.spec_atomic_enabled() == atomic_enabled,
            r.spec_crtc_in_event() == crtc_in_event,
            r.spec_monotonic() == monotonic,
            r.spec_out_fence_crtcs() == out_fence_crtcs@,
    {
        Self::new(incarnation, topology_generation, atomic_enabled, crtc_in_event, monotonic, out_fence_crtcs)
    }

    pub fn incarnation(&self) -> (r: IncarnationId)
        ensures
            r == self.spec_incarnation(),
    {
        self.incarnation
    }

    pub fn topology_generation(&self) -> (r: u64)
        ensures
            r == self.spec_topology_generation(),
    {
        self.topology_generation
    }

    pub fn atomic_enabled(&self) -> (r: bool)
        ensures
            r == self.spec_atomic_enabled(),
    {
        self.atomic_enabled
    }

    pub fn crtc_in_event(&self) -> (r: bool)
        ensures
            r == self.spec_crtc_in_event(),
    {
        self.crtc_in_event
    }

    pub fn monotonic(&self) -> (r: bool)
        ensures
            r == self.spec_monotonic(),
    {
        self.monotonic
    }

    pub fn out_fence_crtcs(&self) -> (r: &BTreeSet<u32>)
        ensures
            r@ == self.spec_out_fence_crtcs(),
    {
        &self.out_fence_crtcs
    }

    /// Atomic commits, CRTC ids in events and monotonic timestamps together.
    pub fn is_structurally_capable(&self) -> (r: bool)
        ensures
            r == (self.spec_atomic_enabled() && self.spec_crtc_in_event() && self.spec_monotonic()),
    {
        self.atomic_enabled && self.crtc_in_event && self.monotonic
    }
}

} // verus!
