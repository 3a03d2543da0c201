//! Lifecycle identities.
//!
//! `LifecycleEpochId` is always present, including during ordinary `Ready`
//! traffic. A transition id is optional: ordinary commits carry `None`,
//! never a fabricated or previous id.
use vstd::prelude::*;

verus! {

/// Monotonic lifecycle epoch, carried by every executor request and reply.
#[derive(Debug, Clone, Copy, PartialEq, Eq, Structural, PartialOrd, Ord, Hash)]
pub struct LifecycleEpochId(u64);

impl View for LifecycleEpochId {
    type V = u64;

    closed spec fn view(&self) -> u64 {
        self.0
    }
}

impl LifecycleEpochId {
    /// Two epochs are the same exactly when their raw values are.
    pub proof fn lemma_view_injective(a: Self, b: Self)
        ensures
            (a@ == b@) <==> a == b,
    {
    }

    pub fn first() -> (r: Self)
        ensures
            r@ == 1,
    {
        LifecycleEpochId(1)
    }

    pub fn get(self) -> (r: u64)
        ensures
            r == self@,
    {
        self.0
    }

    pub fn from_raw(raw: u64) -> (r: Self)
        ensures
            r@ == raw,
    {
        LifecycleEpochId(raw)
    }

    /// `None` exactly when the epoch cannot advance without wrapping.
    pub fn checked_next(self) -> (r: Option<Self>)
        ensures
            self@ < u64::MAX ==> (r matches Some(n) && n@ == self@ + 1),
            self@ == u64::MAX ==> r is None,
    {
        if self.0 < u64::MAX {
            Some(LifecycleEpochId(self.0 + 1))
        } else {
            None
        }
    }

    pub fn next(self) -> (r: Self)
        requires
            self@ < u64::MAX,
        ensures
            r@ == self@ + 1,
    {
        LifecycleEpochId(self.0 + 1)
    }
}

/// Identifies one lifecycle transition. It has no `next`: the arbiter
/// publishes transition ids; they are not allocated by counting here.
#[derive(Debug, Clone, Copy, PartialEq, Eq, Structural, PartialOrd, Ord, Hash)]
pub struct LifecycleTransitionId(u64);

impl View for LifecycleTransitionId {
    type V = u64;

    closed spec fn view(&self) -> u64 {
        self.0
    }
}

impl LifecycleTransitionId {
    /// Two transition ids are the same exactly when their raw values are.
    pub proof fn lemma_view_injective(a: Self, b: Self)
        ensures
            (a@ == b@) <==> a == b,
    {
    }

    pub fn get(self) -> (r: u64)
        ensures
            r == self@,
    {
        self.0
    }

    pub fn from_raw(raw: u64) -> (r: Self)
        ensures
            r@ == raw,
    {
        LifecycleTransitionId(raw)
    }
}

/// Monotonic per-probe identity within an incarnation.
#[derive(Debug, Clone, Copy, PartialEq, Eq, Structural, PartialOrd, Ord, Hash)]
pub struct ClockProbeId(u64);

impl View for ClockProbeId {
    type V = u64;

    closed spec fn view(&self) -> u64 {
        self.0
    }
}

impl ClockProbeId {
    /// Two probe ids are the same exactly when their raw values are.
    pub proof fn lemma_view_injective(a: Self, b: Self)
        ensures
            (a@ == b@) <==> a == b,
    {
    }

    pub fn first() -> (r: Self)
        ensures
            r@ == 1,
    {
        ClockProbeId(1)
    }

    pub fn get(self) -> (r: u64)
        ensures
            r == self@,
    {
        self.0
    }

    pub fn from_raw(raw: u64) -> (r: Self)
        ensures
            r@ == raw,
    {
        ClockProbeId(raw)
    }

    /// `None` exactly when the id cannot advance without wrapping.
    pub fn checked_next(self) -> (r: Option<Self>)
        ensures
            self@ < u64::MAX ==> (r matches Some(n) && n@ == self@ + 1),
            self@ == u64::MAX ==> r is None,
    {
        if self.0 < u64::MAX {
            Some(ClockProbeId(self.0 + 1))
        } else {
            None
        }
    }

    pub fn next(self) -> (r: Self)
        requires
            self@ < u64::MAX,
        ensures
            r@ == self@ + 1,
    {
        ClockProbeId(self.0 + 1)
    }
}

} // verus!
