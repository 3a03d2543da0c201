//! Value types shared by the lifecycle desired-state and arbitration layers.
use vstd::prelude::*;

use super::ids::{LifecycleEpochId, LifecycleTransitionId};

verus! {

/// Coordinator-assigned identity for one projected lifecycle event.
///
/// The checked counter starts at one and reports exhaustion rather than
/// wrapping or reusing an event identity.
#[derive(Debug, Clone, Copy, PartialEq, Eq, Structural, PartialOrd, Ord, Hash)]
pub struct LifecycleEventId(u64);

impl View for LifecycleEventId {
    type V = u64;

    closed spec fn view(&self) -> u64 {
        self.0
    }
}

impl LifecycleEventId {
    /// Two event ids are the same exactly when their raw values are.
    pub proof fn lemma_view_injective(a: Self, b: Self)
        ensures
            (a@ == b@) <==> a == b,
    {
    }

    pub fn first() -> (r: Self)
        ensures
            r@ == 1,
    {
        LifecycleEventId(1)
    }

    pub fn get(self) -> (r: u64)
        ensures
            r == self@,
    {
        self.0
    }

    pub fn from_raw(raw: u64) -> (r: Self)
        ensures
            r@ == raw,
    {
        LifecycleEventId(raw)
    }

    /// `None` exactly when the id cannot advance without wrapping.
    pub fn checked_next(self) -> (r: Option<Self>)
        ensures
            self@ < u64::MAX ==> (r matches Some(n) && n@ == self@ + 1),
            self@ == u64::MAX ==> r is None,
    {
        if self.0 < u64::MAX {
            Some(LifecycleEventId(self.0 + 1))
        } else {
            None
        }
    }

    pub fn next(self) -> (r: Self)
        requires
            self@ < u64::MAX,
        ensures
            r@ == self@ + 1,
    {
        LifecycleEventId(self.0 + 1)
    }
}

/// The lifecycle kinds, declared from highest to lowest precedence.
#[derive(Debug, Clone, Copy, PartialEq, Eq, Structural, PartialOrd, Ord, Hash)]
pub enum LifecycleKind {
    Shutdown,
    DeviceRemoved,
    VTRelease,
    DeviceAddedOrReplaced,
    VTAcquire,
    AdministrativeReprobe,
    IdentityChangingHotplug,
    TopologyRebuild,
    DPMS,
    NormalRecovery,
}

/// Zero is the highest precedence; larger values have lower precedence.
pub open spec fn kind_precedence(kind: LifecycleKind) -> u8 {
    match kind {
        LifecycleKind::Shutdown => 0,
        LifecycleKind::DeviceRemoved => 1,
        LifecycleKind::VTRelease => 2,
        LifecycleKind::DeviceAddedOrReplaced => 3,
        LifecycleKind::VTAcquire => 4,
        LifecycleKind::AdministrativeReprobe => 5,
        LifecycleKind::IdentityChangingHotplug => 6,
        LifecycleKind::TopologyRebuild => 7,
        LifecycleKind::DPMS => 8,
        LifecycleKind::NormalRecovery => 9,
    }
}

impl LifecycleKind {
    /// Every kind in precedence order, for exhaustive tables.
    pub fn all() -> (r: [Self; 10])
        ensures
            forall|i: int| 0 <= i < 10 ==> kind_precedence(#[trigger] r@[i]) == i,
    {
        [
            Self::Shutdown,
            Self::DeviceRemoved,
            Self::VTRelease,
            Self::DeviceAddedOrReplaced,
            Self::VTAcquire,
            Self::AdministrativeReprobe,
            Self::IdentityChangingHotplug,
            Self::TopologyRebuild,
            Self::DPMS,
            Self::NormalRecovery,
        ]
    }

    /// Zero is the highest precedence; larger values have lower precedence.
    pub fn precedence(self) -> (r: u8)
        ensures
            r == kind_precedence(self),
    {
        match self {
            Self::Shutdown => 0,
            Self::DeviceRemoved => 1,
            Self::VTRelease => 2,
            Self::DeviceAddedOrReplaced => 3,
            Self::VTAcquire => 4,
            Self::AdministrativeReprobe => 5,
            Self::IdentityChangingHotplug => 6,
            Self::TopologyRebuild => 7,
            Self::DPMS => 8,
            Self::NormalRecovery => 9,
        }
    }

    pub fn outranks(self, other: Self) -> (r: bool)
        ensures
            r == (kind_precedence(self) < kind_precedence(other)),
    {
        self.precedence() < other.precedence()
    }
}

/// Law: precedence is injective, so `outranks` is a strict total order on
/// kinds: of two different kinds, exactly one outranks the other.
pub proof fn lemma_precedence_is_total(a: LifecycleKind, b: LifecycleKind)
    ensures
        a != b ==> (kind_precedence(a) < kind_precedence(b)) != (kind_precedence(b) < kind_precedence(a)),
        !(kind_precedence(a) < kind_precedence(a)),
        (kind_precedence(a) == kind_precedence(b)) ==> a == b,
{
}

/// Terminal or pending outcome for one lifecycle event representative.
#[derive(Debug, Clone, Copy, PartialEq, Eq, Structural, Hash)]
pub enum Disposition {
    Applied(LifecycleTransitionId),
    AbsorbedByEvent(LifecycleEventId),
    AbsorbedByTransition(LifecycleTransitionId),
    Invalidated(InvalidationReason),
    SupersededBy(LifecycleEventId),
    Deferred(Prerequisite),
}

/// Every disposition except `Deferred` is terminal.
pub open spec fn disposition_is_terminal(d: Disposition) -> bool {
    !(d is Deferred)
}

impl Disposition {
    /// One value for every variant, for exhaustive tables.
    pub fn all() -> (r: [Self; 6])
        ensures
            forall|i: int| 0 <= i < 5 ==> disposition_is_terminal(#[trigger] r@[i]),
            !disposition_is_terminal(r@[5]),
    {
        [
            Self::Applied(LifecycleTransitionId::from_raw(1)),
            Self::AbsorbedByEvent(LifecycleEventId::from_raw(1)),
            Self::AbsorbedByTransition(LifecycleTransitionId::from_raw(1)),
            Self::Invalidated(InvalidationReason::Shutdown),
            Self::SupersededBy(LifecycleEventId::from_raw(1)),
            Self::Deferred(Prerequisite::SeatReleased),
        ]
    }

    pub fn is_terminal(self) -> (r: bool)
        ensures
            r == disposition_is_terminal(self),
    {
        !matches!(self, Self::Deferred(_))
    }
}

/// Invalidation causes, the four external recovery boundaries, and the
/// recovery-attempt failure outcome.
#[derive(Debug, Clone, Copy, PartialEq, Eq, Structural, Hash)]
pub enum InvalidationReason {
    Shutdown,
    DeviceRemoved,
    VTRelease,
    ProtocolOutputRemoved,
    NewerGeneration,
    DeviceAddedOrReplaced,
    VTAcquire,
    AdministrativeReprobe,
    IdentityChangingHotplug,
    RecoveryFailed,
}

impl InvalidationReason {
    /// Every invalidation reason, for exhaustive tables.
    pub fn all() -> (r: [Self; 10])
        ensures
            r@ == seq![
                Self::Shutdown,
                Self::DeviceRemoved,
                Self::VTRelease,
                Self::ProtocolOutputRemoved,
                Self::NewerGeneration,
                Self::DeviceAddedOrReplaced,
                Self::VTAcquire,
                Self::AdministrativeReprobe,
                Self::IdentityChangingHotplug,
                Self::RecoveryFailed,
            ],
    {
        [
            Self::Shutdown,
            Self::DeviceRemoved,
            Self::VTRelease,
            Self::ProtocolOutputRemoved,
            Self::NewerGeneration,
            Self::DeviceAddedOrReplaced,
            Self::VTAcquire,
            Self::AdministrativeReprobe,
            Self::IdentityChangingHotplug,
            Self::RecoveryFailed,
        ]
    }
}

/// External condition that currently prevents a desired target from running.
#[derive(Debug, Clone, Copy, PartialEq, Eq, Structural, Hash)]
pub enum Prerequisite {
    SeatReleased,
    DeviceAbsent,
    TopologyLatched(u64),
    ReadinessClosed,
}

impl Prerequisite {
    /// One value for every variant, for exhaustive tables.
    pub fn all() -> (r: [Self; 4])
        ensures
            r@ == seq![Self::SeatReleased, Self::DeviceAbsent, Self::TopologyLatched(1), Self::ReadinessClosed],
    {
        [Self::SeatReleased, Self::DeviceAbsent, Self::TopologyLatched(1), Self::ReadinessClosed]
    }
}

/// Incident identity for one completion-loss recovery attempt. It is not a
/// lifecycle transition identity.
#[derive(Debug, Clone, Copy, PartialEq, Eq, Structural, PartialOrd, Ord, Hash)]
pub struct RecoveryId(u64);

impl View for RecoveryId {
    type V = u64;

    closed spec fn view(&self) -> u64 {
        self.0
    }
}

impl RecoveryId {
    /// Two recovery ids are the same exactly when their raw values are.
    pub proof fn lemma_view_injective(a: Self, b: Self)
        ensures
            (a@ == b@) <==> a == b,
    {
    }

    pub fn first() -> (r: Self)
        ensures
            r@ == 1,
    {
        RecoveryId(1)
    }

    pub fn get(self) -> (r: u64)
        ensures
            r == self@,
    {
        self.0
    }

    pub fn from_raw(raw: u64) -> (r: Self)
        ensures
            r@ == raw,
    {
        RecoveryId(raw)
    }

    /// `None` exactly when the id cannot advance without wrapping.
    pub fn checked_next(self) -> (r: Option<Self>)
        ensures
            self@ < u64::MAX ==> (r matches Some(n) && n@ == self@ + 1),
            self@ == u64::MAX ==> r is None,
    {
        if self.0 < u64::MAX {
            Some(RecoveryId(self.0 + 1))
        } else {
            None
        }
    }

    pub fn next(self) -> (r: Self)
        requires
            self@ < u64::MAX,
        ensures
            r@ == self@ + 1,
    {
        RecoveryId(self.0 + 1)
    }
}

/// The nine device lifecycle states.
#[derive(Debug, Clone, Copy, PartialEq, Eq, Structural, Hash)]
pub enum DeviceLifecycleState {
    Unqualified,
    Ready,
    Quiescing,
    Poisoned,
    Recovering(RecoveryId),
    RecoveryFailed,
    ExecutorStalled,
    ShutdownExecutorStalled,
    Removed,
}

impl DeviceLifecycleState {
    /// One value for each state, for exhaustive tables.
    pub fn all() -> (r: [Self; 9])
        ensures
            r@.len() == 9,
            r@[0] == Self::Unqualified,
            r@[1] == Self::Ready,
            r@[2] == Self::Quiescing,
            r@[3] == Self::Poisoned,
            r@[4] is Recovering && r@[4]->Recovering_0@ == 1,
            r@[5] == Self::RecoveryFailed,
            r@[6] == Self::ExecutorStalled,
            r@[7] == Self::ShutdownExecutorStalled,
            r@[8] == Self::Removed,
    {
        [
            Self::Unqualified,
            Self::Ready,
            Self::Quiescing,
            Self::Poisoned,
            Self::Recovering(RecoveryId::from_raw(1)),
            Self::RecoveryFailed,
            Self::ExecutorStalled,
            Self::ShutdownExecutorStalled,
            Self::Removed,
        ]
    }
}

/// Ordinary or transition-owned work identity. The caller supplies the
/// opaque incarnation identity.
#[derive(Debug, Clone, Copy, PartialEq, Eq, Hash)]
pub struct WorkTag<I> {
    pub incarnation: I,
    pub lifecycle_epoch: LifecycleEpochId,
    pub transition: Option<LifecycleTransitionId>,
}

impl<I> WorkTag<I> {
    pub fn ordinary(incarnation: I, lifecycle_epoch: LifecycleEpochId) -> (r: Self)
        ensures
            r.incarnation == incarnation,
            r.lifecycle_epoch == lifecycle_epoch,
            r.transition is None,
    {
        WorkTag { incarnation, lifecycle_epoch, transition: None }
    }

    pub fn transition_owned(tag: TransitionTag<I>) -> (r: Self)
        ensures
            r.incarnation == tag.incarnation,
            r.lifecycle_epoch == tag.lifecycle_epoch,
            r.transition == Some(tag.transition),
    {
        WorkTag {
            incarnation: tag.incarnation,
            lifecycle_epoch: tag.lifecycle_epoch,
            transition: Some(tag.transition),
        }
    }
}

/// The transition-owned (`Some`) case of a [`WorkTag`].
#[derive(Debug, Clone, Copy, PartialEq, Eq, Hash)]
pub struct TransitionTag<I> {
    pub incarnation: I,
    pub lifecycle_epoch: LifecycleEpochId,
    pub transition: LifecycleTransitionId,
}

impl<I> TransitionTag<I> {
    pub fn new(incarnation: I, lifecycle_epoch: LifecycleEpochId, transition: LifecycleTransitionId) -> (r: Self)
        ensures
            r.incarnation == incarnation,
            r.lifecycle_epoch == lifecycle_epoch,
            r.transition == transition,
    {
        TransitionTag { incarnation, lifecycle_epoch, transition }
    }

    pub fn as_work_tag(self) -> (r: WorkTag<I>)
        ensures
            r.incarnation == self.incarnation,
            r.lifecycle_epoch == self.lifecycle_epoch,
            r.transition == Some(self.transition),
    {
        WorkTag::transition_owned(self)
    }
}

} // verus!
