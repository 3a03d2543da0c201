//! Pure completion-loss and recovery-fate decisions.
use vstd::prelude::*;

use super::ids::LifecycleTransitionId;
use super::values::{Disposition, InvalidationReason, LifecycleEventId, LifecycleKind, RecoveryId};

verus! {

/// Whether the current projected DPMS level requests power on or off.
#[derive(Debug, Clone, Copy, PartialEq, Eq, Structural, Hash)]
pub enum DpmsTarget {
    On,
    Off,
}

/// Level 0 means On; Standby, Suspend and Off (levels 1 to 3) all mean Off.
pub open spec fn level_target(level: u8) -> Option<DpmsTarget> {
    if level == 0 {
        Some(DpmsTarget::On)
    } else if level <= 3 {
        Some(DpmsTarget::Off)
    } else {
        None
    }
}

/// Convert an X11 DPMS level to the binary KMS power target.
pub fn dpms_target_for_level(level: u8) -> (r: Option<DpmsTarget>)
    ensures
        r == level_target(level),
{
    match level {
        0 => Some(DpmsTarget::On),
        1..=3 => Some(DpmsTarget::Off),
        _ => None,
    }
}

/// State of one incident's sole automatic recovery attempt.
#[derive(Debug, Clone, Copy, PartialEq, Eq, Structural, Hash)]
pub enum RecoveryIncidentState {
    Active,
    Paused,
    Attempting,
    RecoveryFailed,
}

impl RecoveryIncidentState {
    /// Every state, for exhaustive tables.
    pub fn all() -> (r: [Self; 4])
        ensures
            r@ == seq![Self::Active, Self::Paused, Self::Attempting, Self::RecoveryFailed],
    {
        [Self::Active, Self::Paused, Self::Attempting, Self::RecoveryFailed]
    }
}

/// Whether the incident's one attempt remains available.
#[derive(Debug, Clone, Copy, PartialEq, Eq, Structural, Hash)]
pub enum RecoveryAttemptBudget {
    Available,
    Spent,
}

/// Only the post-reap continuation may start the sole automatic attempt.
#[derive(Debug, Clone, Copy, PartialEq, Eq, Structural, Hash)]
pub enum RecoveryAttemptTrigger {
    AfterReap,
    Timer,
    Dpms,
    ClientTraffic,
    QueuedIntent,
}

impl RecoveryAttemptTrigger {
    /// Every trigger, for exhaustive tables.
    pub fn all() -> (r: [Self; 5])
        ensures
            r@ == seq![Self::AfterReap, Self::Timer, Self::Dpms, Self::ClientTraffic, Self::QueuedIntent],
    {
        [Self::AfterReap, Self::Timer, Self::Dpms, Self::ClientTraffic, Self::QueuedIntent]
    }
}

/// How a recovery incident obtained authority.
#[derive(Debug, Clone, Copy, PartialEq, Eq, Structural, Hash)]
pub enum IncidentOrigin {
    /// Completion loss reported by the coordinator; its event stays pending
    /// until this incident resolves.
    CompletionLoss { representative: LifecycleEventId },
    /// Recovery authorized by an external boundary; it has no event
    /// representative and is recorded on that boundary transition.
    Boundary,
}

/// An id-free request to create one incident. The per-device allocator
/// materializes this seed; pure table functions never allocate identities.
#[derive(Debug, Clone, Copy, PartialEq, Eq, Structural, Hash)]
pub struct IncidentSeed {
    pub origin: IncidentOrigin,
    pub initial_state: RecoveryIncidentState,
}

impl IncidentSeed {
    pub fn completion_loss(representative: LifecycleEventId, initial_state: RecoveryIncidentState) -> (r: Self)
        ensures
            r == (IncidentSeed { origin: IncidentOrigin::CompletionLoss { representative }, initial_state }),
    {
        Self { origin: IncidentOrigin::CompletionLoss { representative }, initial_state }
    }

    pub fn boundary() -> (r: Self)
        ensures
            r == boundary_seed(),
    {
        Self { origin: IncidentOrigin::Boundary, initial_state: RecoveryIncidentState::Active }
    }
}

/// The seed of a boundary-authorized incident.
pub open spec fn boundary_seed() -> IncidentSeed {
    IncidentSeed { origin: IncidentOrigin::Boundary, initial_state: RecoveryIncidentState::Active }
}

/// The event a completion-loss origin keeps pending.
pub open spec fn origin_representative(origin: IncidentOrigin) -> Option<LifecycleEventId> {
    match origin {
        IncidentOrigin::CompletionLoss { representative } => Some(representative),
        IncidentOrigin::Boundary => None,
    }
}

/// One device's recovery incident and its bounded attempt budget.
#[derive(Debug, Clone, Copy, PartialEq, Eq, Structural, Hash)]
pub struct RecoveryIncident {
    id: RecoveryId,
    origin: IncidentOrigin,
    state: RecoveryIncidentState,
    budget: RecoveryAttemptBudget,
}

/// An incident with the given parts.
pub closed spec fn incident_of(
    id: RecoveryId,
    origin: IncidentOrigin,
    state: RecoveryIncidentState,
    budget: RecoveryAttemptBudget,
) -> RecoveryIncident {
    RecoveryIncident { id, origin, state, budget }
}

/// An incident materialized from a seed: a seed that starts failed has
/// already spent its attempt.
pub open spec fn incident_from_seed(id: RecoveryId, seed: IncidentSeed) -> RecoveryIncident {
    incident_of(
        id,
        seed.origin,
        seed.initial_state,
        if seed.initial_state == RecoveryIncidentState::RecoveryFailed {
            RecoveryAttemptBudget::Spent
        } else {
            RecoveryAttemptBudget::Available
        },
    )
}

/// A boundary incident whose attempt already failed.
pub open spec fn failed_boundary_incident(id: RecoveryId) -> RecoveryIncident {
    incident_of(id, IncidentOrigin::Boundary, RecoveryIncidentState::RecoveryFailed, RecoveryAttemptBudget::Spent)
}

impl RecoveryIncident {
    pub closed spec fn spec_id(self) -> RecoveryId {
        self.id
    }

    pub closed spec fn spec_origin(self) -> IncidentOrigin {
        self.origin
    }

    pub closed spec fn spec_state(self) -> RecoveryIncidentState {
        self.state
    }

    pub closed spec fn spec_budget(self) -> RecoveryAttemptBudget {
        self.budget
    }

    /// The same incident in another state and budget.
    pub open spec fn moved(self, state: RecoveryIncidentState, budget: RecoveryAttemptBudget) -> RecoveryIncident {
        incident_of(self.spec_id(), self.spec_origin(), state, budget)
    }

    pub open spec fn spec_representative(self) -> Option<LifecycleEventId> {
        origin_representative(self.spec_origin())
    }

    /// An incident is determined by its parts.
    pub proof fn lemma_parts(self)
        ensures
            self == incident_of(self.spec_id(), self.spec_origin(), self.spec_state(), self.spec_budget()),
            forall|id: RecoveryId, o: IncidentOrigin, s: RecoveryIncidentState, b: RecoveryAttemptBudget|
                #![trigger incident_of(id, o, s, b)]
                incident_of(id, o, s, b).spec_id() == id && incident_of(id, o, s, b).spec_origin() == o
                    && incident_of(id, o, s, b).spec_state() == s && incident_of(id, o, s, b).spec_budget() == b,
    {
    }

    pub fn from_seed(id: RecoveryId, seed: IncidentSeed) -> (r: Self)
        ensures
            r == incident_from_seed(id, seed),
    {
        let budget = if seed.initial_state == RecoveryIncidentState::RecoveryFailed {
            RecoveryAttemptBudget::Spent
        } else {
            RecoveryAttemptBudget::Available
        };
        Self { id, origin: seed.origin, state: seed.initial_state, budget }
    }

    fn failed_boundary(id: RecoveryId) -> (r: Self)
        ensures
            r == failed_boundary_incident(id),
    {
        Self {
            id,
            origin: IncidentOrigin::Boundary,
            state: RecoveryIncidentState::RecoveryFailed,
            budget: RecoveryAttemptBudget::Spent,
        }
    }

    pub fn id(self) -> (r: RecoveryId)
        ensures
            r == self.spec_id(),
    {
        self.id
    }

    pub fn origin(self) -> (r: IncidentOrigin)
        ensures
            r == self.spec_origin(),
    {
        self.origin
    }

    pub fn state(self) -> (r: RecoveryIncidentState)
        ensures
            r == self.spec_state(),
    {
        self.state
    }

    pub fn budget(self) -> (r: RecoveryAttemptBudget)
        ensures
            r == self.spec_budget(),
    {
        self.budget
    }

    pub fn representative(self) -> (r: Option<LifecycleEventId>)
        ensures
            r == self.spec_representative(),
    {
        match self.origin {
            IncidentOrigin::CompletionLoss { representative } => Some(representative),
            IncidentOrigin::Boundary => None,
        }
    }

    /// Claim the sole attempt. A paused or spent incident cannot start one.
    pub fn begin_attempt(&mut self) -> (r: bool)
        ensures
            r == (old(self).spec_state() == RecoveryIncidentState::Active && old(self).spec_budget()
                == RecoveryAttemptBudget::Available),
            r ==> *final(self) == old(self).moved(RecoveryIncidentState::Attempting, RecoveryAttemptBudget::Spent),
            !r ==> *final(self) == *old(self),
    {
        if self.state != RecoveryIncidentState::Active || self.budget != RecoveryAttemptBudget::Available {
            return false;
        }
        self.state = RecoveryIncidentState::Attempting;
        self.budget = RecoveryAttemptBudget::Spent;
        true
    }

    /// Reject retry authority from timers, DPMS, client work, or queued
    /// intents. They may not spend or replenish the incident's sole attempt.
    pub fn request_attempt(&mut self, trigger: RecoveryAttemptTrigger) -> (r: bool)
        ensures
            r == (trigger == RecoveryAttemptTrigger::AfterReap && old(self).spec_state() == RecoveryIncidentState::Active
                && old(self).spec_budget() == RecoveryAttemptBudget::Available),
            r ==> *final(self) == old(self).moved(RecoveryIncidentState::Attempting, RecoveryAttemptBudget::Spent),
            !r ==> *final(self) == *old(self),
    {
        trigger == RecoveryAttemptTrigger::AfterReap && self.begin_attempt()
    }

    /// Pause without changing the budget. If an attempt had already started,
    /// resuming returns to `Attempting` so it cannot be started a second time.
    pub fn pause(&mut self) -> (r: bool)
        ensures
            r == (old(self).spec_state() == RecoveryIncidentState::Active || old(self).spec_state()
                == RecoveryIncidentState::Attempting),
            r ==> *final(self) == old(self).moved(RecoveryIncidentState::Paused, old(self).spec_budget()),
            !r ==> *final(self) == *old(self),
    {
        if !(self.state == RecoveryIncidentState::Active || self.state == RecoveryIncidentState::Attempting) {
            return false;
        }
        self.state = RecoveryIncidentState::Paused;
        true
    }

    /// Resume at the logical DPMS-on boundary, preserving the same id/budget.
    pub fn resume(&mut self) -> (r: bool)
        ensures
            r == (old(self).spec_state() == RecoveryIncidentState::Paused),
            r ==> *final(self) == old(self).moved(resumed_state(old(self).spec_budget()), old(self).spec_budget()),
            !r ==> *final(self) == *old(self),
    {
        if self.state != RecoveryIncidentState::Paused {
            return false;
        }
        self.state = match self.budget {
            RecoveryAttemptBudget::Available => RecoveryIncidentState::Active,
            RecoveryAttemptBudget::Spent => RecoveryIncidentState::Attempting,
        };
        true
    }

    /// Resolve a qualified install, or retain a terminal failed record after
    /// the sole attempt fails or completes with unknown status.
    pub fn resolve(self, result: RecoveryResolution) -> (r: IncidentResolution)
        ensures
            r == resolution_of(self, result),
    {
        if self.state != RecoveryIncidentState::Attempting {
            return IncidentResolution { id: self.id, incident: Some(self), representative_disposition: None };
        }
        match result {
            RecoveryResolution::Qualified(transition) => IncidentResolution {
                id: self.id,
                incident: None,
                representative_disposition: match self.representative() {
                    Some(event_id) => Some((event_id, Disposition::Applied(transition))),
                    None => None,
                },
            },
            RecoveryResolution::Failed => {
                let failed = Self {
                    state: RecoveryIncidentState::RecoveryFailed,
                    budget: RecoveryAttemptBudget::Spent,
                    ..self
                };
                IncidentResolution {
                    id: self.id,
                    incident: Some(failed),
                    representative_disposition: representative_disposition(&self, InvalidationReason::RecoveryFailed),
                }
            },
        }
    }
}

/// The state a paused incident resumes to: an unspent attempt is available
/// again, a started one continues.
pub open spec fn resumed_state(budget: RecoveryAttemptBudget) -> RecoveryIncidentState {
    match budget {
        RecoveryAttemptBudget::Available => RecoveryIncidentState::Active,
        RecoveryAttemptBudget::Spent => RecoveryIncidentState::Attempting,
    }
}

/// Terminal result of the incident's single attempt.
#[derive(Debug, Clone, Copy, PartialEq, Eq, Structural, Hash)]
pub enum RecoveryResolution {
    Qualified(LifecycleTransitionId),
    Failed,
}

/// Result of resolving one incident; a successful incident is consumed, while
/// a failed record remains so no later attempt can be authorized.
#[derive(Debug, Clone, Copy, PartialEq, Eq, Hash)]
pub struct IncidentResolution {
    pub id: RecoveryId,
    pub incident: Option<RecoveryIncident>,
    pub representative_disposition: Option<(LifecycleEventId, Disposition)>,
}

/// The representative's terminal invalidation, when the incident has one.
pub open spec fn invalidated_representative(i: RecoveryIncident, reason: InvalidationReason) -> Option<(LifecycleEventId, Disposition)> {
    match i.spec_representative() {
        Some(event_id) => Some((event_id, Disposition::Invalidated(reason))),
        None => None,
    }
}

/// Resolving an incident: only an attempting incident resolves; a qualified
/// install consumes it and applies its representative, a failure keeps a
/// spent failed record and invalidates the representative.
pub open spec fn resolution_of(i: RecoveryIncident, result: RecoveryResolution) -> IncidentResolution {
    if i.spec_state() != RecoveryIncidentState::Attempting {
        IncidentResolution { id: i.spec_id(), incident: Some(i), representative_disposition: None }
    } else {
        match result {
            RecoveryResolution::Qualified(transition) => IncidentResolution {
                id: i.spec_id(),
                incident: None,
                representative_disposition: match i.spec_representative() {
                    Some(event_id) => Some((event_id, Disposition::Applied(transition))),
                    None => None,
                },
            },
            RecoveryResolution::Failed => IncidentResolution {
                id: i.spec_id(),
                incident: Some(i.moved(RecoveryIncidentState::RecoveryFailed, RecoveryAttemptBudget::Spent)),
                representative_disposition: invalidated_representative(i, InvalidationReason::RecoveryFailed),
            },
        }
    }
}

/// Checked, per-device allocation for recovery incident identities.
#[derive(Debug, Clone, Copy, PartialEq, Eq, Structural, Hash)]
pub struct RecoveryIdAllocator {
    next: Option<RecoveryId>,
}

impl RecoveryIdAllocator {
    /// The identity the next allocation hands out, if any remains.
    pub closed spec fn spec_next(self) -> Option<RecoveryId> {
        self.next
    }

    pub fn new() -> (r: Self)
        ensures
            r.spec_next() matches Some(n) && n@ == 1,
    {
        Self { next: Some(RecoveryId::first()) }
    }

    /// An allocator whose next identity is `next`.
    pub fn with_next(next: RecoveryId) -> (r: Self)
        ensures
            r.spec_next() == Some(next),
    {
        Self { next: Some(next) }
    }

    /// Allocate one checked identity. The final representable id may be used;
    /// the following request returns `None` rather than wrapping.
    pub fn allocate(&mut self) -> (r: Option<RecoveryId>)
        ensures
            r == old(self).spec_next(),
            r matches Some(id) ==> (if id@ < u64::MAX {
                final(self).spec_next() matches Some(n) && n@ == id@ + 1
            } else {
                final(self).spec_next() is None
            }),
            r is None ==> final(self).spec_next() is None,
    {
        match self.next {
            Some(id) => {
                self.next = id.checked_next();
                Some(id)
            },
            None => None,
        }
    }

    /// Materialize a table-produced seed without giving the arbiter its own
    /// allocation policy.
    pub fn allocate_incident(&mut self, seed: IncidentSeed) -> (r: Option<RecoveryIncident>)
        ensures
            r == (match old(self).spec_next() {
                Some(id) => Some(incident_from_seed(id, seed)),
                None => None,
            }),
            old(self).spec_next() matches Some(id) ==> (if id@ < u64::MAX {
                final(self).spec_next() matches Some(n) && n@ == id@ + 1
            } else {
                final(self).spec_next() is None
            }),
            old(self).spec_next() is None ==> final(self).spec_next() is None,
    {
        match self.allocate() {
            Some(id) => Some(RecoveryIncident::from_seed(id, seed)),
            None => None,
        }
    }
}

impl Default for RecoveryIdAllocator {
    fn default() -> (r: Self)
        ensures
            r.spec_next() matches Some(n) && n@ == 1,
    {
        Self::new()
    }
}

/// Active transition row at the instant a completion loss is observed.
#[derive(Debug, Clone, Copy, PartialEq, Eq, Structural, Hash)]
pub enum CompletionUnknownRowKind {
    NormalLive,
    VTRelease,
    DeviceRemoved,
    Shutdown,
    DeviceAddedOrReplaced,
    VTAcquire,
    AdministrativeReprobe,
    IdentityChangingHotplug,
    TopologyRebuild,
    DPMS,
}

impl CompletionUnknownRowKind {
    /// All rows, in their documented order, for exhaustive tables.
    pub fn all() -> (r: [Self; 10])
        ensures
            r@ == seq![
                Self::NormalLive,
                Self::VTRelease,
                Self::DeviceRemoved,
                Self::Shutdown,
                Self::DeviceAddedOrReplaced,
                Self::VTAcquire,
                Self::AdministrativeReprobe,
                Self::IdentityChangingHotplug,
                Self::TopologyRebuild,
                Self::DPMS,
            ],
    {
        [
            Self::NormalLive,
            Self::VTRelease,
            Self::DeviceRemoved,
            Self::Shutdown,
            Self::DeviceAddedOrReplaced,
            Self::VTAcquire,
            Self::AdministrativeReprobe,
            Self::IdentityChangingHotplug,
            Self::TopologyRebuild,
            Self::DPMS,
        ]
    }
}

/// A completion-unknown row. Boundary variants require their already
/// allocated fresh ID, so an unknown completion during that attempt cannot be
/// represented without it.
#[derive(Debug, Clone, Copy, PartialEq, Eq, Structural, Hash)]
pub enum CompletionUnknownRow {
    NormalLive,
    VTRelease,
    DeviceRemoved,
    Shutdown,
    DeviceAddedOrReplaced { recovery_id: RecoveryId },
    VTAcquire { recovery_id: RecoveryId },
    AdministrativeReprobe { recovery_id: RecoveryId },
    IdentityChangingHotplug { recovery_id: RecoveryId },
    TopologyRebuild,
    DPMS { target: DpmsTarget },
}

pub open spec fn row_kind(row: CompletionUnknownRow) -> CompletionUnknownRowKind {
    match row {
        CompletionUnknownRow::NormalLive => CompletionUnknownRowKind::NormalLive,
        CompletionUnknownRow::VTRelease => CompletionUnknownRowKind::VTRelease,
        CompletionUnknownRow::DeviceRemoved => CompletionUnknownRowKind::DeviceRemoved,
        CompletionUnknownRow::Shutdown => CompletionUnknownRowKind::Shutdown,
        CompletionUnknownRow::DeviceAddedOrReplaced { .. } => CompletionUnknownRowKind::DeviceAddedOrReplaced,
        CompletionUnknownRow::VTAcquire { .. } => CompletionUnknownRowKind::VTAcquire,
        CompletionUnknownRow::AdministrativeReprobe { .. } => CompletionUnknownRowKind::AdministrativeReprobe,
        CompletionUnknownRow::IdentityChangingHotplug { .. } => CompletionUnknownRowKind::IdentityChangingHotplug,
        CompletionUnknownRow::TopologyRebuild => CompletionUnknownRowKind::TopologyRebuild,
        CompletionUnknownRow::DPMS { .. } => CompletionUnknownRowKind::DPMS,
    }
}

impl CompletionUnknownRow {
    pub fn kind(self) -> (r: CompletionUnknownRowKind)
        ensures
            r == row_kind(self),
    {
        match self {
            Self::NormalLive => CompletionUnknownRowKind::NormalLive,
            Self::VTRelease => CompletionUnknownRowKind::VTRelease,
            Self::DeviceRemoved => CompletionUnknownRowKind::DeviceRemoved,
            Self::Shutdown => CompletionUnknownRowKind::Shutdown,
            Self::DeviceAddedOrReplaced { .. } => CompletionUnknownRowKind::DeviceAddedOrReplaced,
            Self::VTAcquire { .. } => CompletionUnknownRowKind::VTAcquire,
            Self::AdministrativeReprobe { .. } => CompletionUnknownRowKind::AdministrativeReprobe,
            Self::IdentityChangingHotplug { .. } => CompletionUnknownRowKind::IdentityChangingHotplug,
            Self::TopologyRebuild => CompletionUnknownRowKind::TopologyRebuild,
            Self::DPMS { .. } => CompletionUnknownRowKind::DPMS,
        }
    }
}

/// Whether the completion-loss event remains pending as a representative or
/// receives its terminal disposition immediately.
#[derive(Debug, Clone, Copy, PartialEq, Eq, Structural, Hash)]
pub enum EventFate {
    PendingRepresentative(LifecycleEventId),
    Terminal { event_id: LifecycleEventId, disposition: Disposition },
}

/// Immediate logical obligations of a completion loss. Physical work is kept
/// in a separate result so callers cannot gate logical progress on a reap or
/// fd-family barrier.
#[derive(Debug, Clone, Copy, PartialEq, Eq, Structural, Hash)]
pub struct LogicalUnknownActions {
    pub stop_admission: bool,
    pub withdraw_protocol_work: bool,
    pub release_seat: bool,
    pub revoke_readiness: bool,
    pub apply_dpms_target: bool,
    pub poison_device: bool,
    pub terminalize_rebuild: bool,
    pub event: EventFate,
}

/// Physical obligations of a completion loss. Variants name only work that
/// must wait for the stated barrier or can proceed without another KMS
/// mutation.
#[derive(Debug, Clone, Copy, PartialEq, Eq, Structural, Hash)]
pub enum PhysicalUnknownOutcome {
    QuarantineReapCloseThenAttemptOnce,
    QuarantineAwaitLifecycleTeardown,
    QuarantineReapCloseWithoutAttempt,
    TransferQuarantineToRebuildThenQualifiedInstall,
    QuarantineReapCloseThenAttemptOnceAndTerminalizeRebuild,
    QuarantineBoundaryAttemptFailed { recovery_id: RecoveryId },
    QuarantineDpmsWithoutKmsMutation { attempt_after_reap: bool, paused_until_dpms_on: bool },
    ExistingAttemptFailedWithoutRetry,
    ExistingFailureRemainsWithoutRetry,
}

/// Shared executor and resource barriers required for every unknown commit.
#[derive(Debug, Clone, Copy, PartialEq, Eq, Structural, Hash)]
pub struct PhysicalBarriers {
    pub quarantine_both_possible_states: bool,
    pub stop_alias_creation: bool,
    pub request_executor_and_helper_termination: bool,
    pub reap_every_lease: bool,
    pub close_complete_fd_family_after_reap: bool,
}

/// Every barrier an unknown commit requires.
pub open spec fn unknown_commit_barriers() -> PhysicalBarriers {
    PhysicalBarriers {
        quarantine_both_possible_states: true,
        stop_alias_creation: true,
        request_executor_and_helper_termination: true,
        reap_every_lease: true,
        close_complete_fd_family_after_reap: true,
    }
}

fn unknown_commit() -> (r: PhysicalBarriers)
    ensures
        r == unknown_commit_barriers(),
{
    PhysicalBarriers {
        quarantine_both_possible_states: true,
        stop_alias_creation: true,
        request_executor_and_helper_termination: true,
        reap_every_lease: true,
        close_complete_fd_family_after_reap: true,
    }
}

/// A terminal invalidation of a previous incident, attributed to its named
/// boundary reason.
#[derive(Debug, Clone, Copy, PartialEq, Eq, Structural, Hash)]
pub struct IncidentInvalidation {
    pub recovery_id: RecoveryId,
    pub reason: InvalidationReason,
}

/// Explicit incident and event effects shared by both tables.
#[derive(Debug, Clone, Copy, PartialEq, Eq, Hash, Default)]
pub struct RecoveryFate {
    /// The same current incident, possibly paused, resumed, or failed.
    pub current_incident: Option<RecoveryIncident>,
    /// An id-free seed; its owner materializes it with `RecoveryIdAllocator`.
    pub new_incident: Option<IncidentSeed>,
    /// An old incident invalidated by a boundary.
    pub invalidated_incident: Option<IncidentInvalidation>,
    /// True only for the same-identity topology transfer.
    pub transferred: bool,
    /// Disposition for a loss incident's representative, if it resolved.
    pub representative_disposition: Option<(LifecycleEventId, Disposition)>,
    /// Terminal disposition for an additional lifecycle/recovery event.
    pub event_disposition: Option<(LifecycleEventId, Disposition)>,
}

/// A fate with no effect.
pub open spec fn no_fate() -> RecoveryFate {
    RecoveryFate {
        current_incident: None,
        new_incident: None,
        invalidated_incident: None,
        transferred: false,
        representative_disposition: None,
        event_disposition: None,
    }
}

fn empty_fate() -> (r: RecoveryFate)
    ensures
        r == no_fate(),
{
    RecoveryFate {
        current_incident: None,
        new_incident: None,
        invalidated_incident: None,
        transferred: false,
        representative_disposition: None,
        event_disposition: None,
    }
}

/// The complete completion-unknown result.
#[derive(Debug, Clone, Copy, PartialEq, Eq, Hash)]
pub struct TableUOutcome {
    pub logical: LogicalUnknownActions,
    pub physical: PhysicalUnknownOutcome,
    pub physical_barriers: PhysicalBarriers,
    pub recovery: RecoveryFate,
}

/// Lifecycle kind winning the recovery arbitration. `recovery_required` is
/// the boundary transition's decision that a fresh install/attempt is
/// required.
#[derive(Debug, Clone, Copy, PartialEq, Eq, Structural, Hash)]
pub struct RecoveryWinner {
    pub kind: LifecycleKind,
    pub dpms_target: DpmsTarget,
    pub recovery_required: bool,
}

impl RecoveryWinner {
    pub fn new(kind: LifecycleKind) -> (r: Self)
        ensures
            r == (RecoveryWinner { kind, dpms_target: DpmsTarget::On, recovery_required: false }),
    {
        Self { kind, dpms_target: DpmsTarget::On, recovery_required: false }
    }

    pub fn with_dpms_target(self, target: DpmsTarget) -> (r: Self)
        ensures
            r == (RecoveryWinner { dpms_target: target, ..self }),
    {
        Self { dpms_target: target, ..self }
    }

    pub fn requiring_recovery(self) -> (r: Self)
        ensures
            r == (RecoveryWinner { recovery_required: true, ..self }),
    {
        Self { recovery_required: true, ..self }
    }
}

/// Complete recovery-fate outcome. `new_incident` asks the per-device
/// allocator for exactly one fresh ID; boundary seeds intentionally have no
/// event representative.
#[derive(Debug, Clone, Copy, PartialEq, Eq, Hash)]
pub struct TableFOutcome {
    pub fate: RecoveryFate,
    pub incident_state: Option<RecoveryIncidentState>,
    pub allocate_fresh_id: bool,
}

// ---------------------------------------------------------------------------
// The completion-unknown table.
// ---------------------------------------------------------------------------

/// The event invalidated outright.
pub open spec fn terminal_fate(event_id: LifecycleEventId, reason: InvalidationReason) -> EventFate {
    EventFate::Terminal { event_id, disposition: Disposition::Invalidated(reason) }
}

/// The event absorbed by the incident's representative, or invalidated by
/// `fallback` when the incident has none.
pub open spec fn fate_for(event_id: LifecycleEventId, i: RecoveryIncident, fallback: InvalidationReason) -> EventFate {
    match i.spec_representative() {
        Some(representative) => EventFate::Terminal { event_id, disposition: Disposition::AbsorbedByEvent(representative) },
        None => terminal_fate(event_id, fallback),
    }
}

/// The event's absorption by the incident's representative, if it has one.
pub open spec fn absorbed_disposition(event_id: LifecycleEventId, i: RecoveryIncident) -> Option<(LifecycleEventId, Disposition)> {
    match i.spec_representative() {
        Some(representative) => Some((event_id, Disposition::AbsorbedByEvent(representative))),
        None => None,
    }
}

/// The actions of a poisoning loss.
pub open spec fn poison_actions(event: EventFate) -> LogicalUnknownActions {
    LogicalUnknownActions {
        stop_admission: true,
        withdraw_protocol_work: true,
        release_seat: false,
        revoke_readiness: true,
        apply_dpms_target: false,
        poison_device: true,
        terminalize_rebuild: false,
        event,
    }
}

/// A loss during ordinary live operation (or a rebuild with no incident).
pub open spec fn normal_live_outcome(event_id: LifecycleEventId, existing: Option<RecoveryIncident>, terminalize_rebuild: bool) -> TableUOutcome {
    match existing {
        None => TableUOutcome {
            logical: LogicalUnknownActions {
                stop_admission: true,
                withdraw_protocol_work: true,
                release_seat: false,
                revoke_readiness: true,
                apply_dpms_target: false,
                poison_device: true,
                terminalize_rebuild,
                event: EventFate::PendingRepresentative(event_id),
            },
            physical: if terminalize_rebuild {
                PhysicalUnknownOutcome::QuarantineReapCloseThenAttemptOnceAndTerminalizeRebuild
            } else {
                PhysicalUnknownOutcome::QuarantineReapCloseThenAttemptOnce
            },
            physical_barriers: unknown_commit_barriers(),
            recovery: RecoveryFate {
                new_incident: Some(IncidentSeed { origin: IncidentOrigin::CompletionLoss { representative: event_id }, initial_state: RecoveryIncidentState::Active }),
                ..no_fate()
            },
        },
        Some(i) => if i.spec_state() == RecoveryIncidentState::Attempting {
            TableUOutcome {
                logical: poison_actions(fate_for(event_id, i, InvalidationReason::RecoveryFailed)),
                physical: PhysicalUnknownOutcome::ExistingAttemptFailedWithoutRetry,
                physical_barriers: unknown_commit_barriers(),
                recovery: RecoveryFate {
                    current_incident: resolution_of(i, RecoveryResolution::Failed).incident,
                    representative_disposition: resolution_of(i, RecoveryResolution::Failed).representative_disposition,
                    event_disposition: absorbed_disposition(event_id, i),
                    ..no_fate()
                },
            }
        } else if i.spec_state() == RecoveryIncidentState::RecoveryFailed {
            TableUOutcome {
                logical: poison_actions(terminal_fate(event_id, InvalidationReason::RecoveryFailed)),
                physical: PhysicalUnknownOutcome::ExistingFailureRemainsWithoutRetry,
                physical_barriers: unknown_commit_barriers(),
                recovery: RecoveryFate {
                    current_incident: Some(i),
                    event_disposition: Some((event_id, Disposition::Invalidated(InvalidationReason::RecoveryFailed))),
                    ..no_fate()
                },
            }
        } else {
            TableUOutcome {
                logical: poison_actions(fate_for(event_id, i, InvalidationReason::RecoveryFailed)),
                physical: PhysicalUnknownOutcome::QuarantineReapCloseThenAttemptOnce,
                physical_barriers: unknown_commit_barriers(),
                recovery: RecoveryFate {
                    current_incident: Some(i),
                    event_disposition: absorbed_disposition(event_id, i),
                    ..no_fate()
                },
            }
        },
    }
}

/// A loss during a teardown row: the event and any live incident end with
/// the row's reason, unless the incident had already failed.
pub open spec fn teardown_outcome(event_id: LifecycleEventId, existing: Option<RecoveryIncident>, reason: InvalidationReason, logical: LogicalUnknownActions) -> TableUOutcome {
    TableUOutcome {
        logical: LogicalUnknownActions {
            event: match existing {
                Some(i) => if i.spec_state() == RecoveryIncidentState::RecoveryFailed {
                    terminal_fate(event_id, InvalidationReason::RecoveryFailed)
                } else {
                    fate_for(event_id, i, reason)
                },
                None => terminal_fate(event_id, reason),
            },
            ..logical
        },
        physical: if reason == InvalidationReason::VTRelease {
            PhysicalUnknownOutcome::QuarantineAwaitLifecycleTeardown
        } else {
            PhysicalUnknownOutcome::QuarantineReapCloseWithoutAttempt
        },
        physical_barriers: unknown_commit_barriers(),
        recovery: match existing {
            Some(i) => if i.spec_state() == RecoveryIncidentState::RecoveryFailed {
                RecoveryFate {
                    current_incident: Some(i),
                    event_disposition: Some((event_id, Disposition::Invalidated(InvalidationReason::RecoveryFailed))),
                    ..no_fate()
                }
            } else {
                RecoveryFate {
                    invalidated_incident: Some(IncidentInvalidation { recovery_id: i.spec_id(), reason }),
                    representative_disposition: invalidated_representative(i, reason),
                    event_disposition: absorbed_disposition(event_id, i),
                    ..no_fate()
                }
            },
            None => RecoveryFate { event_disposition: Some((event_id, Disposition::Invalidated(reason))), ..no_fate() },
        },
    }
}

/// The teardown actions of a row: admission stops and readiness is revoked;
/// the row decides whether protocol work is withdrawn and the seat released.
pub open spec fn teardown_actions(withdraw_protocol_work: bool, release_seat: bool, event: EventFate) -> LogicalUnknownActions {
    LogicalUnknownActions {
        stop_admission: true,
        withdraw_protocol_work,
        release_seat,
        revoke_readiness: true,
        apply_dpms_target: false,
        poison_device: false,
        terminalize_rebuild: false,
        event,
    }
}

/// The actions of a loss during a rebuild with a live incident.
pub open spec fn rebuild_actions(terminalize_rebuild: bool, event: EventFate) -> LogicalUnknownActions {
    LogicalUnknownActions {
        stop_admission: true,
        withdraw_protocol_work: false,
        release_seat: false,
        revoke_readiness: true,
        apply_dpms_target: false,
        poison_device: true,
        terminalize_rebuild,
        event,
    }
}

/// A loss during a same-identity rebuild.
pub open spec fn rebuild_outcome(event_id: LifecycleEventId, existing: Option<RecoveryIncident>) -> TableUOutcome {
    match existing {
        None => normal_live_outcome(event_id, None, true),
        Some(i) => if i.spec_state() == RecoveryIncidentState::Attempting {
            TableUOutcome {
                logical: rebuild_actions(true, fate_for(event_id, i, InvalidationReason::RecoveryFailed)),
                physical: PhysicalUnknownOutcome::ExistingAttemptFailedWithoutRetry,
                physical_barriers: unknown_commit_barriers(),
                recovery: RecoveryFate {
                    current_incident: resolution_of(i, RecoveryResolution::Failed).incident,
                    representative_disposition: resolution_of(i, RecoveryResolution::Failed).representative_disposition,
                    event_disposition: absorbed_disposition(event_id, i),
                    ..no_fate()
                },
            }
        } else if i.spec_state() != RecoveryIncidentState::RecoveryFailed {
            TableUOutcome {
                logical: rebuild_actions(false, fate_for(event_id, i, InvalidationReason::RecoveryFailed)),
                physical: PhysicalUnknownOutcome::TransferQuarantineToRebuildThenQualifiedInstall,
                physical_barriers: unknown_commit_barriers(),
                recovery: RecoveryFate {
                    current_incident: Some(i),
                    transferred: true,
                    event_disposition: absorbed_disposition(event_id, i),
                    ..no_fate()
                },
            }
        } else {
            TableUOutcome {
                logical: poison_actions(terminal_fate(event_id, InvalidationReason::RecoveryFailed)),
                physical: PhysicalUnknownOutcome::ExistingFailureRemainsWithoutRetry,
                physical_barriers: unknown_commit_barriers(),
                recovery: RecoveryFate {
                    current_incident: Some(i),
                    event_disposition: Some((event_id, Disposition::Invalidated(InvalidationReason::RecoveryFailed))),
                    ..no_fate()
                },
            }
        },
    }
}

/// The incident after a DPMS target: off pauses, on resumes.
pub open spec fn dpms_moved(i: RecoveryIncident, target: DpmsTarget) -> RecoveryIncident {
    match target {
        DpmsTarget::Off => if i.spec_state() == RecoveryIncidentState::Active || i.spec_state() == RecoveryIncidentState::Attempting {
            i.moved(RecoveryIncidentState::Paused, i.spec_budget())
        } else {
            i
        },
        DpmsTarget::On => if i.spec_state() == RecoveryIncidentState::Paused {
            i.moved(resumed_state(i.spec_budget()), i.spec_budget())
        } else {
            i
        },
    }
}

/// The recovery fate of a loss during a DPMS transition.
pub open spec fn dpms_fate(event_id: LifecycleEventId, target: DpmsTarget, existing: Option<RecoveryIncident>) -> RecoveryFate {
    match existing {
        None => RecoveryFate {
            new_incident: Some(IncidentSeed {
                origin: IncidentOrigin::CompletionLoss { representative: event_id },
                initial_state: match target {
                    DpmsTarget::On => RecoveryIncidentState::Active,
                    DpmsTarget::Off => RecoveryIncidentState::Paused,
                },
            }),
            ..no_fate()
        },
        Some(i) => if i.spec_state() == RecoveryIncidentState::Attempting {
            RecoveryFate {
                current_incident: resolution_of(i, RecoveryResolution::Failed).incident,
                representative_disposition: resolution_of(i, RecoveryResolution::Failed).representative_disposition,
                event_disposition: absorbed_disposition(event_id, i),
                ..no_fate()
            }
        } else if i.spec_state() == RecoveryIncidentState::RecoveryFailed {
            RecoveryFate {
                current_incident: Some(i),
                event_disposition: Some((event_id, Disposition::Invalidated(InvalidationReason::RecoveryFailed))),
                ..no_fate()
            }
        } else {
            RecoveryFate {
                current_incident: Some(dpms_moved(i, target)),
                event_disposition: absorbed_disposition(event_id, dpms_moved(i, target)),
                ..no_fate()
            }
        },
    }
}

/// What becomes of the event in a DPMS loss: it stays pending as a new
/// incident's representative, or takes the fate's disposition, or fails.
pub open spec fn dpms_event(event_id: LifecycleEventId, fate: RecoveryFate) -> EventFate {
    match fate.new_incident {
        Some(seed) => match seed.origin {
            IncidentOrigin::CompletionLoss { representative } => EventFate::PendingRepresentative(representative),
            IncidentOrigin::Boundary => terminal_fate(event_id, InvalidationReason::RecoveryFailed),
        },
        None => match fate.event_disposition {
            Some((id, disposition)) => EventFate::Terminal { event_id: id, disposition },
            None => terminal_fate(event_id, InvalidationReason::RecoveryFailed),
        },
    }
}

/// An incident that may still attempt after the reap.
pub open spec fn will_attempt_after_reap(fate: RecoveryFate) -> bool {
    (fate.new_incident matches Some(seed) && seed.initial_state == RecoveryIncidentState::Active)
        || (fate.current_incident matches Some(i) && (i.spec_state() == RecoveryIncidentState::Active
            || i.spec_state() == RecoveryIncidentState::Attempting))
}

/// An incident left paused until DPMS turns the outputs back on.
pub open spec fn paused_until_on(target: DpmsTarget, fate: RecoveryFate) -> bool {
    (target == DpmsTarget::Off && (fate.current_incident matches Some(i) && i.spec_state()
        == RecoveryIncidentState::Paused)) || (fate.new_incident matches Some(seed) && seed.initial_state
        == RecoveryIncidentState::Paused)
}

/// A loss during a DPMS transition never mutates KMS state again.
pub open spec fn dpms_outcome(event_id: LifecycleEventId, target: DpmsTarget, existing: Option<RecoveryIncident>) -> TableUOutcome {
    let fate = dpms_fate(event_id, target, existing);
    TableUOutcome {
        logical: LogicalUnknownActions {
            stop_admission: true,
            withdraw_protocol_work: false,
            release_seat: false,
            revoke_readiness: true,
            apply_dpms_target: true,
            poison_device: true,
            terminalize_rebuild: false,
            event: dpms_event(event_id, fate),
        },
        physical: PhysicalUnknownOutcome::QuarantineDpmsWithoutKmsMutation {
            attempt_after_reap: will_attempt_after_reap(fate),
            paused_until_dpms_on: paused_until_on(target, fate),
        },
        physical_barriers: unknown_commit_barriers(),
        recovery: fate,
    }
}

/// The event fate of a loss during a boundary attempt.
pub open spec fn boundary_event(event_id: LifecycleEventId, existing: Option<RecoveryIncident>) -> EventFate {
    match existing {
        Some(i) => if i.spec_state() == RecoveryIncidentState::RecoveryFailed {
            terminal_fate(event_id, InvalidationReason::RecoveryFailed)
        } else {
            fate_for(event_id, i, InvalidationReason::RecoveryFailed)
        },
        None => terminal_fate(event_id, InvalidationReason::RecoveryFailed),
    }
}

/// The disposition recorded for an event fate.
pub open spec fn fate_disposition(event_id: LifecycleEventId, event: EventFate) -> Option<(LifecycleEventId, Disposition)> {
    match event {
        EventFate::Terminal { event_id: id, disposition } => Some((id, disposition)),
        EventFate::PendingRepresentative(representative) => Some((event_id, Disposition::AbsorbedByEvent(representative))),
    }
}

/// A loss during a boundary transition's own attempt: that attempt failed.
pub open spec fn boundary_outcome(event_id: LifecycleEventId, recovery_id: RecoveryId, reason: InvalidationReason, existing: Option<RecoveryIncident>) -> TableUOutcome {
    let event = boundary_event(event_id, existing);
    TableUOutcome {
        logical: rebuild_actions(false, event),
        physical: PhysicalUnknownOutcome::QuarantineBoundaryAttemptFailed { recovery_id },
        physical_barriers: unknown_commit_barriers(),
        recovery: RecoveryFate {
            current_incident: Some(failed_boundary_incident(recovery_id)),
            invalidated_incident: match existing {
                Some(i) => if i.spec_state() == RecoveryIncidentState::RecoveryFailed {
                    None
                } else {
                    Some(IncidentInvalidation { recovery_id: i.spec_id(), reason })
                },
                None => None,
            },
            representative_disposition: match existing {
                Some(i) => if i.spec_state() == RecoveryIncidentState::RecoveryFailed {
                    None
                } else {
                    invalidated_representative(i, reason)
                },
                None => None,
            },
            event_disposition: fate_disposition(event_id, event),
            ..no_fate()
        },
    }
}

/// The completion-unknown table, selected by the row active when the loss is
/// observed, regardless of whether the lost work was ordinary or owned by
/// that transition.
pub open spec fn table_u_outcome(row: CompletionUnknownRow, event_id: LifecycleEventId, existing: Option<RecoveryIncident>) -> TableUOutcome {
    match row {
        CompletionUnknownRow::NormalLive => normal_live_outcome(event_id, existing, false),
        CompletionUnknownRow::VTRelease => teardown_outcome(event_id, existing, InvalidationReason::VTRelease,
            teardown_actions(false, true, terminal_fate(event_id, InvalidationReason::VTRelease))),
        CompletionUnknownRow::DeviceRemoved => teardown_outcome(event_id, existing, InvalidationReason::DeviceRemoved,
            teardown_actions(true, false, terminal_fate(event_id, InvalidationReason::DeviceRemoved))),
        CompletionUnknownRow::Shutdown => teardown_outcome(event_id, existing, InvalidationReason::Shutdown,
            teardown_actions(true, true, terminal_fate(event_id, InvalidationReason::Shutdown))),
        CompletionUnknownRow::TopologyRebuild => rebuild_outcome(event_id, existing),
        CompletionUnknownRow::DPMS { target } => dpms_outcome(event_id, target, existing),
        CompletionUnknownRow::DeviceAddedOrReplaced { recovery_id } => boundary_outcome(event_id, recovery_id,
            InvalidationReason::DeviceAddedOrReplaced, existing),
        CompletionUnknownRow::VTAcquire { recovery_id } => boundary_outcome(event_id, recovery_id,
            InvalidationReason::VTAcquire, existing),
        CompletionUnknownRow::AdministrativeReprobe { recovery_id } => boundary_outcome(event_id, recovery_id,
            InvalidationReason::AdministrativeReprobe, existing),
        CompletionUnknownRow::IdentityChangingHotplug { recovery_id } => boundary_outcome(event_id, recovery_id,
            InvalidationReason::IdentityChangingHotplug, existing),
    }
}

// ---------------------------------------------------------------------------
// The recovery-fate table.
// ---------------------------------------------------------------------------

/// The boundary reason of a kind that invalidates an incident and may
/// authorize a fresh one.
pub open spec fn boundary_reason_of(kind: LifecycleKind) -> Option<InvalidationReason> {
    match kind {
        LifecycleKind::DeviceAddedOrReplaced => Some(InvalidationReason::DeviceAddedOrReplaced),
        LifecycleKind::VTAcquire => Some(InvalidationReason::VTAcquire),
        LifecycleKind::AdministrativeReprobe => Some(InvalidationReason::AdministrativeReprobe),
        LifecycleKind::IdentityChangingHotplug => Some(InvalidationReason::IdentityChangingHotplug),
        _ => None,
    }
}

/// The teardown reason of a kind that ends an incident for good.
pub open spec fn teardown_reason_of(kind: LifecycleKind) -> Option<InvalidationReason> {
    match kind {
        LifecycleKind::Shutdown => Some(InvalidationReason::Shutdown),
        LifecycleKind::DeviceRemoved => Some(InvalidationReason::DeviceRemoved),
        LifecycleKind::VTRelease => Some(InvalidationReason::VTRelease),
        _ => None,
    }
}

/// A failed incident stays failed unless a boundary requires a fresh one.
pub open spec fn failed_incident_outcome(winner: RecoveryWinner, i: RecoveryIncident, event_id: LifecycleEventId) -> TableFOutcome {
    let fresh = boundary_reason_of(winner.kind) is Some && winner.recovery_required;
    TableFOutcome {
        fate: RecoveryFate {
            current_incident: if fresh { None } else { Some(i) },
            new_incident: if fresh { Some(boundary_seed()) } else { None },
            event_disposition: if winner.kind == LifecycleKind::NormalRecovery {
                Some((event_id, Disposition::Invalidated(InvalidationReason::RecoveryFailed)))
            } else {
                None
            },
            ..no_fate()
        },
        incident_state: if fresh {
            Some(RecoveryIncidentState::Active)
        } else {
            Some(RecoveryIncidentState::RecoveryFailed)
        },
        allocate_fresh_id: fresh,
    }
}

/// The incident's fate when a lifecycle kind wins.
pub open spec fn table_f_outcome(winner: RecoveryWinner, i: RecoveryIncident, event_id: LifecycleEventId) -> TableFOutcome {
    if i.spec_state() == RecoveryIncidentState::RecoveryFailed {
        failed_incident_outcome(winner, i, event_id)
    } else {
        match boundary_reason_of(winner.kind) {
            Some(reason) => TableFOutcome {
                fate: RecoveryFate {
                    new_incident: if winner.recovery_required { Some(boundary_seed()) } else { None },
                    invalidated_incident: Some(IncidentInvalidation { recovery_id: i.spec_id(), reason }),
                    representative_disposition: invalidated_representative(i, reason),
                    ..no_fate()
                },
                incident_state: if winner.recovery_required { Some(RecoveryIncidentState::Active) } else { None },
                allocate_fresh_id: winner.recovery_required,
            },
            None => match teardown_reason_of(winner.kind) {
                Some(reason) => TableFOutcome {
                    fate: RecoveryFate {
                        invalidated_incident: Some(IncidentInvalidation { recovery_id: i.spec_id(), reason }),
                        representative_disposition: invalidated_representative(i, reason),
                        event_disposition: absorbed_disposition(event_id, i),
                        ..no_fate()
                    },
                    incident_state: None,
                    allocate_fresh_id: false,
                },
                None => if winner.kind == LifecycleKind::TopologyRebuild {
                    TableFOutcome {
                        fate: RecoveryFate { current_incident: Some(i), transferred: true, ..no_fate() },
                        incident_state: Some(i.spec_state()),
                        allocate_fresh_id: false,
                    }
                } else if winner.kind == LifecycleKind::DPMS {
                    TableFOutcome {
                        fate: RecoveryFate { current_incident: Some(dpms_moved(i, winner.dpms_target)), ..no_fate() },
                        incident_state: Some(dpms_moved(i, winner.dpms_target).spec_state()),
                        allocate_fresh_id: false,
                    }
                } else {
                    TableFOutcome {
                        fate: RecoveryFate {
                            current_incident: Some(i),
                            event_disposition: absorbed_disposition(event_id, i),
                            ..no_fate()
                        },
                        incident_state: Some(i.spec_state()),
                        allocate_fresh_id: false,
                    }
                },
            },
        }
    }
}

// ---------------------------------------------------------------------------
// Executable tables.
// ---------------------------------------------------------------------------

fn terminal_event(event_id: LifecycleEventId, reason: InvalidationReason) -> (r: EventFate)
    ensures
        r == terminal_fate(event_id, reason),
{
    EventFate::Terminal { event_id, disposition: Disposition::Invalidated(reason) }
}

fn event_fate_for(event_id: LifecycleEventId, incident: RecoveryIncident, fallback: InvalidationReason) -> (r: EventFate)
    ensures
        r == fate_for(event_id, incident, fallback),
{
    match incident.representative() {
        Some(representative) => EventFate::Terminal { event_id, disposition: Disposition::AbsorbedByEvent(representative) },
        None => terminal_event(event_id, fallback),
    }
}

fn event_fate_disposition(event_id: LifecycleEventId, incident: RecoveryIncident) -> (r: Option<(LifecycleEventId, Disposition)>)
    ensures
        r == absorbed_disposition(event_id, incident),
{
    match incident.representative() {
        Some(representative) => Some((event_id, Disposition::AbsorbedByEvent(representative))),
        None => None,
    }
}

fn representative_disposition(incident: &RecoveryIncident, reason: InvalidationReason) -> (r: Option<(LifecycleEventId, Disposition)>)
    ensures
        r == invalidated_representative(*incident, reason),
{
    match incident.representative() {
        Some(event_id) => Some((event_id, Disposition::Invalidated(reason))),
        None => None,
    }
}

fn poison_event(event: EventFate) -> (r: LogicalUnknownActions)
    ensures
        r == poison_actions(event),
{
    LogicalUnknownActions {
        stop_admission: true,
        withdraw_protocol_work: true,
        release_seat: false,
        revoke_readiness: true,
        apply_dpms_target: false,
        poison_device: true,
        terminalize_rebuild: false,
        event,
    }
}

fn rebuild_event(terminalize_rebuild: bool, event: EventFate) -> (r: LogicalUnknownActions)
    ensures
        r == rebuild_actions(terminalize_rebuild, event),
{
    LogicalUnknownActions {
        stop_admission: true,
        withdraw_protocol_work: false,
        release_seat: false,
        revoke_readiness: true,
        apply_dpms_target: false,
        poison_device: true,
        terminalize_rebuild,
        event,
    }
}

fn normal_live(event_id: LifecycleEventId, existing: Option<RecoveryIncident>, terminalize_rebuild: bool) -> (r: TableUOutcome)
    ensures
        r == normal_live_outcome(event_id, existing, terminalize_rebuild),
{
    match existing {
        None => {
            let seed = IncidentSeed::completion_loss(event_id, RecoveryIncidentState::Active);
            TableUOutcome {
                logical: LogicalUnknownActions {
                    stop_admission: true,
                    withdraw_protocol_work: true,
                    release_seat: false,
                    revoke_readiness: true,
                    apply_dpms_target: false,
                    poison_device: true,
                    terminalize_rebuild,
                    event: EventFate::PendingRepresentative(event_id),
                },
                physical: if terminalize_rebuild {
                    PhysicalUnknownOutcome::QuarantineReapCloseThenAttemptOnceAndTerminalizeRebuild
                } else {
                    PhysicalUnknownOutcome::QuarantineReapCloseThenAttemptOnce
                },
                physical_barriers: unknown_commit(),
                recovery: RecoveryFate { new_incident: Some(seed), ..empty_fate() },
            }
        },
        Some(incident) => {
            if incident.state() == RecoveryIncidentState::Attempting {
                let resolution = incident.resolve(RecoveryResolution::Failed);
                TableUOutcome {
                    logical: poison_event(event_fate_for(event_id, incident, InvalidationReason::RecoveryFailed)),
                    physical: PhysicalUnknownOutcome::ExistingAttemptFailedWithoutRetry,
                    physical_barriers: unknown_commit(),
                    recovery: RecoveryFate {
                        current_incident: resolution.incident,
                        representative_disposition: resolution.representative_disposition,
                        event_disposition: event_fate_disposition(event_id, incident),
                        ..empty_fate()
                    },
                }
            } else if incident.state() == RecoveryIncidentState::RecoveryFailed {
                TableUOutcome {
                    logical: poison_event(terminal_event(event_id, InvalidationReason::RecoveryFailed)),
                    physical: PhysicalUnknownOutcome::ExistingFailureRemainsWithoutRetry,
                    physical_barriers: unknown_commit(),
                    recovery: RecoveryFate {
                        current_incident: Some(incident),
                        event_disposition: Some((event_id, Disposition::Invalidated(InvalidationReason::RecoveryFailed))),
                        ..empty_fate()
                    },
                }
            } else {
                TableUOutcome {
                    logical: poison_event(event_fate_for(event_id, incident, InvalidationReason::RecoveryFailed)),
                    physical: PhysicalUnknownOutcome::QuarantineReapCloseThenAttemptOnce,
                    physical_barriers: unknown_commit(),
                    recovery: RecoveryFate {
                        current_incident: Some(incident),
                        event_disposition: event_fate_disposition(event_id, incident),
                        ..empty_fate()
                    },
                }
            }
        },
    }
}

fn teardown(
    event_id: LifecycleEventId,
    existing: Option<RecoveryIncident>,
    reason: InvalidationReason,
    logical: LogicalUnknownActions,
) -> (r: TableUOutcome)
    ensures
        r == teardown_outcome(event_id, existing, reason, logical),
{
    let mut logical = logical;
    let mut fate = empty_fate();
    match existing {
        Some(incident) => {
            if incident.state() == RecoveryIncidentState::RecoveryFailed {
                fate.current_incident = Some(incident);
                logical.event = terminal_event(event_id, InvalidationReason::RecoveryFailed);
                fate.event_disposition = Some((event_id, Disposition::Invalidated(InvalidationReason::RecoveryFailed)));
            } else {
                fate.invalidated_incident = Some(IncidentInvalidation { recovery_id: incident.id(), reason });
                fate.representative_disposition = representative_disposition(&incident, reason);
                logical.event = event_fate_for(event_id, incident, reason);
                fate.event_disposition = event_fate_disposition(event_id, incident);
            }
        },
        None => {
            logical.event = terminal_event(event_id, reason);
            fate.event_disposition = Some((event_id, Disposition::Invalidated(reason)));
        },
    }
    TableUOutcome {
        logical,
        physical: if reason == InvalidationReason::VTRelease {
            PhysicalUnknownOutcome::QuarantineAwaitLifecycleTeardown
        } else {
            PhysicalUnknownOutcome::QuarantineReapCloseWithoutAttempt
        },
        physical_barriers: unknown_commit(),
        recovery: fate,
    }
}

fn teardown_row(
    event_id: LifecycleEventId,
    existing: Option<RecoveryIncident>,
    reason: InvalidationReason,
    withdraw_protocol_work: bool,
    release_seat: bool,
) -> (r: TableUOutcome)
    ensures
        r == teardown_outcome(event_id, existing, reason,
            teardown_actions(withdraw_protocol_work, release_seat, terminal_fate(event_id, reason))),
{
    teardown(
        event_id,
        existing,
        reason,
        LogicalUnknownActions {
            stop_admission: true,
            withdraw_protocol_work,
            release_seat,
            revoke_readiness: true,
            apply_dpms_target: false,
            poison_device: false,
            terminalize_rebuild: false,
            event: terminal_event(event_id, reason),
        },
    )
}

fn rebuild_unknown(event_id: LifecycleEventId, existing: Option<RecoveryIncident>) -> (r: TableUOutcome)
    ensures
        r == rebuild_outcome(event_id, existing),
{
    match existing {
        Some(incident) => {
            if incident.state() == RecoveryIncidentState::Attempting {
                let resolution = incident.resolve(RecoveryResolution::Failed);
                TableUOutcome {
                    logical: rebuild_event(true, event_fate_for(event_id, incident, InvalidationReason::RecoveryFailed)),
                    physical: PhysicalUnknownOutcome::ExistingAttemptFailedWithoutRetry,
                    physical_barriers: unknown_commit(),
                    recovery: RecoveryFate {
                        current_incident: resolution.incident,
                        representative_disposition: resolution.representative_disposition,
                        event_disposition: event_fate_disposition(event_id, incident),
                        ..empty_fate()
                    },
                }
            } else if incident.state() != RecoveryIncidentState::RecoveryFailed {
                TableUOutcome {
                    logical: rebuild_event(false, event_fate_for(event_id, incident, InvalidationReason::RecoveryFailed)),
                    physical: PhysicalUnknownOutcome::TransferQuarantineToRebuildThenQualifiedInstall,
                    physical_barriers: unknown_commit(),
                    recovery: RecoveryFate {
                        current_incident: Some(incident),
                        transferred: true,
                        event_disposition: event_fate_disposition(event_id, incident),
                        ..empty_fate()
                    },
                }
            } else {
                TableUOutcome {
                    logical: poison_event(terminal_event(event_id, InvalidationReason::RecoveryFailed)),
                    physical: PhysicalUnknownOutcome::ExistingFailureRemainsWithoutRetry,
                    physical_barriers: unknown_commit(),
                    recovery: RecoveryFate {
                        current_incident: Some(incident),
                        event_disposition: Some((event_id, Disposition::Invalidated(InvalidationReason::RecoveryFailed))),
                        ..empty_fate()
                    },
                }
            }
        },
        None => normal_live(event_id, None, true),
    }
}

fn dpms_unknown(event_id: LifecycleEventId, target: DpmsTarget, existing: Option<RecoveryIncident>) -> (r: TableUOutcome)
    ensures
        r == dpms_outcome(event_id, target, existing),
{
    let fate = match existing {
        None => RecoveryFate {
            new_incident: Some(IncidentSeed::completion_loss(
                event_id,
                match target {
                    DpmsTarget::On => RecoveryIncidentState::Active,
                    DpmsTarget::Off => RecoveryIncidentState::Paused,
                },
            )),
            ..empty_fate()
        },
        Some(incident) => {
            if incident.state() == RecoveryIncidentState::Attempting {
                let resolution = incident.resolve(RecoveryResolution::Failed);
                RecoveryFate {
                    current_incident: resolution.incident,
                    representative_disposition: resolution.representative_disposition,
                    event_disposition: event_fate_disposition(event_id, incident),
                    ..empty_fate()
                }
            } else if incident.state() == RecoveryIncidentState::RecoveryFailed {
                RecoveryFate {
                    current_incident: Some(incident),
                    event_disposition: Some((event_id, Disposition::Invalidated(InvalidationReason::RecoveryFailed))),
                    ..empty_fate()
                }
            } else {
                let mut moved = incident;
                match target {
                    DpmsTarget::Off => {
                        moved.pause();
                    },
                    DpmsTarget::On => {
                        moved.resume();
                    },
                }
                RecoveryFate {
                    current_incident: Some(moved),
                    event_disposition: event_fate_disposition(event_id, moved),
                    ..empty_fate()
                }
            }
        },
    };
    let event = match fate.new_incident {
        Some(seed) => match seed.origin {
            IncidentOrigin::CompletionLoss { representative } => EventFate::PendingRepresentative(representative),
            IncidentOrigin::Boundary => terminal_event(event_id, InvalidationReason::RecoveryFailed),
        },
        None => match fate.event_disposition {
            Some((id, disposition)) => EventFate::Terminal { event_id: id, disposition },
            None => terminal_event(event_id, InvalidationReason::RecoveryFailed),
        },
    };
    let new_active = match fate.new_incident {
        Some(seed) => seed.initial_state == RecoveryIncidentState::Active,
        None => false,
    };
    let current_live = match fate.current_incident {
        Some(incident) => incident.state() == RecoveryIncidentState::Active || incident.state()
            == RecoveryIncidentState::Attempting,
        None => false,
    };
    let current_paused = match fate.current_incident {
        Some(incident) => incident.state() == RecoveryIncidentState::Paused,
        None => false,
    };
    let new_paused = match fate.new_incident {
        Some(seed) => seed.initial_state == RecoveryIncidentState::Paused,
        None => false,
    };
    TableUOutcome {
        logical: LogicalUnknownActions {
            stop_admission: true,
            withdraw_protocol_work: false,
            release_seat: false,
            revoke_readiness: true,
            apply_dpms_target: true,
            poison_device: true,
            terminalize_rebuild: false,
            event,
        },
        physical: PhysicalUnknownOutcome::QuarantineDpmsWithoutKmsMutation {
            attempt_after_reap: new_active || current_live,
            paused_until_dpms_on: (target == DpmsTarget::Off && current_paused) || new_paused,
        },
        physical_barriers: unknown_commit(),
        recovery: fate,
    }
}

fn boundary_unknown(
    event_id: LifecycleEventId,
    recovery_id: RecoveryId,
    reason: InvalidationReason,
    existing: Option<RecoveryIncident>,
) -> (r: TableUOutcome)
    ensures
        r == boundary_outcome(event_id, recovery_id, reason, existing),
{
    let mut fate = RecoveryFate { current_incident: Some(RecoveryIncident::failed_boundary(recovery_id)), ..empty_fate() };
    let event = match existing {
        Some(incident) => {
            if incident.state() == RecoveryIncidentState::RecoveryFailed {
                terminal_event(event_id, InvalidationReason::RecoveryFailed)
            } else {
                fate.invalidated_incident = Some(IncidentInvalidation { recovery_id: incident.id(), reason });
                fate.representative_disposition = representative_disposition(&incident, reason);
                event_fate_for(event_id, incident, InvalidationReason::RecoveryFailed)
            }
        },
        None => terminal_event(event_id, InvalidationReason::RecoveryFailed),
    };
    fate.event_disposition = match event {
        EventFate::Terminal { event_id: id, disposition } => Some((id, disposition)),
        EventFate::PendingRepresentative(representative) => Some((event_id, Disposition::AbsorbedByEvent(representative))),
    };
    TableUOutcome {
        logical: rebuild_event(false, event),
        physical: PhysicalUnknownOutcome::QuarantineBoundaryAttemptFailed { recovery_id },
        physical_barriers: unknown_commit(),
        recovery: fate,
    }
}

/// Select the completion-loss outcome by the row active when the loss is
/// observed, regardless of whether the lost work was ordinary or owned by
/// that transition.
pub fn table_u(row: CompletionUnknownRow, event_id: LifecycleEventId, existing: Option<RecoveryIncident>) -> (r: TableUOutcome)
    ensures
        r == table_u_outcome(row, event_id, existing),
{
    match row {
        CompletionUnknownRow::NormalLive => normal_live(event_id, existing, false),
        CompletionUnknownRow::VTRelease => teardown_row(event_id, existing, InvalidationReason::VTRelease, false, true),
        CompletionUnknownRow::DeviceRemoved => teardown_row(event_id, existing, InvalidationReason::DeviceRemoved, true, false),
        CompletionUnknownRow::Shutdown => teardown_row(event_id, existing, InvalidationReason::Shutdown, true, true),
        CompletionUnknownRow::TopologyRebuild => rebuild_unknown(event_id, existing),
        CompletionUnknownRow::DPMS { target } => dpms_unknown(event_id, target, existing),
        CompletionUnknownRow::DeviceAddedOrReplaced { recovery_id } => boundary_unknown(
            event_id,
            recovery_id,
            InvalidationReason::DeviceAddedOrReplaced,
            existing,
        ),
        CompletionUnknownRow::VTAcquire { recovery_id } => boundary_unknown(event_id, recovery_id, InvalidationReason::VTAcquire, existing),
        CompletionUnknownRow::AdministrativeReprobe { recovery_id } => boundary_unknown(
            event_id,
            recovery_id,
            InvalidationReason::AdministrativeReprobe,
            existing,
        ),
        CompletionUnknownRow::IdentityChangingHotplug { recovery_id } => boundary_unknown(
            event_id,
            recovery_id,
            InvalidationReason::IdentityChangingHotplug,
            existing,
        ),
    }
}

fn boundary_reason(kind: LifecycleKind) -> (r: Option<InvalidationReason>)
    ensures
        r == boundary_reason_of(kind),
{
    match kind {
        LifecycleKind::DeviceAddedOrReplaced => Some(InvalidationReason::DeviceAddedOrReplaced),
        LifecycleKind::VTAcquire => Some(InvalidationReason::VTAcquire),
        LifecycleKind::AdministrativeReprobe => Some(InvalidationReason::AdministrativeReprobe),
        LifecycleKind::IdentityChangingHotplug => Some(InvalidationReason::IdentityChangingHotplug),
        _ => None,
    }
}

fn invalidation_reason(kind: LifecycleKind) -> (r: Option<InvalidationReason>)
    ensures
        r == teardown_reason_of(kind),
{
    match kind {
        LifecycleKind::Shutdown => Some(InvalidationReason::Shutdown),
        LifecycleKind::DeviceRemoved => Some(InvalidationReason::DeviceRemoved),
        LifecycleKind::VTRelease => Some(InvalidationReason::VTRelease),
        _ => None,
    }
}

fn failed_incident_fate(winner: RecoveryWinner, incident: RecoveryIncident, event_id: LifecycleEventId) -> (r: TableFOutcome)
    ensures
        r == failed_incident_outcome(winner, incident, event_id),
{
    let fresh = boundary_reason(winner.kind).is_some() && winner.recovery_required;
    TableFOutcome {
        fate: RecoveryFate {
            current_incident: if fresh { None } else { Some(incident) },
            new_incident: if fresh { Some(IncidentSeed::boundary()) } else { None },
            event_disposition: if winner.kind == LifecycleKind::NormalRecovery {
                Some((event_id, Disposition::Invalidated(InvalidationReason::RecoveryFailed)))
            } else {
                None
            },
            ..empty_fate()
        },
        incident_state: if fresh {
            Some(RecoveryIncidentState::Active)
        } else {
            Some(RecoveryIncidentState::RecoveryFailed)
        },
        allocate_fresh_id: fresh,
    }
}

/// Decide an existing incident's fate for a winning lifecycle kind. The
/// function neither allocates IDs nor performs any side effect.
pub fn table_f(winner: RecoveryWinner, incident: RecoveryIncident, event_id: LifecycleEventId) -> (r: TableFOutcome)
    ensures
        r == table_f_outcome(winner, incident, event_id),
{
    if incident.state() == RecoveryIncidentState::RecoveryFailed {
        return failed_incident_fate(winner, incident, event_id);
    }
    match boundary_reason(winner.kind) {
        Some(reason) => {
            return TableFOutcome {
                fate: RecoveryFate {
                    new_incident: if winner.recovery_required { Some(IncidentSeed::boundary()) } else { None },
                    invalidated_incident: Some(IncidentInvalidation { recovery_id: incident.id(), reason }),
                    representative_disposition: representative_disposition(&incident, reason),
                    ..empty_fate()
                },
                incident_state: if winner.recovery_required { Some(RecoveryIncidentState::Active) } else { None },
                allocate_fresh_id: winner.recovery_required,
            };
        },
        None => {},
    }
    match invalidation_reason(winner.kind) {
        Some(reason) => {
            return TableFOutcome {
                fate: RecoveryFate {
                    invalidated_incident: Some(IncidentInvalidation { recovery_id: incident.id(), reason }),
                    representative_disposition: representative_disposition(&incident, reason),
                    event_disposition: event_fate_disposition(event_id, incident),
                    ..empty_fate()
                },
                incident_state: None,
                allocate_fresh_id: false,
            };
        },
        None => {},
    }
    if winner.kind == LifecycleKind::TopologyRebuild {
        TableFOutcome {
            fate: RecoveryFate { current_incident: Some(incident), transferred: true, ..empty_fate() },
            incident_state: Some(incident.state()),
            allocate_fresh_id: false,
        }
    } else if winner.kind == LifecycleKind::DPMS {
        let mut next = incident;
        match winner.dpms_target {
            DpmsTarget::Off => {
                next.pause();
            },
            DpmsTarget::On => {
                next.resume();
            },
        }
        TableFOutcome {
            fate: RecoveryFate { current_incident: Some(next), ..empty_fate() },
            incident_state: Some(next.state()),
            allocate_fresh_id: false,
        }
    } else {
        TableFOutcome {
            fate: RecoveryFate {
                current_incident: Some(incident),
                event_disposition: event_fate_disposition(event_id, incident),
                ..empty_fate()
            },
            incident_state: Some(incident.state()),
            allocate_fresh_id: false,
        }
    }
}

// ---------------------------------------------------------------------------
// Laws.
// ---------------------------------------------------------------------------

/// Law: every unknown commit carries the full set of physical barriers, and
/// every loss stops admission and revokes readiness, whatever the row.
pub proof fn lemma_every_unknown_commit_is_fenced(row: CompletionUnknownRow, event_id: LifecycleEventId, existing: Option<RecoveryIncident>)
    ensures
        table_u_outcome(row, event_id, existing).physical_barriers == unknown_commit_barriers(),
        table_u_outcome(row, event_id, existing).logical.stop_admission,
        table_u_outcome(row, event_id, existing).logical.revoke_readiness,
{
}

/// Law: no incident has two fates. A transfer never invalidates; an
/// invalidated incident is not the one kept; a fresh incident never sits
/// beside a kept one. The boundary rows name a fresh id distinct from the
/// existing incident's.
pub proof fn lemma_table_u_no_double_fate(row: CompletionUnknownRow, event_id: LifecycleEventId, existing: Option<RecoveryIncident>)
    requires
        (row matches CompletionUnknownRow::DeviceAddedOrReplaced { recovery_id } ==> (existing matches Some(i) ==> i.spec_id() != recovery_id)),
        (row matches CompletionUnknownRow::VTAcquire { recovery_id } ==> (existing matches Some(i) ==> i.spec_id() != recovery_id)),
        (row matches CompletionUnknownRow::AdministrativeReprobe { recovery_id } ==> (existing matches Some(i) ==> i.spec_id() != recovery_id)),
        (row matches CompletionUnknownRow::IdentityChangingHotplug { recovery_id } ==> (existing matches Some(i) ==> i.spec_id() != recovery_id)),
    ensures
        ({
            let fate = table_u_outcome(row, event_id, existing).recovery;
            &&& !fate.transferred || fate.invalidated_incident is None
            &&& (fate.invalidated_incident matches Some(inv) ==> (fate.current_incident matches Some(cur) ==> inv.recovery_id != cur.spec_id()))
            &&& fate.new_incident is None || fate.current_incident is None
        }),
{
    reveal_incident_parts();
}

/// Law: the recovery-fate table gives an incident at most one fate, and asks
/// for a fresh id exactly when it seeds a new incident.
pub proof fn lemma_table_f_no_double_fate(winner: RecoveryWinner, i: RecoveryIncident, event_id: LifecycleEventId)
    ensures
        ({
            let out = table_f_outcome(winner, i, event_id);
            let fate = out.fate;
            &&& !fate.transferred || fate.invalidated_incident is None
            &&& (fate.invalidated_incident matches Some(inv) ==> (fate.current_incident matches Some(cur) ==> inv.recovery_id != cur.spec_id()))
            &&& fate.new_incident is None || fate.current_incident is None
            &&& out.allocate_fresh_id == fate.new_incident is Some
        }),
{
    reveal_incident_parts();
}

/// Law: an incident keeps its identity and budget through the recovery-fate
/// table; a failed incident stays failed unless a boundary that requires
/// recovery replaces it with a fresh one.
pub proof fn lemma_table_f_keeps_identity(winner: RecoveryWinner, i: RecoveryIncident, event_id: LifecycleEventId)
    ensures
        table_f_outcome(winner, i, event_id).fate.current_incident matches Some(cur) ==> (cur.spec_id() == i.spec_id()
            && cur.spec_budget() == i.spec_budget() && cur.spec_origin() == i.spec_origin()),
        i.spec_state() == RecoveryIncidentState::RecoveryFailed ==> (table_f_outcome(winner, i, event_id).allocate_fresh_id
            || table_f_outcome(winner, i, event_id).fate.current_incident == Some(i)),
{
    reveal_incident_parts();
}

/// Law: one attempt per incident. An attempt starts only from an active
/// incident with an unspent budget, after the reap; the budget never comes
/// back once spent, through pause, resume, or a failed resolution.
pub proof fn lemma_spent_budget_is_final(i: RecoveryIncident, target: DpmsTarget)
    requires
        i.spec_budget() == RecoveryAttemptBudget::Spent,
    ensures
        dpms_moved(i, target).spec_budget() == RecoveryAttemptBudget::Spent,
        i.spec_state() != RecoveryIncidentState::Active ==> dpms_moved(i, target).spec_state() != RecoveryIncidentState::Active,
        resolution_of(i, RecoveryResolution::Failed).incident matches Some(j) ==> j.spec_budget() == RecoveryAttemptBudget::Spent,
{
    reveal_incident_parts();
}

proof fn reveal_incident_parts()
    ensures
        forall|id: RecoveryId, o: IncidentOrigin, s: RecoveryIncidentState, b: RecoveryAttemptBudget|
            #![trigger incident_of(id, o, s, b)]
            incident_of(id, o, s, b).spec_id() == id && incident_of(id, o, s, b).spec_origin() == o
                && incident_of(id, o, s, b).spec_state() == s && incident_of(id, o, s, b).spec_budget() == b,
{
}

} // verus!
