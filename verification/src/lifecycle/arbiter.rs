//! Per-device lifecycle arbitration: one transition at a time, elected by
//! precedence, with physical work gated on safety receipts.
use vstd::prelude::*;

use super::desired::{
    kind_field, DesiredField, DesiredIntent, DesiredView, LifecycleDesired, OutputProjection,
    OutputProjectionRemoval, ProjectionResult, Representative, SeatTarget,
};
use super::ids::{LifecycleEpochId, LifecycleTransitionId};
use super::recovery::{
    dpms_target_for_level, level_target, table_f, table_u, CompletionUnknownRow, DpmsTarget,
    EventFate, IncidentOrigin, IncidentSeed, PhysicalUnknownOutcome, RecoveryAttemptBudget,
    RecoveryAttemptTrigger, RecoveryFate, RecoveryIncident, RecoveryIncidentState,
    table_f_outcome, table_u_outcome, RecoveryResolution, RecoveryWinner, TableFOutcome, TableUOutcome,
};
use super::values::{
    kind_precedence, DeviceLifecycleState, Disposition, LifecycleEventId, LifecycleKind, Prerequisite, RecoveryId,
    TransitionTag, WorkTag,
};

verus! {

/// Commit progress known by the arbiter. A submitted request cannot be
/// cancelled as if it had never reached the executor.
#[derive(Debug, Clone, Copy, PartialEq, Eq, Structural, Hash)]
pub enum CommitProgress {
    NotSubmitted,
    Submitting,
    Accepted,
}

/// The safety obligations that the winner must acknowledge before physical
/// lifecycle work is allowed to advance.
#[derive(Debug, Clone, Copy, PartialEq, Eq, Structural, Hash)]
pub enum LifecycleReceipt {
    AdmissionClosed,
    PreSubmitWorkCancelled,
    PresentsTerminalized,
    QuarantineTransferred,
}

/// The bit a receipt occupies in a transition's acknowledgement masks.
pub open spec fn receipt_bit(receipt: LifecycleReceipt) -> u8 {
    match receipt {
        LifecycleReceipt::AdmissionClosed => 1,
        LifecycleReceipt::PreSubmitWorkCancelled => 2,
        LifecycleReceipt::PresentsTerminalized => 4,
        LifecycleReceipt::QuarantineTransferred => 8,
    }
}

/// The mask with every receipt acknowledged.
pub open spec fn all_receipt_bits() -> u8 {
    15
}

impl LifecycleReceipt {
    /// Every receipt obligation, for exhaustive tables.
    pub fn all() -> (r: [Self; 4])
        ensures
            r@ == seq![Self::AdmissionClosed, Self::PreSubmitWorkCancelled, Self::PresentsTerminalized, Self::QuarantineTransferred],
    {
        [Self::AdmissionClosed, Self::PreSubmitWorkCancelled, Self::PresentsTerminalized, Self::QuarantineTransferred]
    }

    fn bit(self) -> (r: u8)
        ensures
            r == receipt_bit(self),
    {
        match self {
            Self::AdmissionClosed => 1,
            Self::PreSubmitWorkCancelled => 2,
            Self::PresentsTerminalized => 4,
            Self::QuarantineTransferred => 8,
        }
    }
}

/// Law: the four receipt bits are distinct and together make the full mask.
pub proof fn lemma_receipt_bits_cover_the_mask()
    ensures
        receipt_bit(LifecycleReceipt::AdmissionClosed) | receipt_bit(LifecycleReceipt::PreSubmitWorkCancelled)
            | receipt_bit(LifecycleReceipt::PresentsTerminalized) | receipt_bit(LifecycleReceipt::QuarantineTransferred)
            == all_receipt_bits(),
{
    assert(1u8 | 2u8 | 4u8 | 8u8 == 15u8) by (bit_vector);
}

/// Whether a safety receipt proves its obligation or leaves the winner fenced.
#[derive(Debug, Clone, Copy, PartialEq, Eq, Structural, Hash)]
pub enum LifecycleReceiptResult {
    Succeeded,
    Failed,
}

/// Current phase of the one per-device transition.
#[derive(Debug, Clone, Copy, PartialEq, Eq, Structural, Hash)]
pub enum LifecycleTransitionPhase {
    AwaitingReceipts,
    PhysicalReady,
    PhysicallyFenced,
    AwaitingTerminal,
}

/// The sole current transition. Its identity is allocated by the arbiter.
#[derive(Debug, Clone, Copy, PartialEq, Eq, Structural, Hash)]
pub struct LifecycleTransition {
    pub id: LifecycleTransitionId,
    pub kind: LifecycleKind,
    pub phase: LifecycleTransitionPhase,
    commit_progress: CommitProgress,
    commit_epoch: LifecycleEpochId,
    terminal_wait_requested: bool,
    acknowledged: u8,
    failed: u8,
}

impl LifecycleTransition {
    /// Every receipt acknowledged and none failed.
    pub closed spec fn receipts_done(self) -> bool {
        self.acknowledged == all_receipt_bits() && self.failed == 0
    }

    pub closed spec fn spec_id(self) -> LifecycleTransitionId {
        self.id
    }

    pub closed spec fn spec_kind(self) -> LifecycleKind {
        self.kind
    }

    pub closed spec fn spec_phase(self) -> LifecycleTransitionPhase {
        self.phase
    }

    pub closed spec fn spec_commit_progress(self) -> CommitProgress {
        self.commit_progress
    }

    /// The receipts acknowledged so far, one `receipt_bit` each.
    pub closed spec fn spec_acknowledged(self) -> u8 {
        self.acknowledged
    }

    /// The receipts that failed so far, one `receipt_bit` each.
    pub closed spec fn spec_failed(self) -> u8 {
        self.failed
    }

    /// A receipt failed, so physical work stays fenced.
    pub closed spec fn spec_fenced(self) -> bool {
        self.failed != 0
    }

    fn new(id: LifecycleTransitionId, kind: LifecycleKind, epoch: LifecycleEpochId) -> (r: Self)
        ensures
            r.id == id,
            r.kind == kind,
            r.phase == LifecycleTransitionPhase::AwaitingReceipts,
            r.commit_progress == CommitProgress::NotSubmitted,
            r.commit_epoch == epoch,
            !r.terminal_wait_requested,
            r.acknowledged == 0,
            r.failed == 0,
    {
        Self {
            id,
            kind,
            phase: LifecycleTransitionPhase::AwaitingReceipts,
            commit_progress: CommitProgress::NotSubmitted,
            commit_epoch: epoch,
            terminal_wait_requested: false,
            acknowledged: 0,
            failed: 0,
        }
    }

    pub fn id(self) -> (r: LifecycleTransitionId)
        ensures
            r == self.spec_id(),
    {
        self.id
    }

    pub fn kind(self) -> (r: LifecycleKind)
        ensures
            r == self.spec_kind(),
    {
        self.kind
    }

    pub fn phase(self) -> (r: LifecycleTransitionPhase)
        ensures
            r == self.spec_phase(),
    {
        self.phase
    }

    pub fn commit_progress(self) -> (r: CommitProgress)
        ensures
            r == self.spec_commit_progress(),
    {
        self.commit_progress
    }

    fn receipts_complete(self) -> (r: bool)
        ensures
            r == self.receipts_done(),
    {
        self.acknowledged == 15 && self.failed == 0
    }

    fn physically_fenced(self) -> (r: bool)
        ensures
            r == self.spec_fenced(),
    {
        self.failed != 0
    }
}

/// Input from the coordinator, driver, or an acknowledged executor result.
/// The incarnation parameter stays opaque to this module.
#[derive(Debug, Clone, Copy, PartialEq, Eq, Hash)]
pub enum ArbiterInput<I> {
    LifecycleEvent { event_id: LifecycleEventId, intent: DesiredIntent },
    Receipt { tag: TransitionTag<I>, receipt: LifecycleReceipt, result: LifecycleReceiptResult },
    CommitProgress { tag: TransitionTag<I>, progress: CommitProgress },
    CommitOutcome { tag: TransitionTag<I>, outcome: LifecycleCommitOutcome },
    /// A completion-loss event has no work tag: the row active when the loss
    /// is observed decides. Boundary attempts supply the fresh recovery id
    /// they own.
    CompletionUnknown { event_id: LifecycleEventId, boundary_recovery_id: Option<RecoveryId> },
    RecoveryIncidentAllocated { event_id: LifecycleEventId, incident: RecoveryIncident },
    /// Progress of the one authorized recovery attempt. The tag is the
    /// recovery transition, not the completion-loss event's old work tag.
    RecoveryAttempt { tag: TransitionTag<I>, outcome: RecoveryAttemptOutcome },
    DeviceStateChanged(DeviceLifecycleState),
    /// A read-only seat ownership observation. It updates the external
    /// prerequisite and retries bounded convergence, without projecting a
    /// VT transition of its own.
    SeatTargetObserved { target: SeatTarget, epoch: u64 },
    /// The fd-family barrier discharged a quarantine fence left by a failed
    /// or late safety receipt.
    FdFamilyBarrierCleared { tag: TransitionTag<I> },
    OrdinaryReply { tag: WorkTag<I> },
}

/// The attempt-start acknowledgement and its one terminal result.
#[derive(Debug, Clone, Copy, PartialEq, Eq, Structural, Hash)]
pub enum RecoveryAttemptOutcome {
    /// Accepted only after the authorized reap and only for an available id.
    Started(RecoveryAttemptTrigger),
    Qualified,
    FailedOrUnknown,
}

/// Terminal result at the commit result boundary.
#[derive(Debug, Clone, Copy, PartialEq, Eq, Structural, Hash)]
pub enum LifecycleCommitOutcome {
    Completed {
        /// DPMS is `Applied` only after every still-current output projection
        /// on this device has retired.
        dpms_projections_retired: bool,
    },
    Rejected {
        /// `Some(generation)` is an object-combination topology latch;
        /// `None` closes readiness until another lifecycle transition.
        topology_latched_generation: Option<u64>,
    },
}

/// Typed actions for the driver. Actions assert obligations only; the driver
/// returns receipts or terminal results before advancement.
#[derive(Debug, Clone, PartialEq, Eq)]
pub enum LifecycleAction<I> {
    CloseAdmission(WorkTag<I>),
    ReopenAdmission(WorkTag<I>),
    StopAliasCreation(TransitionTag<I>),
    CancelPreSubmitWork(TransitionTag<I>),
    AwaitTerminalState(TransitionTag<I>),
    TerminalizePresents(TransitionTag<I>),
    TransferQuarantineToWinner(TransitionTag<I>),
    ReleaseSeat(WorkTag<I>),
    WithdrawOutputs(WorkTag<I>),
    TerminalizeProtocolWork(WorkTag<I>),
    EpochAdvanced(LifecycleEpochId),
    PhysicalAdvanceAllowed(TransitionTag<I>),
    DispositionChanged { event_id: LifecycleEventId, disposition: Disposition },
    AllocateRecoveryIncident { event_id: LifecycleEventId, seed: IncidentSeed },
    RecoveryTableF(TableFOutcome),
    CompletionLossTableU { row: CompletionUnknownRow, outcome: TableUOutcome },
    CompletionBarriersRequired(TableUOutcome),
    ReceiptFailed { transition_id: LifecycleTransitionId, receipt: LifecycleReceipt },
    StaleReceiptIgnored { transition_id: LifecycleTransitionId, receipt: LifecycleReceipt, result: LifecycleReceiptResult },
    StaleResultIgnored { transition_id: Option<LifecycleTransitionId> },
    OrdinaryReplyCurrent,
    TransitionIdExhausted,
    EpochExhausted,
    MissingBoundaryRecoveryId(LifecycleKind),
}

/// No action in the sequence lets physical work advance.
pub open spec fn no_advance(s: Seq<LifecycleAction<u32>>) -> bool {
    forall|k: int| 0 <= k < s.len() ==> !(#[trigger] s[k] is PhysicalAdvanceAllowed)
}

/// `new` extends `old` with actions none of which lets physical work advance.
pub open spec fn appended_quietly(old: Seq<LifecycleAction<u32>>, new: Seq<LifecycleAction<u32>>) -> bool {
    &&& old.len() <= new.len()
    &&& forall|k: int| 0 <= k < old.len() ==> #[trigger] new[k] == old[k]
    &&& forall|k: int| old.len() <= k < new.len() ==> !(#[trigger] new[k] is PhysicalAdvanceAllowed)
}

/// Every cancellation of pre-submit work that `new` adds to `old` names a
/// transition id at least `floor`.
pub open spec fn cancels_from(old: Seq<LifecycleAction<u32>>, new: Seq<LifecycleAction<u32>>, floor: int) -> bool {
    forall|k: int| old.len() <= k < new.len() ==> (#[trigger] new[k] matches LifecycleAction::CancelPreSubmitWork(t) ==> t.transition@ >= floor)
}

/// The representative field of a transition kind.
pub fn field_for_kind(kind: LifecycleKind) -> (r: DesiredField)
    ensures
        r == kind_field(kind),
{
    match kind {
        LifecycleKind::Shutdown => DesiredField::Shutdown,
        LifecycleKind::DeviceRemoved | LifecycleKind::DeviceAddedOrReplaced => DesiredField::Presence,
        LifecycleKind::VTRelease | LifecycleKind::VTAcquire => DesiredField::Seat,
        LifecycleKind::AdministrativeReprobe => DesiredField::AdministrativeReprobe,
        LifecycleKind::IdentityChangingHotplug | LifecycleKind::TopologyRebuild => DesiredField::Topology,
        LifecycleKind::DPMS => DesiredField::Dpms,
        LifecycleKind::NormalRecovery => DesiredField::Recovery,
    }
}

/// A kind whose transition brings a device back: it may replace an incident
/// and require a fresh recovery attempt.
pub open spec fn is_boundary_kind(kind: LifecycleKind) -> bool {
    kind == LifecycleKind::DeviceAddedOrReplaced || kind == LifecycleKind::VTAcquire || kind
        == LifecycleKind::AdministrativeReprobe || kind == LifecycleKind::IdentityChangingHotplug
}

/// Every DPMS level an input carries is one of the four X11 levels.
pub open spec fn input_levels_valid(input: ArbiterInput<u32>) -> bool {
    match input {
        ArbiterInput::LifecycleEvent { intent, .. } => match intent {
            DesiredIntent::Dpms { level, .. } => level <= 3,
            _ => true,
        },
        _ => true,
    }
}

/// Per-device arbiter. The desired snapshot and every counter are bounded by
/// protocol fields, output domain, or current lifecycle state, never by event
/// history.
#[derive(Debug, PartialEq, Eq)]
pub struct LifecycleArbiter<O, I> {
    incarnation: I,
    desired: LifecycleDesired<O>,
    state: DeviceLifecycleState,
    epoch: LifecycleEpochId,
    transition: Option<LifecycleTransition>,
    next_transition_id: Option<u64>,
    last_transition_id: Option<LifecycleTransitionId>,
    recovery: Option<RecoveryIncident>,
    admission_open: bool,
    coalesced_epoch_bumped: bool,
    topology_latch: Option<u64>,
    pending_recovery_allocation: Option<(LifecycleEventId, IncidentSeed)>,
    fd_family_fenced: bool,
}

/// Physical work for `tag` may advance: it names the current transition of
/// this incarnation, every receipt is in and none failed, and no quarantine
/// fence is outstanding.
pub open spec fn advance_is_sound(a: &LifecycleArbiter<u32, u32>, tag: TransitionTag<u32>) -> bool {
    &&& a.spec_transition() matches Some(t)
    &&& t.spec_id() == tag.transition
    &&& t.receipts_done()
    &&& tag.incarnation == a.spec_incarnation()
    &&& !a.spec_fd_fenced()
}

/// Every physical advance among `s` is sound for the arbiter `a`.
pub open spec fn advances_sound(a: &LifecycleArbiter<u32, u32>, s: Seq<LifecycleAction<u32>>) -> bool {
    forall|k: int| 0 <= k < s.len() ==> (#[trigger] s[k] matches LifecycleAction::PhysicalAdvanceAllowed(tag)
        ==> advance_is_sound(a, tag))
}

/// The prerequisite that keeps an event of `kind` from starting now.
pub open spec fn event_prerequisite(
    d: DesiredView,
    state: DeviceLifecycleState,
    latch: Option<u64>,
    kind: LifecycleKind,
) -> Option<Prerequisite> {
    if kind == LifecycleKind::DeviceAddedOrReplaced {
        if d.seat_target != Some(SeatTarget::Owned) {
            Some(Prerequisite::SeatReleased)
        } else {
            None
        }
    } else if kind == LifecycleKind::VTAcquire {
        if d.device_presence != Some(true) {
            Some(Prerequisite::DeviceAbsent)
        } else {
            None
        }
    } else if kind == LifecycleKind::DPMS {
        if state == DeviceLifecycleState::Poisoned {
            Some(Prerequisite::ReadinessClosed)
        } else if d.seat_target == Some(SeatTarget::Released) {
            Some(Prerequisite::SeatReleased)
        } else if state != DeviceLifecycleState::Ready {
            Some(Prerequisite::ReadinessClosed)
        } else {
            match latch {
                Some(generation) => match d.discovery_epoch {
                    Some(current) => if current != generation {
                        None
                    } else {
                        Some(Prerequisite::TopologyLatched(generation))
                    },
                    None => Some(Prerequisite::TopologyLatched(generation)),
                },
                None => None,
            }
        }
    } else {
        None
    }
}

/// Law of election: an accepted event that outranks the active transition
/// and whose prerequisites hold replaces it with a fresh transition of its
/// own kind (while ids remain); an event that does not outrank it leaves the
/// same transition in place.
pub open spec fn elects_by_precedence(
    a: &LifecycleArbiter<u32, u32>,
    b: &LifecycleArbiter<u32, u32>,
    event_id: LifecycleEventId,
    intent: DesiredIntent,
) -> bool {
    let kind = super::desired::intent_kind(intent);
    let projected = super::desired::projection_state(a.spec_desired(), event_id, intent);
    let state = if kind == LifecycleKind::Shutdown {
        DeviceLifecycleState::Quiescing
    } else {
        a.spec_state()
    };
    a.spec_transition() matches Some(t) ==> {
        &&& (kind_precedence(kind) < kind_precedence(t.spec_kind())
            && super::desired::projection_disposition(a.spec_desired(), intent) is None
            && a.spec_next_transition_id() is Some
            && !(a.spec_state() == DeviceLifecycleState::Poisoned && kind == LifecycleKind::DPMS)
            && event_prerequisite(projected, state, a.spec_topology_latch(), kind) is None)
            ==> (b.spec_transition() matches Some(n) && n.spec_kind() == kind && n.spec_id() != t.spec_id())
        &&& !(kind_precedence(kind) < kind_precedence(t.spec_kind())) ==> (b.spec_transition() matches Some(n)
            && n.spec_kind() == t.spec_kind() && n.spec_id() == t.spec_id())
    }
}

/// With no transition running, an accepted event whose prerequisites hold
/// starts a transition of its own kind (while ids remain); one held back by
/// a prerequisite leaves the device idle, and a ready device reopens
/// admission last.
pub open spec fn idle_event_handled(
    a: &LifecycleArbiter<u32, u32>,
    b: &LifecycleArbiter<u32, u32>,
    event_id: LifecycleEventId,
    intent: DesiredIntent,
    r: Seq<LifecycleAction<u32>>,
) -> bool {
    let kind = super::desired::intent_kind(intent);
    let projected = super::desired::projection_state(a.spec_desired(), event_id, intent);
    let state = if kind == LifecycleKind::Shutdown {
        DeviceLifecycleState::Quiescing
    } else {
        a.spec_state()
    };
    let accepted = super::desired::projection_disposition(a.spec_desired(), intent) is None && !(a.spec_state()
        == DeviceLifecycleState::Poisoned && kind == LifecycleKind::DPMS);
    a.spec_transition() is None && accepted ==> {
        &&& event_prerequisite(projected, state, a.spec_topology_latch(), kind) is None && a.spec_next_transition_id() is Some
            ==> (b.spec_transition() matches Some(n) && n.spec_kind() == kind)
        &&& event_prerequisite(projected, state, a.spec_topology_latch(), kind) is Some ==> {
            &&& b.spec_transition() is None
            &&& state == DeviceLifecycleState::Ready ==> r.last() == LifecycleAction::<u32>::ReopenAdmission(work_tag_of(b))
        }
    }
}

/// The tag names the arbiter's current transition in this incarnation,
/// whatever epoch it carries.
pub open spec fn names_current_transition(a: &LifecycleArbiter<u32, u32>, tag: TransitionTag<u32>) -> bool {
    &&& tag.incarnation == a.spec_incarnation()
    &&& a.spec_transition() is Some
    &&& a.spec_transition()->0.spec_id() == tag.transition
}

/// The tag names the current transition in the current epoch.
pub open spec fn is_current_tag(a: &LifecycleArbiter<u32, u32>, tag: TransitionTag<u32>) -> bool {
    names_current_transition(a, tag) && tag.lifecycle_epoch == a.spec_epoch()
}

/// Commit progress for the current transition (in any epoch) is recorded
/// on it, moving it to await the terminal outcome once submitted; progress
/// for another transition changes nothing. Only progress tagged with the
/// current epoch goes unreported; anything else is reported stale.
pub open spec fn commit_progress_applied(
    a: &LifecycleArbiter<u32, u32>,
    b: &LifecycleArbiter<u32, u32>,
    tag: TransitionTag<u32>,
    progress: CommitProgress,
    r: Seq<LifecycleAction<u32>>,
) -> bool {
    &&& is_current_tag(a, tag) ==> r.len() == 0
    &&& !is_current_tag(a, tag) ==> r == seq![LifecycleAction::<u32>::StaleResultIgnored { transition_id: Some(tag.transition) }]
    &&& !names_current_transition(a, tag) ==> *b == *a
    &&& names_current_transition(a, tag) ==> {
        &&& b.spec_transition() is Some
        &&& b.spec_transition()->0.spec_id() == a.spec_transition()->0.spec_id()
        &&& b.spec_transition()->0.spec_kind() == a.spec_transition()->0.spec_kind()
        &&& b.spec_transition()->0.spec_commit_progress() == progress
        &&& b.spec_transition()->0.spec_phase() == if progress == CommitProgress::NotSubmitted {
            a.spec_transition()->0.spec_phase()
        } else {
            LifecycleTransitionPhase::AwaitingTerminal
        }
        &&& b.spec_state() == a.spec_state()
        &&& b.spec_desired() == a.spec_desired()
    }
}

/// The table-U row for a completion loss during a transition of `kind` (no
/// transition counts as live recovery); boundary kinds need a recovery id.
pub open spec fn unknown_row_for(
    kind: LifecycleKind,
    boundary_recovery_id: Option<RecoveryId>,
    dpms_level: u8,
) -> Option<CompletionUnknownRow> {
    match kind {
        LifecycleKind::Shutdown => Some(CompletionUnknownRow::Shutdown),
        LifecycleKind::DeviceRemoved => Some(CompletionUnknownRow::DeviceRemoved),
        LifecycleKind::VTRelease => Some(CompletionUnknownRow::VTRelease),
        LifecycleKind::DeviceAddedOrReplaced => match boundary_recovery_id {
            Some(recovery_id) => Some(CompletionUnknownRow::DeviceAddedOrReplaced { recovery_id }),
            None => None,
        },
        LifecycleKind::VTAcquire => match boundary_recovery_id {
            Some(recovery_id) => Some(CompletionUnknownRow::VTAcquire { recovery_id }),
            None => None,
        },
        LifecycleKind::AdministrativeReprobe => match boundary_recovery_id {
            Some(recovery_id) => Some(CompletionUnknownRow::AdministrativeReprobe { recovery_id }),
            None => None,
        },
        LifecycleKind::IdentityChangingHotplug => match boundary_recovery_id {
            Some(recovery_id) => Some(CompletionUnknownRow::IdentityChangingHotplug { recovery_id }),
            None => None,
        },
        LifecycleKind::TopologyRebuild => Some(CompletionUnknownRow::TopologyRebuild),
        LifecycleKind::DPMS => Some(CompletionUnknownRow::DPMS { target: level_target(dpms_level)->0 }),
        LifecycleKind::NormalRecovery => Some(CompletionUnknownRow::NormalLive),
    }
}

/// The kind of the active transition; none counts as live recovery.
pub open spec fn loss_kind(a: &LifecycleArbiter<u32, u32>) -> LifecycleKind {
    match a.spec_transition() {
        Some(t) => t.spec_kind(),
        None => LifecycleKind::NormalRecovery,
    }
}

/// A completion loss is decided by table U for the active transition's row:
/// a boundary transition without a recovery id is refused unchanged;
/// otherwise the row and its outcome are reported, the transition that
/// lost its commit ends, the outcome's dispositions are recorded, its
/// incident becomes current, a fresh incident is requested, and the
/// device is poisoned or quiesced as the outcome says. No transition is
/// left but the recovery transition started, under the next id, when the
/// incident may still attempt.
pub open spec fn completion_unknown_applied(
    a: &LifecycleArbiter<u32, u32>,
    b: &LifecycleArbiter<u32, u32>,
    event_id: LifecycleEventId,
    boundary_recovery_id: Option<RecoveryId>,
    r: Seq<LifecycleAction<u32>>,
) -> bool {
    let row = unknown_row_for(loss_kind(a), boundary_recovery_id, a.spec_desired().protocol_dpms_level);
    &&& row is None ==> r == seq![LifecycleAction::<u32>::MissingBoundaryRecoveryId(loss_kind(a))] && *b == *a
    &&& row is Some ==> {
        let outcome = table_u_outcome(row->0, event_id, a.spec_recovery());
        &&& exists|k: int| 0 <= k < r.len() && r[k] == LifecycleAction::<u32>::CompletionLossTableU { row: row->0, outcome }
        &&& exists|k: int| 0 <= k < r.len() && r[k] == LifecycleAction::<u32>::CompletionBarriersRequired(outcome)
        &&& a.spec_transition() is Some ==> b.spec_transition() != a.spec_transition()
        &&& (b.spec_transition() is Some <==> incident_ready(outcome.recovery.current_incident) && a.spec_next_transition_id() is Some)
        &&& b.spec_transition() matches Some(t) ==> t.spec_kind() == loss_recovery_kind(outcome) && t.spec_id()@
            == a.spec_next_transition_id()->0
        &&& b.spec_desired() == (DesiredView {
            representatives: loss_reps(
                a.spec_desired().representatives,
                outcome,
                loss_kind(a) == LifecycleKind::DPMS && outcome.logical.poison_device,
            ),
            ..a.spec_desired()
        })
        &&& b.spec_recovery() == outcome.recovery.current_incident
        &&& outcome.logical.poison_device ==> b.spec_state() == DeviceLifecycleState::Poisoned && !b.spec_admission_open()
        &&& !outcome.logical.poison_device && outcome.logical.release_seat ==> b.spec_state() == DeviceLifecycleState::Quiescing
            && !b.spec_admission_open()
        &&& !outcome.logical.poison_device && !outcome.logical.release_seat ==> b.spec_state() == a.spec_state()
        &&& outcome.recovery.new_incident matches Some(seed) ==> {
            &&& r.contains(LifecycleAction::<u32>::AllocateRecoveryIncident { event_id, seed })
            &&& b.spec_pending_allocation_event() == Some(event_id)
        }
        &&& r.len() >= loss_actions(a, event_id, row->0, outcome).len()
        &&& r.subrange(0, loss_actions(a, event_id, row->0, outcome).len() as int) == loss_actions(a, event_id, row->0, outcome)
    }
}

/// The recovery transition a completion loss starts when its incident may
/// still attempt: a topology rebuild when quarantine moves to a rebuild,
/// otherwise a normal recovery.
pub open spec fn loss_recovery_kind(outcome: TableUOutcome) -> LifecycleKind {
    if outcome.physical == PhysicalUnknownOutcome::TransferQuarantineToRebuildThenQualifiedInstall {
        LifecycleKind::TopologyRebuild
    } else {
        LifecycleKind::NormalRecovery
    }
}

/// The seat and output actions a completion loss takes under the tag it
/// found: the seat is released, then outputs are withdrawn and protocol
/// work terminalized, as the outcome says.
pub open spec fn loss_logical_actions(outcome: TableUOutcome, tag: WorkTag<u32>) -> Seq<LifecycleAction<u32>> {
    (if outcome.logical.release_seat {
        seq![LifecycleAction::<u32>::ReleaseSeat(tag)]
    } else {
        Seq::<LifecycleAction<u32>>::empty()
    }) + (if outcome.logical.withdraw_protocol_work {
        seq![LifecycleAction::<u32>::WithdrawOutputs(tag), LifecycleAction::<u32>::TerminalizeProtocolWork(tag)]
    } else {
        Seq::<LifecycleAction<u32>>::empty()
    })
}

/// The report of a completion loss's event disposition: recorded for a
/// pending representative, or reported anyway when it ends the lost event
/// itself; with none named, the lost event's own terminal fate.
pub open spec fn loss_event_report(r1: Seq<Representative>, outcome: TableUOutcome, event_id: LifecycleEventId) -> Seq<
    LifecycleAction<u32>,
> {
    match outcome.recovery.event_disposition {
        Some((e, d)) => if disposition_report(r1, Some((e, d))).len() > 0 {
            disposition_report(r1, Some((e, d)))
        } else if e == event_id {
            seq![LifecycleAction::<u32>::DispositionChanged { event_id: e, disposition: d }]
        } else {
            Seq::<LifecycleAction<u32>>::empty()
        },
        None => match outcome.logical.event {
            EventFate::Terminal { event_id: terminal_id, disposition } => if terminal_id == event_id {
                seq![LifecycleAction::<u32>::DispositionChanged { event_id, disposition }]
            } else {
                Seq::<LifecycleAction<u32>>::empty()
            },
            EventFate::PendingRepresentative(_) => Seq::<LifecycleAction<u32>>::empty(),
        },
    }
}

/// Deferring the DPMS representative until readiness returns.
pub open spec fn dpms_readiness_deferral(reps: Seq<Representative>) -> Option<(LifecycleEventId, Disposition)> {
    match super::desired::rep_for(reps, DesiredField::Dpms) {
        Some(p) => Some((p.event_id, Disposition::Deferred(Prerequisite::ReadinessClosed))),
        None => None,
    }
}

/// The dispositions a completion loss reports, in turn: the incident's
/// representative, then its event, then a poisoned DPMS representative's
/// deferral.
#[verifier::opaque]
pub open spec fn loss_reports(
    reps: Seq<Representative>,
    outcome: TableUOutcome,
    event_id: LifecycleEventId,
    dpms_poisoned: bool,
) -> Seq<LifecycleAction<u32>> {
    let r1 = disposition_update(reps, outcome.recovery.representative_disposition);
    let r2 = disposition_update(r1, outcome.recovery.event_disposition);
    disposition_report(reps, outcome.recovery.representative_disposition) + loss_event_report(r1, outcome, event_id) + if dpms_poisoned {
        disposition_report(r2, dpms_readiness_deferral(r2))
    } else {
        Seq::<LifecycleAction<u32>>::empty()
    }
}

/// The actions a completion loss takes before any recovery transition
/// starts, in order: seat and output actions, dispositions, the request
/// for a fresh incident, then the table-U row and its barriers.
#[verifier::opaque]
pub open spec fn loss_actions(a: &LifecycleArbiter<u32, u32>, event_id: LifecycleEventId, row: CompletionUnknownRow, outcome: TableUOutcome) -> Seq<
    LifecycleAction<u32>,
> {
    loss_logical_actions(outcome, work_tag_of(a)) + loss_reports(
        a.spec_desired().representatives,
        outcome,
        event_id,
        loss_kind(a) == LifecycleKind::DPMS && outcome.logical.poison_device,
    ) + (match outcome.recovery.new_incident {
        Some(seed) => seq![LifecycleAction::<u32>::AllocateRecoveryIncident { event_id, seed }],
        None => Seq::<LifecycleAction<u32>>::empty(),
    }) + seq![LifecycleAction::<u32>::CompletionLossTableU { row, outcome }, LifecycleAction::<u32>::CompletionBarriersRequired(outcome)]
}

/// A completion loss's immediate actions end with the row and its
/// barriers, preceded by any incident request, and never let physical work
/// advance.
proof fn lemma_loss_actions_shape(a: &LifecycleArbiter<u32, u32>, event_id: LifecycleEventId, row: CompletionUnknownRow, outcome: TableUOutcome)
    ensures
        ({
            let s = loss_actions(a, event_id, row, outcome);
            &&& s.len() >= 2
            &&& s[s.len() - 2] == LifecycleAction::<u32>::CompletionLossTableU { row, outcome }
            &&& s[s.len() - 1] == LifecycleAction::<u32>::CompletionBarriersRequired(outcome)
            &&& outcome.recovery.new_incident matches Some(seed) ==> s.len() >= 3 && s[s.len() - 3]
                == LifecycleAction::<u32>::AllocateRecoveryIncident { event_id, seed }
            &&& no_advance(s)
        }),
{
    reveal(loss_actions);
    reveal(loss_reports);
    let s = loss_actions(a, event_id, row, outcome);
    let reps = a.spec_desired().representatives;
    let dp = loss_kind(a) == LifecycleKind::DPMS && outcome.logical.poison_device;
    let r1 = disposition_update(reps, outcome.recovery.representative_disposition);
    let r2 = disposition_update(r1, outcome.recovery.event_disposition);
    let logic = loss_logical_actions(outcome, work_tag_of(a));
    let reports = loss_reports(reps, outcome, event_id, dp);
    let alloc = match outcome.recovery.new_incident {
        Some(seed) => seq![LifecycleAction::<u32>::AllocateRecoveryIncident { event_id, seed }],
        None => Seq::<LifecycleAction<u32>>::empty(),
    };
    let tail = seq![LifecycleAction::<u32>::CompletionLossTableU { row, outcome }, LifecycleAction::<u32>::CompletionBarriersRequired(outcome)];
    assert(s == logic + reports + alloc + tail);
    assert(no_advance(logic));
    assert(no_advance(reports)) by {
        let x = disposition_report(reps, outcome.recovery.representative_disposition);
        let y = loss_event_report(r1, outcome, event_id);
        let z = if dp { disposition_report(r2, dpms_readiness_deferral(r2)) } else { Seq::<LifecycleAction<u32>>::empty() };
        assert(reports == x + y + z);
        assert forall|k: int| 0 <= k < reports.len() implies !(#[trigger] reports[k] is PhysicalAdvanceAllowed) by {
            if k < x.len() {
                assert(reports[k] == x[k]);
            } else if k < x.len() + y.len() {
                assert(reports[k] == y[k - x.len()]);
            } else {
                assert(reports[k] == z[k - x.len() - y.len()]);
            }
        }
    }
    assert forall|k: int| 0 <= k < s.len() implies !(#[trigger] s[k] is PhysicalAdvanceAllowed) by {
        if k < logic.len() {
            assert(s[k] == logic[k]);
        } else if k < logic.len() + reports.len() {
            assert(s[k] == reports[k - logic.len()]);
        } else if k < logic.len() + reports.len() + alloc.len() {
            assert(s[k] == alloc[k - logic.len() - reports.len()]);
        } else {
            assert(s[k] == tail[k - logic.len() - reports.len() - alloc.len()]);
        }
    }
}

/// The representatives after a completion loss: the incident's
/// representative and event dispositions recorded in turn, then, when a
/// DPMS transition's loss poisons the device, the DPMS representative
/// deferred until readiness returns.
pub open spec fn loss_reps(reps: Seq<Representative>, outcome: TableUOutcome, dpms_poisoned: bool) -> Seq<Representative> {
    let r1 = disposition_update(reps, outcome.recovery.representative_disposition);
    let r2 = disposition_update(r1, outcome.recovery.event_disposition);
    if dpms_poisoned {
        disposition_update(r2, dpms_readiness_deferral(r2))
    } else {
        r2
    }
}

/// A deferred representative whose prerequisite has since been met, in a
/// desired snapshot and device state.
pub open spec fn runnable_in(d: DesiredView, state: DeviceLifecycleState, rep: Representative) -> bool {
    match rep.disposition {
        Some(Disposition::Deferred(Prerequisite::SeatReleased)) => d.seat_target == Some(SeatTarget::Owned),
        Some(Disposition::Deferred(Prerequisite::DeviceAbsent)) => d.device_presence == Some(true),
        Some(Disposition::Deferred(Prerequisite::TopologyLatched(generation))) => match d.discovery_epoch {
            Some(current) => current != generation,
            None => false,
        },
        Some(Disposition::Deferred(Prerequisite::ReadinessClosed)) => state == DeviceLifecycleState::Ready,
        _ => false,
    }
}

/// A deferred representative whose prerequisite has since been met.
pub open spec fn deferred_runnable(a: &LifecycleArbiter<u32, u32>, rep: Representative) -> bool {
    runnable_in(a.spec_desired(), a.spec_state(), rep)
}

/// What keeps a transition of `kind` from starting, in a desired snapshot,
/// device state and topology latch.
pub open spec fn prerequisite_in(d: DesiredView, state: DeviceLifecycleState, latch: Option<u64>, kind: LifecycleKind) -> Option<Prerequisite> {
    if kind == LifecycleKind::DeviceAddedOrReplaced {
        if d.seat_target != Some(SeatTarget::Owned) {
            Some(Prerequisite::SeatReleased)
        } else {
            None
        }
    } else if kind == LifecycleKind::VTAcquire {
        if d.device_presence != Some(true) {
            Some(Prerequisite::DeviceAbsent)
        } else {
            None
        }
    } else if kind == LifecycleKind::DPMS {
        if state != DeviceLifecycleState::Ready {
            Some(Prerequisite::ReadinessClosed)
        } else if d.seat_target == Some(SeatTarget::Released) {
            Some(Prerequisite::SeatReleased)
        } else {
            match latch {
                Some(generation) => match d.discovery_epoch {
                    Some(current) => if current == generation {
                        Some(Prerequisite::TopologyLatched(current))
                    } else {
                        None
                    },
                    None => Some(Prerequisite::TopologyLatched(generation)),
                },
                None => None,
            }
        }
    } else {
        None
    }
}

/// What still keeps a transition of `kind` from starting now.
pub open spec fn start_prerequisite(a: &LifecycleArbiter<u32, u32>, kind: LifecycleKind) -> Option<Prerequisite> {
    prerequisite_in(a.spec_desired(), a.spec_state(), a.spec_topology_latch(), kind)
}

/// The representatives convergence considers: unsettled ones and deferred
/// ones whose prerequisite has been met, in ledger order.
pub open spec fn converge_candidates(d: DesiredView, state: DeviceLifecycleState, reps: Seq<Representative>) -> Seq<Representative>
    decreases reps.len(),
{
    if reps.len() == 0 {
        reps
    } else if reps.last().disposition is None || runnable_in(d, state, reps.last()) {
        converge_candidates(d, state, reps.drop_last()).push(reps.last())
    } else {
        converge_candidates(d, state, reps.drop_last())
    }
}

/// The deferral convergence records for a candidate a prerequisite still
/// blocks, unless it already waits on that prerequisite.
pub open spec fn deferral(d: DesiredView, state: DeviceLifecycleState, latch: Option<u64>, rep: Representative) -> Option<
    (LifecycleEventId, Disposition),
> {
    match prerequisite_in(d, state, latch, rep.kind) {
        Some(p) => if rep.disposition == Some(Disposition::Deferred(p)) {
            None
        } else {
            Some((rep.event_id, Disposition::Deferred(p)))
        },
        None => None,
    }
}

/// The representatives after convergence defers each blocked candidate in turn.
pub open spec fn deferral_reps(
    d: DesiredView,
    state: DeviceLifecycleState,
    latch: Option<u64>,
    cands: Seq<Representative>,
    reps: Seq<Representative>,
) -> Seq<Representative>
    decreases cands.len(),
{
    if cands.len() == 0 {
        reps
    } else {
        disposition_update(deferral_reps(d, state, latch, cands.drop_last(), reps), deferral(d, state, latch, cands.last()))
    }
}

/// The reports of those deferrals, in turn.
pub open spec fn deferral_reports(
    d: DesiredView,
    state: DeviceLifecycleState,
    latch: Option<u64>,
    cands: Seq<Representative>,
    reps: Seq<Representative>,
) -> Seq<LifecycleAction<u32>>
    decreases cands.len(),
{
    if cands.len() == 0 {
        Seq::<LifecycleAction<u32>>::empty()
    } else {
        deferral_reports(d, state, latch, cands.drop_last(), reps) + disposition_report(
            deferral_reps(d, state, latch, cands.drop_last(), reps),
            deferral(d, state, latch, cands.last()),
        )
    }
}

/// Some representative could start now, in a snapshot, state and latch.
pub open spec fn has_eligible_in(d: DesiredView, state: DeviceLifecycleState, latch: Option<u64>) -> bool {
    exists|i: int|
        0 <= i < d.representatives.len() && (d.representatives[i].disposition is None || runnable_in(d, state, #[trigger] d.representatives[i]))
            && prerequisite_in(d, state, latch, d.representatives[i].kind) is None
}

/// A representative convergence may start now: unsettled, or deferred on
/// a prerequisite that has been met, with nothing else in its way.
pub open spec fn eligible(a: &LifecycleArbiter<u32, u32>, rep: Representative) -> bool {
    &&& (rep.disposition is None || deferred_runnable(a, rep))
    &&& start_prerequisite(a, rep.kind) is None
}

/// Convergence may start work: the device is neither poisoned, removed
/// nor stalled in shutdown, and a ready device has admission open.
pub open spec fn convergence_open(a: &LifecycleArbiter<u32, u32>) -> bool {
    &&& !(!a.spec_admission_open() && a.spec_state() == DeviceLifecycleState::Ready)
    &&& a.spec_state() != DeviceLifecycleState::Poisoned
    &&& a.spec_state() != DeviceLifecycleState::Removed
    &&& a.spec_state() != DeviceLifecycleState::ShutdownExecutorStalled
}

/// Some representative is eligible to start now.
pub open spec fn has_eligible(a: &LifecycleArbiter<u32, u32>) -> bool {
    exists|i: int| 0 <= i < a.spec_desired().representatives.len() && eligible(a, #[trigger] a.spec_desired().representatives[i])
}

/// Law of convergence: a transition it starts is of an eligible
/// representative's kind, and no eligible representative outranks it.
pub open spec fn converges_to_highest(a: &LifecycleArbiter<u32, u32>, b: &LifecycleArbiter<u32, u32>) -> bool {
    a.spec_transition() is None && b.spec_transition() is Some ==> {
        &&& exists|i: int| 0 <= i < a.spec_desired().representatives.len() && eligible(a, #[trigger] a.spec_desired().representatives[i])
            && a.spec_desired().representatives[i].kind == b.spec_transition()->0.spec_kind()
        &&& forall|i: int| 0 <= i < a.spec_desired().representatives.len() && eligible(a, #[trigger] a.spec_desired().representatives[i])
            ==> kind_precedence(b.spec_transition()->0.spec_kind()) <= kind_precedence(a.spec_desired().representatives[i].kind)
    }
}

/// The candidate convergence elects among those nothing blocks: the first
/// of the highest precedence, in candidate order.
pub open spec fn converge_winner(
    d: DesiredView,
    state: DeviceLifecycleState,
    latch: Option<u64>,
    cands: Seq<Representative>,
) -> Option<Representative>
    decreases cands.len(),
{
    if cands.len() == 0 {
        None
    } else {
        let best = converge_winner(d, state, latch, cands.drop_last());
        let c = cands.last();
        if prerequisite_in(d, state, latch, c.kind) is Some {
            best
        } else {
            match best {
                Some(b) => if kind_precedence(c.kind) < kind_precedence(b.kind) {
                    Some(c)
                } else {
                    Some(b)
                },
                None => Some(c),
            }
        }
    }
}

/// `w` is a representative that could start now, in a snapshot, state and
/// latch, and no other representative that could start outranks it.
pub open spec fn highest_eligible_in(d: DesiredView, state: DeviceLifecycleState, latch: Option<u64>, w: Representative) -> bool {
    &&& d.representatives.contains(w)
    &&& w.disposition is None || runnable_in(d, state, w)
    &&& prerequisite_in(d, state, latch, w.kind) is None
    &&& forall|i: int|
        0 <= i < d.representatives.len() && (d.representatives[i].disposition is None || runnable_in(d, state, #[trigger] d.representatives[i]))
            && prerequisite_in(d, state, latch, d.representatives[i].kind) is None ==> kind_precedence(w.kind) <= kind_precedence(
            d.representatives[i].kind,
        )
}

/// The recovery winner a transition of `kind` presents to table F, from the
/// desired snapshot's DPMS level and the device state.
pub open spec fn recovery_winner_in(d: DesiredView, state: DeviceLifecycleState, kind: LifecycleKind) -> RecoveryWinner {
    RecoveryWinner {
        kind,
        dpms_target: level_target(d.protocol_dpms_level)->0,
        recovery_required: state is Poisoned || state is RecoveryFailed || state is Recovering || is_boundary_kind(kind),
    }
}

/// The table F outcome a transition started for `w` meets, when an
/// incident is present.
pub open spec fn winner_table_f(
    d: DesiredView,
    state: DeviceLifecycleState,
    recovery: Option<RecoveryIncident>,
    w: Representative,
) -> Option<TableFOutcome> {
    match recovery {
        Some(i) => Some(table_f_outcome(recovery_winner_in(d, state, w.kind), i, w.event_id)),
        None => None,
    }
}

/// The desired snapshot after such an outcome's fate.
pub open spec fn winner_desired(d: DesiredView, recovery: Option<RecoveryIncident>, o: Option<TableFOutcome>) -> DesiredView {
    match o {
        Some(o) => fate_desired(d, recovery, o.fate),
        None => d,
    }
}

/// The incident after such an outcome's fate.
pub open spec fn winner_recovery(recovery: Option<RecoveryIncident>, o: Option<TableFOutcome>) -> Option<RecoveryIncident> {
    match o {
        Some(o) => o.fate.current_incident,
        None => recovery,
    }
}

/// What electing `w` reports after the deferrals: the started transition's
/// safety requests (or the exhaustion of ids), the table F fate and outcome
/// with a request for a fresh incident when the fate seeds one, then the
/// transition's logical obligations.
pub open spec fn converge_tail(
    incarnation: u32,
    epoch: LifecycleEpochId,
    started: Option<LifecycleTransition>,
    d: DesiredView,
    w: Representative,
    o: Option<TableFOutcome>,
) -> Seq<LifecycleAction<u32>> {
    (match started {
        Some(t) => safety_requests(
            TransitionTag { incarnation, lifecycle_epoch: epoch, transition: t.spec_id() },
            CommitProgress::NotSubmitted,
        ),
        None => seq![LifecycleAction::<u32>::TransitionIdExhausted],
    }) + (match o {
        Some(o) => fate_actions(d, o.fate) + seq![LifecycleAction::<u32>::RecoveryTableF(o)] + match o.fate.new_incident {
            Some(seed) => seq![LifecycleAction::<u32>::AllocateRecoveryIncident { event_id: w.event_id, seed }],
            None => Seq::<LifecycleAction<u32>>::empty(),
        },
        None => Seq::<LifecycleAction<u32>>::empty(),
    }) + (match started {
        Some(t) => logical_obligations(w.kind, WorkTag { incarnation, lifecycle_epoch: epoch, transition: Some(t.spec_id()) }),
        None => Seq::<LifecycleAction<u32>>::empty(),
    })
}

/// Precedence elects between a running transition and the next event:
/// after one event left a transition running, a second event that does not
/// outrank it leaves that same transition running, and one that outranks
/// it, is not settled by its projection and meets its prerequisites
/// replaces it by a fresh transition of its own kind (while ids remain,
/// and unless a poisoned device defers its DPMS change).
pub proof fn lemma_every_pair_elects_by_precedence(
    a: &LifecycleArbiter<u32, u32>,
    b: &LifecycleArbiter<u32, u32>,
    c: &LifecycleArbiter<u32, u32>,
    first: LifecycleEventId,
    first_intent: DesiredIntent,
    r1: Seq<LifecycleAction<u32>>,
    second: LifecycleEventId,
    second_intent: DesiredIntent,
    r2: Seq<LifecycleAction<u32>>,
)
    requires
        applied(a, b, ArbiterInput::LifecycleEvent { event_id: first, intent: first_intent }, r1),
        applied(b, c, ArbiterInput::LifecycleEvent { event_id: second, intent: second_intent }, r2),
        b.spec_transition() is Some,
    ensures
        ({
            let t = b.spec_transition()->0;
            let kind = super::desired::intent_kind(second_intent);
            let state = if kind == LifecycleKind::Shutdown {
                DeviceLifecycleState::Quiescing
            } else {
                b.spec_state()
            };
            &&& !(kind_precedence(kind) < kind_precedence(t.spec_kind())) ==> (c.spec_transition() matches Some(n)
                && n.spec_kind() == t.spec_kind() && n.spec_id() == t.spec_id())
            &&& kind_precedence(kind) < kind_precedence(t.spec_kind()) && super::desired::projection_disposition(
                b.spec_desired(),
                second_intent,
            ) is None && b.spec_next_transition_id() is Some && !(b.spec_state() == DeviceLifecycleState::Poisoned && kind
                == LifecycleKind::DPMS) && event_prerequisite(
                super::desired::projection_state(b.spec_desired(), second, second_intent),
                state,
                b.spec_topology_latch(),
                kind,
            ) is None ==> (c.spec_transition() matches Some(n) && n.spec_kind() == kind && n.spec_id() != t.spec_id())
        }),
{
    assert(elects_by_precedence(b, c, second, second_intent));
}

/// A recovery makes its one attempt: on the current tag, once physical
/// work may advance and with the incident active and its budget available,
/// an attempt started after the reap puts the device in recovery under that
/// incident, and the attempt's resolution on the same tag then makes the
/// device ready with the incident gone, or marks the recovery failed with
/// admission closed and the budget spent.
pub proof fn lemma_recovery_attempt_resolves(
    a: &LifecycleArbiter<u32, u32>,
    b: &LifecycleArbiter<u32, u32>,
    c: &LifecycleArbiter<u32, u32>,
    tag: TransitionTag<u32>,
    r1: Seq<LifecycleAction<u32>>,
    outcome: RecoveryAttemptOutcome,
    r2: Seq<LifecycleAction<u32>>,
)
    requires
        applied(
            a,
            b,
            ArbiterInput::RecoveryAttempt { tag, outcome: RecoveryAttemptOutcome::Started(RecoveryAttemptTrigger::AfterReap) },
            r1,
        ),
        applied(b, c, ArbiterInput::RecoveryAttempt { tag, outcome }, r2),
        is_current_tag(a, tag),
        a.spec_transition()->0.spec_phase() == LifecycleTransitionPhase::PhysicalReady,
        incident_ready(a.spec_recovery()),
        outcome == RecoveryAttemptOutcome::Qualified || outcome == RecoveryAttemptOutcome::FailedOrUnknown,
    ensures
        r1.len() == 0,
        b.spec_state() == DeviceLifecycleState::Recovering(a.spec_recovery()->0.spec_id()),
        outcome == RecoveryAttemptOutcome::Qualified ==> c.spec_state() == DeviceLifecycleState::Ready && c.spec_recovery() is None,
        outcome == RecoveryAttemptOutcome::FailedOrUnknown ==> {
            &&& c.spec_state() == DeviceLifecycleState::RecoveryFailed
            &&& !c.spec_admission_open()
            &&& c.spec_recovery() matches Some(j) && j.spec_id() == a.spec_recovery()->0.spec_id() && j.spec_state()
                == RecoveryIncidentState::RecoveryFailed && j.spec_budget() == RecoveryAttemptBudget::Spent
        },
{
    let inc = a.spec_recovery()->0;
    inc.lemma_parts();
    let moved = inc.moved(RecoveryIncidentState::Attempting, RecoveryAttemptBudget::Spent);
    moved.lemma_parts();
    assert(moved.spec_id() == inc.spec_id() && moved.spec_state() == RecoveryIncidentState::Attempting);
    assert(is_current_tag(b, tag));
    if outcome == RecoveryAttemptOutcome::FailedOrUnknown {
        let failed = moved.moved(RecoveryIncidentState::RecoveryFailed, RecoveryAttemptBudget::Spent);
        failed.lemma_parts();
    }
}

/// The work tag of the arbiter's current steady state or transition.
pub open spec fn work_tag_of(a: &LifecycleArbiter<u32, u32>) -> WorkTag<u32> {
    WorkTag {
        incarnation: a.spec_incarnation(),
        lifecycle_epoch: a.spec_epoch(),
        transition: match a.spec_transition() {
            Some(t) => Some(t.spec_id()),
            None => None,
        },
    }
}

/// An accepted event first closes admission under the tag it found; an
/// event that outranks a transition whose commit was already submitted
/// waits for that commit's terminal state and never cancels it as if it
/// had not been submitted. An outranking event advances the epoch next,
/// before the outranked transition is cancelled or awaited and before any
/// representative is invalidated.
pub open spec fn event_handled(a: &LifecycleArbiter<u32, u32>, intent: DesiredIntent, r: Seq<LifecycleAction<u32>>) -> bool {
    let kind = super::desired::intent_kind(intent);
    &&& r.len() > 0
    &&& r[0] == LifecycleAction::<u32>::CloseAdmission(work_tag_of(a))
    &&& a.spec_transition() is Some && kind_precedence(kind) < kind_precedence(a.spec_transition()->0.spec_kind())
        && a.spec_transition()->0.spec_commit_progress() != CommitProgress::NotSubmitted ==> {
        &&& r.contains(
            LifecycleAction::<u32>::AwaitTerminalState(
                TransitionTag { incarnation: a.spec_incarnation(), lifecycle_epoch: a.spec_epoch(), transition: a.spec_transition()->0.spec_id() },
            ),
        )
        &&& forall|k: int| 0 <= k < r.len() ==> (#[trigger] r[k] matches LifecycleAction::CancelPreSubmitWork(t) ==> t.transition
            != a.spec_transition()->0.spec_id())
    }
    &&& a.spec_transition() is Some && kind_precedence(kind) < kind_precedence(a.spec_transition()->0.spec_kind()) ==> {
        let old_tag = TransitionTag {
            incarnation: a.spec_incarnation(),
            lifecycle_epoch: a.spec_epoch(),
            transition: a.spec_transition()->0.spec_id(),
        };
        &&& r.len() >= 3
        &&& a.spec_epoch()@ < u64::MAX ==> (r[1] matches LifecycleAction::EpochAdvanced(e) && e@ == a.spec_epoch()@ + 1)
        &&& a.spec_epoch()@ == u64::MAX ==> r[1] == LifecycleAction::<u32>::EpochExhausted
        &&& r[2] == if a.spec_transition()->0.spec_commit_progress() == CommitProgress::NotSubmitted {
            LifecycleAction::<u32>::CancelPreSubmitWork(old_tag)
        } else {
            LifecycleAction::<u32>::AwaitTerminalState(old_tag)
        }
    }
}

/// The device state an acknowledged outcome leaves behind for the
/// transition it ends.
pub open spec fn outcome_state(kind: LifecycleKind, outcome: LifecycleCommitOutcome) -> DeviceLifecycleState {
    match outcome {
        LifecycleCommitOutcome::Completed { .. } => if kind == LifecycleKind::Shutdown || kind == LifecycleKind::VTRelease {
            DeviceLifecycleState::Quiescing
        } else if kind == LifecycleKind::DeviceRemoved {
            DeviceLifecycleState::Removed
        } else {
            DeviceLifecycleState::Ready
        },
        LifecycleCommitOutcome::Rejected { topology_latched_generation } => if topology_latched_generation is Some {
            DeviceLifecycleState::Ready
        } else {
            DeviceLifecycleState::Quiescing
        },
    }
}

/// A deferral of the ended transition's field representative on `p`.
pub open spec fn rep_deferral(reps: Seq<Representative>, t: LifecycleTransition, p: Prerequisite) -> Option<(LifecycleEventId, Disposition)> {
    match super::desired::rep_for(reps, super::desired::kind_field(t.spec_kind())) {
        Some(q) => Some((q.event_id, Disposition::Deferred(p))),
        None => None,
    }
}

/// The disposition an outcome records for the ended transition's
/// representative: applied when completed (a DPMS transition only once its
/// projections are retired, else deferred until readiness returns);
/// deferred on the latched generation, or on readiness, when rejected.
pub open spec fn outcome_change(reps: Seq<Representative>, t: LifecycleTransition, outcome: LifecycleCommitOutcome) -> Option<
    (LifecycleEventId, Disposition),
> {
    match outcome {
        LifecycleCommitOutcome::Completed { dpms_projections_retired } => if t.spec_kind() != LifecycleKind::DPMS
            || dpms_projections_retired {
            match applied_position(reps, t) {
                Some(i) => Some((reps[i].event_id, Disposition::Applied(t.spec_id()))),
                None => None,
            }
        } else {
            rep_deferral(reps, t, Prerequisite::ReadinessClosed)
        },
        LifecycleCommitOutcome::Rejected { topology_latched_generation } => match topology_latched_generation {
            Some(g) => rep_deferral(reps, t, Prerequisite::TopologyLatched(g)),
            None => rep_deferral(reps, t, Prerequisite::ReadinessClosed),
        },
    }
}

/// The topology latch an outcome leaves: a rejection latches its generation.
pub open spec fn outcome_latch(latch: Option<u64>, outcome: LifecycleCommitOutcome) -> Option<u64> {
    match outcome {
        LifecycleCommitOutcome::Rejected { topology_latched_generation: Some(g) } => Some(g),
        _ => latch,
    }
}

/// An outcome for the current transition ends it: the device takes the
/// outcome's state, a latched topology generation is recorded, the
/// representative's disposition is recorded and reported first, and when
/// no other transition starts, a ready device reopens admission last.
/// Convergence follows: when nothing is eligible afterwards (or the device
/// is removed) it only defers the candidates still blocked; otherwise it
/// defers those, elects the highest-precedence eligible representative and
/// starts its transition under the next id, with that transition's safety
/// requests, table F fate and logical obligations.
pub open spec fn outcome_applied(
    a: &LifecycleArbiter<u32, u32>,
    b: &LifecycleArbiter<u32, u32>,
    outcome: LifecycleCommitOutcome,
    r: Seq<LifecycleAction<u32>>,
) -> bool {
    let kind = a.spec_transition()->0.spec_kind();
    &&& b.spec_transition() != a.spec_transition()
    &&& b.spec_state() == outcome_state(kind, outcome)
    &&& outcome matches LifecycleCommitOutcome::Rejected { topology_latched_generation: Some(g) } ==> b.spec_topology_latch() == Some(g)
    &&& b.spec_transition() is None && b.spec_state() == DeviceLifecycleState::Ready ==> r.len() > 0 && r.last()
        == LifecycleAction::<u32>::ReopenAdmission(work_tag_of(b))
    &&& {
        let reps = a.spec_desired().representatives;
        let change = outcome_change(reps, a.spec_transition()->0, outcome);
        let report = disposition_report(reps, change);
        let st = outcome_state(kind, outcome);
        let la = outcome_latch(a.spec_topology_latch(), outcome);
        let m = DesiredView {
            representatives: disposition_update(reps, change),
            recovery_incident: a.spec_desired().recovery_incident,
            ..b.spec_desired()
        };
        let cands = converge_candidates(m, st, m.representatives);
        &&& r.len() >= report.len() && r.subrange(0, report.len() as int) == report
        &&& !has_eligible_in(m, st, la) || st == DeviceLifecycleState::Removed ==> {
            &&& b.spec_transition() is None
            &&& b.spec_recovery() == a.spec_recovery()
            &&& b.spec_desired().representatives == if st == DeviceLifecycleState::Removed {
                m.representatives
            } else {
                deferral_reps(m, st, la, cands, m.representatives)
            }
            &&& r == report + (if st == DeviceLifecycleState::Removed {
                Seq::<LifecycleAction<u32>>::empty()
            } else {
                deferral_reports(m, st, la, cands, m.representatives)
            }) + (if st == DeviceLifecycleState::Ready {
                seq![LifecycleAction::<u32>::ReopenAdmission(work_tag_of(b))]
            } else {
                Seq::<LifecycleAction<u32>>::empty()
            })
        }
        &&& has_eligible_in(m, st, la) && st != DeviceLifecycleState::Removed ==> {
            let w = converge_winner(m, st, la, cands)->0;
            let dm = DesiredView { representatives: deferral_reps(m, st, la, cands, m.representatives), ..m };
            let o = winner_table_f(m, st, a.spec_recovery(), w);
            &&& converge_winner(m, st, la, cands) is Some
            &&& highest_eligible_in(m, st, la, w)
            &&& b.spec_desired() == winner_desired(dm, a.spec_recovery(), o)
            &&& b.spec_recovery() == winner_recovery(a.spec_recovery(), o)
            &&& (a.spec_next_transition_id() is Some <==> b.spec_transition() is Some)
            &&& b.spec_transition() matches Some(t) ==> t.spec_kind() == w.kind && t.spec_id()@ == a.spec_next_transition_id()->0
                && t.spec_commit_progress() == CommitProgress::NotSubmitted && !b.spec_admission_open()
            &&& r == report + deferral_reports(m, st, la, cands, m.representatives) + converge_tail(
                a.spec_incarnation(),
                a.spec_epoch(),
                b.spec_transition(),
                dm,
                w,
                o,
            ) + (if b.spec_transition() is None && st == DeviceLifecycleState::Ready {
                seq![LifecycleAction::<u32>::ReopenAdmission(work_tag_of(b))]
            } else {
                Seq::<LifecycleAction<u32>>::empty()
            })
        }
    }
}

/// An outcome for the current transition id under an older epoch is
/// stale, and the transition forgets its commit: it may be resubmitted.
pub open spec fn stale_epoch_outcome_applied(
    a: &LifecycleArbiter<u32, u32>,
    b: &LifecycleArbiter<u32, u32>,
    tag: TransitionTag<u32>,
    r: Seq<LifecycleAction<u32>>,
) -> bool {
    &&& r.len() > 0
    &&& r[0] == LifecycleAction::<u32>::StaleResultIgnored { transition_id: Some(tag.transition) }
    &&& b.spec_transition() matches Some(t) && t.spec_id() == a.spec_transition()->0.spec_id() && t.spec_kind()
        == a.spec_transition()->0.spec_kind() && t.spec_commit_progress() == CommitProgress::NotSubmitted
    &&& b.spec_epoch() == a.spec_epoch()
    &&& b.spec_fd_fenced() == a.spec_fd_fenced()
    &&& b.spec_state() == a.spec_state()
    &&& b.spec_desired() == a.spec_desired()
}

/// A receipt for the current transition id is recorded on it, in any
/// epoch; physical work may advance once, when the last receipt is in with
/// none failed and no quarantine fence outstanding, and a failed receipt is
/// reported.
pub open spec fn receipt_applied(
    a: &LifecycleArbiter<u32, u32>,
    b: &LifecycleArbiter<u32, u32>,
    tag: TransitionTag<u32>,
    receipt: LifecycleReceipt,
    result: LifecycleReceiptResult,
    r: Seq<LifecycleAction<u32>>,
) -> bool {
    let t = a.spec_transition()->0;
    let acknowledged = if result == LifecycleReceiptResult::Succeeded {
        t.spec_acknowledged() | receipt_bit(receipt)
    } else {
        t.spec_acknowledged()
    };
    let failed = if result == LifecycleReceiptResult::Failed {
        t.spec_failed() | receipt_bit(receipt)
    } else {
        t.spec_failed()
    };
    &&& b.spec_transition() matches Some(u) && u.spec_id() == t.spec_id() && u.spec_kind() == t.spec_kind()
        && u.spec_commit_progress() == t.spec_commit_progress() && u.spec_acknowledged() == acknowledged && u.spec_failed() == failed
    &&& b.spec_epoch() == a.spec_epoch()
    &&& b.spec_fd_fenced() == a.spec_fd_fenced()
    &&& b.spec_state() == a.spec_state()
    &&& b.spec_desired() == a.spec_desired()
    &&& r == if b.spec_transition()->0.receipts_done() && !a.spec_fd_fenced() && t.spec_phase() != LifecycleTransitionPhase::PhysicalReady {
        seq![LifecycleAction::<u32>::PhysicalAdvanceAllowed(tag)]
    } else if !b.spec_transition()->0.receipts_done() && result == LifecycleReceiptResult::Failed {
        seq![LifecycleAction::<u32>::ReceiptFailed { transition_id: tag.transition, receipt }]
    } else {
        Seq::<LifecycleAction<u32>>::empty()
    }
}

/// Clearing the fd-family barrier for the current transition lifts the
/// fence and lets physical work advance at once when every receipt is in
/// with none failed.
pub open spec fn barrier_cleared_applied(
    a: &LifecycleArbiter<u32, u32>,
    b: &LifecycleArbiter<u32, u32>,
    tag: TransitionTag<u32>,
    r: Seq<LifecycleAction<u32>>,
) -> bool {
    let t = a.spec_transition()->0;
    &&& !b.spec_fd_fenced()
    &&& b.spec_transition() matches Some(u) && u.spec_id() == t.spec_id() && u.spec_kind() == t.spec_kind()
        && u.spec_commit_progress() == t.spec_commit_progress() && u.receipts_done() == t.receipts_done()
    &&& b.spec_epoch() == a.spec_epoch()
    &&& b.spec_state() == a.spec_state()
    &&& b.spec_desired() == a.spec_desired()
    &&& r == if t.receipts_done() {
        seq![LifecycleAction::<u32>::PhysicalAdvanceAllowed(tag)]
    } else {
        Seq::<LifecycleAction<u32>>::empty()
    }
}

/// The representatives after marking the ended transition's own
/// representative applied, when it still awaits its outcome.
pub open spec fn applied_update(reps: Seq<Representative>, t: LifecycleTransition) -> Seq<Representative> {
    match applied_position(reps, t) {
        Some(i) => reps.update(i, Representative { disposition: Some(Disposition::Applied(t.spec_id())), ..reps[i] }),
        None => reps,
    }
}

/// The report of that mark, when one was made.
pub open spec fn applied_report(reps: Seq<Representative>, t: LifecycleTransition) -> Seq<LifecycleAction<u32>> {
    match applied_position(reps, t) {
        Some(i) => seq![LifecycleAction::<u32>::DispositionChanged { event_id: reps[i].event_id, disposition: Disposition::Applied(t.spec_id()) }],
        None => Seq::<LifecycleAction<u32>>::empty(),
    }
}

/// A qualified attempt marks the transition's own representative applied
/// unless the incident's representative already took the recovery
/// transition's result.
pub open spec fn qualified_marks(t: LifecycleTransition, rd: Option<(LifecycleEventId, Disposition)>) -> bool {
    rd is None || t.spec_kind() != LifecycleKind::NormalRecovery
}

/// The desired snapshot a qualified attempt leaves before convergence: the
/// incident's representative recorded, the transition's own representative
/// marked applied, and the snapshot's incident forgotten once recovery has
/// settled.
pub open spec fn qualified_desired(d: DesiredView, t: LifecycleTransition, id: RecoveryId, rd: Option<(LifecycleEventId, Disposition)>) -> DesiredView {
    let r1 = disposition_update(d.representatives, rd);
    let r2 = if qualified_marks(t, rd) {
        applied_update(r1, t)
    } else {
        r1
    };
    DesiredView {
        representatives: r2,
        recovery_incident: if d.recovery_incident == Some(id) && super::desired::recovery_settled(r2) {
            None
        } else {
            d.recovery_incident
        },
        ..d
    }
}

/// What a qualified attempt reports before convergence.
pub open spec fn qualified_report(d: DesiredView, t: LifecycleTransition, rd: Option<(LifecycleEventId, Disposition)>) -> Seq<
    LifecycleAction<u32>,
> {
    disposition_report(d.representatives, rd) + if qualified_marks(t, rd) {
        applied_report(disposition_update(d.representatives, rd), t)
    } else {
        Seq::<LifecycleAction<u32>>::empty()
    }
}

/// The recovery attempt of the current transition: it starts only after a
/// reap, from a physically ready transition, with the incident active and
/// its one attempt still available, moving the device to recovering; a
/// qualified attempt ends the transition, records its representatives and
/// readies the device, which then converges exactly as after an outcome (a
/// ready device with no new transition reopens admission last); a failed or
/// unknown one ends it and leaves recovery failed with admission closed.
/// Outcomes for an attempt not in progress change nothing.
pub open spec fn recovery_attempt_applied(
    a: &LifecycleArbiter<u32, u32>,
    b: &LifecycleArbiter<u32, u32>,
    outcome: RecoveryAttemptOutcome,
    r: Seq<LifecycleAction<u32>>,
) -> bool {
    let t = a.spec_transition()->0;
    match outcome {
        RecoveryAttemptOutcome::Started(trigger) => {
            let starts = a.spec_recovery() matches Some(inc) && t.spec_phase() == LifecycleTransitionPhase::PhysicalReady
                && trigger == RecoveryAttemptTrigger::AfterReap && inc.spec_state() == RecoveryIncidentState::Active
                && inc.spec_budget() == RecoveryAttemptBudget::Available;
            &&& r.len() == 0
            &&& starts ==> b.spec_state() == DeviceLifecycleState::Recovering(a.spec_recovery()->0.spec_id())
                && b.spec_transition() == a.spec_transition() && b.spec_recovery() == Some(
                a.spec_recovery()->0.moved(RecoveryIncidentState::Attempting, RecoveryAttemptBudget::Spent),
            ) && b.spec_epoch() == a.spec_epoch() && b.spec_incarnation() == a.spec_incarnation() && b.spec_desired()
                == a.spec_desired()
            &&& !starts ==> *b == *a
        },
        _ => {
            let attempting = a.spec_recovery() matches Some(inc) && a.spec_state() == DeviceLifecycleState::Recovering(inc.spec_id())
                && inc.spec_state() == RecoveryIncidentState::Attempting;
            &&& !attempting ==> r.len() == 0 && *b == *a
            &&& attempting && outcome == RecoveryAttemptOutcome::Qualified ==> {
                let report = disposition_report(
                    a.spec_desired().representatives,
                    super::recovery::resolution_of(a.spec_recovery()->0, RecoveryResolution::Qualified(t.spec_id())).representative_disposition,
                );
                let res = super::recovery::resolution_of(a.spec_recovery()->0, RecoveryResolution::Qualified(t.spec_id()));
                let dq = qualified_desired(a.spec_desired(), t, res.id, res.representative_disposition);
                let pre = qualified_report(a.spec_desired(), t, res.representative_disposition);
                let st = DeviceLifecycleState::Ready;
                let la = a.spec_topology_latch();
                let cands = converge_candidates(dq, st, dq.representatives);
                &&& b.spec_state() == DeviceLifecycleState::Ready
                &&& b.spec_recovery() is None
                &&& b.spec_transition() != a.spec_transition()
                &&& r.len() >= report.len() && r.subrange(0, report.len() as int) == report
                &&& b.spec_transition() is None ==> r.len() > 0 && r.last() == LifecycleAction::<u32>::ReopenAdmission(work_tag_of(b))
                &&& !has_eligible_in(dq, st, la) ==> {
                    &&& b.spec_transition() is None
                    &&& b.spec_desired() == (DesiredView { representatives: deferral_reps(dq, st, la, cands, dq.representatives), ..dq })
                    &&& r == pre + deferral_reports(dq, st, la, cands, dq.representatives) + seq![
                        LifecycleAction::<u32>::ReopenAdmission(work_tag_of(b)),
                    ]
                }
                &&& has_eligible_in(dq, st, la) ==> {
                    let w = converge_winner(dq, st, la, cands)->0;
                    let dm = DesiredView { representatives: deferral_reps(dq, st, la, cands, dq.representatives), ..dq };
                    &&& converge_winner(dq, st, la, cands) is Some
                    &&& highest_eligible_in(dq, st, la, w)
                    &&& b.spec_desired() == dm
                    &&& (a.spec_next_transition_id() is Some <==> b.spec_transition() is Some)
                    &&& b.spec_transition() matches Some(n) ==> n.spec_kind() == w.kind && n.spec_id()@ == a.spec_next_transition_id()->0
                        && n.spec_commit_progress() == CommitProgress::NotSubmitted && !b.spec_admission_open()
                    &&& r == pre + deferral_reports(dq, st, la, cands, dq.representatives) + converge_tail(
                        a.spec_incarnation(),
                        a.spec_epoch(),
                        b.spec_transition(),
                        dm,
                        w,
                        None,
                    ) + (if b.spec_transition() is None {
                        seq![LifecycleAction::<u32>::ReopenAdmission(work_tag_of(b))]
                    } else {
                        Seq::<LifecycleAction<u32>>::empty()
                    })
                }
            }
            &&& attempting && outcome == RecoveryAttemptOutcome::FailedOrUnknown ==> {
                let resolution = super::recovery::resolution_of(a.spec_recovery()->0, RecoveryResolution::Failed);
                &&& b.spec_state() == DeviceLifecycleState::RecoveryFailed
                &&& b.spec_recovery() == resolution.incident
                &&& b.spec_recovery() == Some(
                    a.spec_recovery()->0.moved(RecoveryIncidentState::RecoveryFailed, RecoveryAttemptBudget::Spent),
                )
                &&& b.spec_transition() is None
                &&& !b.spec_admission_open()
                &&& b.spec_desired() == (DesiredView {
                    representatives: disposition_update(a.spec_desired().representatives, resolution.representative_disposition),
                    ..a.spec_desired()
                })
                &&& r == disposition_report(a.spec_desired().representatives, resolution.representative_disposition)
            }
        },
    }
}

/// `new` differs from `old` at most in representatives' dispositions and
/// in the recovery incident the snapshot records.
pub open spec fn desired_settled_from(old: DesiredView, new: DesiredView) -> bool {
    new == DesiredView { representatives: new.representatives, recovery_incident: new.recovery_incident, ..old }
}

/// The safety requests a newly started transition issues under its tag:
/// close admission, stop alias creation, cancel pre-submit work, await a
/// commit already submitted, terminalize presents and transfer quarantine.
pub open spec fn safety_requests(tag: TransitionTag<u32>, progress: CommitProgress) -> Seq<LifecycleAction<u32>> {
    seq![
        LifecycleAction::<u32>::CloseAdmission(WorkTag { incarnation: tag.incarnation, lifecycle_epoch: tag.lifecycle_epoch, transition: Some(tag.transition) }),
        LifecycleAction::<u32>::StopAliasCreation(tag),
        LifecycleAction::<u32>::CancelPreSubmitWork(tag),
    ] + (if progress == CommitProgress::NotSubmitted {
        Seq::<LifecycleAction<u32>>::empty()
    } else {
        seq![LifecycleAction::<u32>::AwaitTerminalState(tag)]
    }) + seq![LifecycleAction::<u32>::TerminalizePresents(tag), LifecycleAction::<u32>::TransferQuarantineToWinner(tag)]
}

/// The logical obligations a transition of `kind` takes on under `tag`:
/// releasing the seat, withdrawing outputs and terminalizing protocol work.
pub open spec fn logical_obligations(kind: LifecycleKind, tag: WorkTag<u32>) -> Seq<LifecycleAction<u32>> {
    if kind == LifecycleKind::VTRelease {
        seq![LifecycleAction::<u32>::ReleaseSeat(tag)]
    } else if kind == LifecycleKind::DeviceRemoved {
        seq![LifecycleAction::<u32>::WithdrawOutputs(tag), LifecycleAction::<u32>::TerminalizeProtocolWork(tag)]
    } else if kind == LifecycleKind::Shutdown {
        seq![
            LifecycleAction::<u32>::WithdrawOutputs(tag),
            LifecycleAction::<u32>::TerminalizeProtocolWork(tag),
            LifecycleAction::<u32>::ReleaseSeat(tag),
        ]
    } else {
        Seq::<LifecycleAction<u32>>::empty()
    }
}

/// The position of the representative an ended transition of `active`
/// marks applied: its field's representative, of the same kind and still
/// awaiting its outcome, found by its event id while that entry is pending.
pub open spec fn applied_position(reps: Seq<Representative>, active: LifecycleTransition) -> Option<int> {
    match super::desired::rep_for(reps, super::desired::kind_field(active.spec_kind())) {
        Some(p) => {
            let i = super::desired::find_event(reps, p.event_id, 0);
            if p.kind == active.spec_kind() && (p.disposition is None || p.disposition matches Some(Disposition::Deferred(_)))
                && i < reps.len() && super::desired::rep_is_pending(reps[i]) {
                Some(i)
            } else {
                None
            }
        },
        None => None,
    }
}

/// Starting a transition of `kind` from `a` gave `b` and appended to the
/// actions: with ids left, the next id names a fresh transition whose safety
/// requests are issued; otherwise nothing changes but the exhaustion report.
spec fn started(
    a: LifecycleArbiter<u32, u32>,
    b: LifecycleArbiter<u32, u32>,
    kind: LifecycleKind,
    before: Seq<LifecycleAction<u32>>,
    after: Seq<LifecycleAction<u32>>,
) -> bool {
    match a.next_transition_id {
        None => b == a && after == before.push(LifecycleAction::TransitionIdExhausted),
        Some(n) => {
            &&& b.transition matches Some(t) && t.id@ == n && t.kind == kind
            &&& !b.admission_open
            &&& after == before + safety_requests(
                TransitionTag { incarnation: a.incarnation, lifecycle_epoch: a.epoch, transition: b.transition->0.id },
                CommitProgress::NotSubmitted,
            )
        },
    }
}

/// The incident may still make its one recovery attempt.
spec fn recovery_ready(a: LifecycleArbiter<u32, u32>) -> bool {
    incident_ready(a.recovery)
}

/// An incident is present and may still make its one recovery attempt.
pub open spec fn incident_ready(r: Option<RecoveryIncident>) -> bool {
    r matches Some(i) && i.spec_state() == RecoveryIncidentState::Active && i.spec_budget() == RecoveryAttemptBudget::Available
}

/// The DPMS winner a poisoned device presents to table F.
spec fn dpms_winner(a: LifecycleArbiter<u32, u32>) -> RecoveryWinner {
    RecoveryWinner { kind: LifecycleKind::DPMS, dpms_target: level_target(a.desired@.protocol_dpms_level)->0, recovery_required: false }
}

/// A DPMS event on a poisoned device is deferred until readiness returns.
spec fn deferred_dpms(a: LifecycleArbiter<u32, u32>, e: LifecycleEventId) -> DesiredView {
    DesiredView {
        representatives: disposition_update(a.desired@.representatives, Some((e, Disposition::Deferred(Prerequisite::ReadinessClosed)))),
        ..a.desired@
    }
}

/// The desired snapshot after a poisoned DPMS event: deferred, then the
/// incident's table F fate applied.
spec fn poisoned_dpms_desired(a: LifecycleArbiter<u32, u32>, e: LifecycleEventId) -> DesiredView {
    match a.recovery {
        Some(i) => fate_desired(deferred_dpms(a, e), a.recovery, table_f_outcome(dpms_winner(a), i, e).fate),
        None => deferred_dpms(a, e),
    }
}

/// The incident after a poisoned DPMS event's table F fate.
spec fn poisoned_dpms_recovery(a: LifecycleArbiter<u32, u32>, e: LifecycleEventId) -> Option<RecoveryIncident> {
    match a.recovery {
        Some(i) => table_f_outcome(dpms_winner(a), i, e).fate.current_incident,
        None => None,
    }
}

/// What a poisoned DPMS event reports before any recovery transition: the
/// deferral, then the incident's table F fate and outcome.
spec fn poisoned_dpms_actions(a: LifecycleArbiter<u32, u32>, e: LifecycleEventId) -> Seq<LifecycleAction<u32>> {
    disposition_report(a.desired@.representatives, Some((e, Disposition::Deferred(Prerequisite::ReadinessClosed)))) + match a.recovery {
        Some(i) => {
            let o = table_f_outcome(dpms_winner(a), i, e);
            fate_actions(deferred_dpms(a, e), o.fate) + seq![LifecycleAction::<u32>::RecoveryTableF(o)]
        },
        None => Seq::<LifecycleAction<u32>>::empty(),
    }
}

/// Recording `d` for the pending representative of event `e`; others stay.
pub open spec fn disposition_update(reps: Seq<Representative>, change: Option<(LifecycleEventId, Disposition)>) -> Seq<Representative> {
    match change {
        Some((e, d)) => {
            let i = super::desired::find_event(reps, e, 0);
            if i < reps.len() && super::desired::rep_is_pending(reps[i]) {
                reps.update(i, Representative { disposition: Some(d), ..reps[i] })
            } else {
                reps
            }
        },
        None => reps,
    }
}

/// The report of a recorded disposition, when one was recorded.
pub open spec fn disposition_report(reps: Seq<Representative>, change: Option<(LifecycleEventId, Disposition)>) -> Seq<LifecycleAction<u32>> {
    match change {
        Some((e, d)) => {
            let i = super::desired::find_event(reps, e, 0);
            if i < reps.len() && super::desired::rep_is_pending(reps[i]) {
                seq![LifecycleAction::<u32>::DispositionChanged { event_id: e, disposition: d }]
            } else {
                Seq::<LifecycleAction<u32>>::empty()
            }
        },
        None => Seq::<LifecycleAction<u32>>::empty(),
    }
}

/// The actions a recovery fate reports: its representative's disposition,
/// then its event's.
pub open spec fn fate_actions(d: DesiredView, fate: RecoveryFate) -> Seq<LifecycleAction<u32>> {
    let r1 = disposition_update(d.representatives, fate.representative_disposition);
    disposition_report(d.representatives, fate.representative_disposition) + disposition_report(r1, fate.event_disposition)
}

/// The desired snapshot after a recovery fate: both dispositions recorded,
/// and the snapshot's recovery incident forgotten when the fate invalidates
/// it, the current incident's representative has settled terminally and
/// recovery is settled.
pub open spec fn fate_desired(d: DesiredView, current: Option<RecoveryIncident>, fate: RecoveryFate) -> DesiredView {
    let r2 = disposition_update(disposition_update(d.representatives, fate.representative_disposition), fate.event_disposition);
    let cleared = fate.invalidated_incident matches Some(inv) && current matches Some(inc) && inc.spec_representative() matches Some(rep)
        && super::desired::disposition_of(r2, rep) matches Some(x) && super::values::disposition_is_terminal(x)
        && d.recovery_incident == Some(inv.recovery_id) && super::desired::recovery_settled(r2);
    DesiredView { representatives: r2, recovery_incident: if cleared { None } else { d.recovery_incident }, ..d }
}

/// The recovery winner that a transition of `kind` presents to table F.
spec fn winner_for(a: LifecycleArbiter<u32, u32>, kind: LifecycleKind) -> RecoveryWinner {
    RecoveryWinner {
        kind,
        dpms_target: level_target(a.desired@.protocol_dpms_level)->0,
        recovery_required: a.state is Poisoned || a.state is RecoveryFailed || a.state is Recovering || is_boundary_kind(kind),
    }
}

/// What projecting an event reports: each representative it terminalized,
/// then the event's own disposition when it did not become the
/// representative.
pub open spec fn projection_report(d: DesiredView, e: LifecycleEventId, intent: DesiredIntent) -> Seq<LifecycleAction<u32>> {
    super::desired::projection_changes(d, e, intent).map_values(
        |c: super::desired::DispositionChange| LifecycleAction::<u32>::DispositionChanged { event_id: c.event_id, disposition: c.disposition },
    ) + match super::desired::projection_disposition(d, intent) {
        Some(x) => seq![LifecycleAction::<u32>::DispositionChanged { event_id: e, disposition: x }],
        None => Seq::<LifecycleAction<u32>>::empty(),
    }
}

/// The desired snapshot once an allocated incident is installed: a
/// completion-loss incident projects its normal-recovery intent.
pub open spec fn incident_desired(d: DesiredView, e: LifecycleEventId, incident: RecoveryIncident) -> DesiredView {
    match incident.spec_origin() {
        IncidentOrigin::CompletionLoss { .. } => super::desired::projection_state(
            d,
            e,
            DesiredIntent::NormalRecovery { recovery_id: incident.spec_id() },
        ),
        IncidentOrigin::Boundary => d,
    }
}

/// What installing an allocated incident reports before any transition.
pub open spec fn incident_report(d: DesiredView, e: LifecycleEventId, incident: RecoveryIncident) -> Seq<LifecycleAction<u32>> {
    match incident.spec_origin() {
        IncidentOrigin::CompletionLoss { .. } => projection_report(d, e, DesiredIntent::NormalRecovery { recovery_id: incident.spec_id() }),
        IncidentOrigin::Boundary => Seq::<LifecycleAction<u32>>::empty(),
    }
}

/// Nothing but the quarantine fence changed.
pub open spec fn only_fence_changed(a: &LifecycleArbiter<u32, u32>, b: &LifecycleArbiter<u32, u32>) -> bool {
    &&& a.spec_incarnation() == b.spec_incarnation()
    &&& a.spec_desired() == b.spec_desired()
    &&& a.spec_state() == b.spec_state()
    &&& a.spec_epoch() == b.spec_epoch()
    &&& a.spec_transition() == b.spec_transition()
    &&& a.spec_recovery() == b.spec_recovery()
}

/// The parts of an arbiter that decide whether physical work may advance.
pub open spec fn same_control(a: &LifecycleArbiter<u32, u32>, b: &LifecycleArbiter<u32, u32>) -> bool {
    &&& a.spec_incarnation() == b.spec_incarnation()
    &&& a.spec_epoch() == b.spec_epoch()
    &&& a.spec_transition() == b.spec_transition()
    &&& a.spec_fd_fenced() == b.spec_fd_fenced()
}

/// Installing the allocated incident of the pending event: its report
/// leads, the device state stays and the snapshot settles from the
/// incident's projection; with a transition running only that happens and
/// the incident becomes current; with none, the incident ready and an id
/// left, a normal recovery transition starts under that id.
pub open spec fn allocation_applied(
    a: &LifecycleArbiter<u32, u32>,
    b: &LifecycleArbiter<u32, u32>,
    event_id: LifecycleEventId,
    incident: RecoveryIncident,
    r: Seq<LifecycleAction<u32>>,
) -> bool {
    let d1 = incident_desired(a.spec_desired(), event_id, incident);
    let report = incident_report(a.spec_desired(), event_id, incident);
    &&& r.len() >= report.len() && r.subrange(0, report.len() as int) == report
    &&& b.spec_state() == a.spec_state()
    &&& desired_settled_from(d1, b.spec_desired())
    &&& a.spec_transition() is Some ==> {
        &&& r == report
        &&& b.spec_transition() == a.spec_transition()
        &&& b.spec_desired() == d1
        &&& b.spec_recovery() == Some(incident)
        &&& b.spec_pending_allocation_event() is None
    }
    &&& a.spec_transition() is None && incident_ready(Some(incident)) && a.spec_next_transition_id() is Some ==> {
        &&& b.spec_transition() matches Some(t) && t.spec_id()@ == a.spec_next_transition_id()->0 && t.spec_kind()
            == LifecycleKind::NormalRecovery
        &&& r == report + safety_requests(
            TransitionTag { incarnation: a.spec_incarnation(), lifecycle_epoch: a.spec_epoch(), transition: b.spec_transition()->0.spec_id() },
            CommitProgress::NotSubmitted,
        )
        &&& b.spec_desired() == d1
        &&& b.spec_recovery() == Some(incident)
        &&& b.spec_pending_allocation_event() is None
    }
}

/// What applying one input does to an arbiter: the contract of
/// `LifecycleArbiter::apply`, input by input.
pub open spec fn applied(
    a: &LifecycleArbiter<u32, u32>,
    b: &LifecycleArbiter<u32, u32>,
    input: ArbiterInput<u32>,
    r: Seq<LifecycleAction<u32>>,
) -> bool {
    &&& (epoch_advances(a, b))
    &&& (advances_sound(b, r))
    &&& (input matches ArbiterInput::LifecycleEvent { event_id, intent } ==> elects_by_precedence(a, b, event_id, intent))
    &&& (input matches ArbiterInput::LifecycleEvent { event_id, intent } ==> event_handled(a, intent, r))
    &&& (input matches ArbiterInput::LifecycleEvent { event_id, intent } ==> idle_event_handled(a, b, event_id, intent, r))
    &&& (input matches ArbiterInput::LifecycleEvent { event_id, intent } ==> desired_settled_from(
        super::desired::projection_state(a.spec_desired(), event_id, intent),
        b.spec_desired(),
    ))
    &&& (input matches ArbiterInput::CommitOutcome { tag, outcome } ==> !names_current_transition(a, tag) ==> {
        &&& r == seq![LifecycleAction::<u32>::StaleResultIgnored { transition_id: Some(tag.transition) }]
        &&& *b == *a
    })
    &&& (input matches ArbiterInput::CommitOutcome { tag, outcome } ==> is_current_tag(a, tag) ==> outcome_applied(
        a,
        b,
        outcome,
        r,
    ))
    &&& (input matches ArbiterInput::CommitOutcome { tag, outcome } ==> names_current_transition(a, tag) && !is_current_tag(
        a,
        tag,
    ) ==> stale_epoch_outcome_applied(a, b, tag, r))
    &&& (input matches ArbiterInput::Receipt { tag, receipt, result } ==> !names_current_transition(a, tag) ==> {
        &&& r == seq![LifecycleAction::<u32>::StaleReceiptIgnored { transition_id: tag.transition, receipt, result }]
        &&& only_fence_changed(a, b)
        &&& b.spec_fd_fenced() == (a.spec_fd_fenced() || result == LifecycleReceiptResult::Failed)
    })
    &&& (input matches ArbiterInput::Receipt { tag, receipt, result } ==> names_current_transition(a, tag) ==> receipt_applied(
        a,
        b,
        tag,
        receipt,
        result,
        r,
    ))
    &&& (input matches ArbiterInput::FdFamilyBarrierCleared { tag } ==> {
        &&& !is_current_tag(a, tag) ==> r == seq![LifecycleAction::<u32>::StaleResultIgnored { transition_id: Some(tag.transition) }]
            && *b == *a
        &&& is_current_tag(a, tag) ==> barrier_cleared_applied(a, b, tag, r)
    })
    &&& (input matches ArbiterInput::RecoveryAttempt { tag, outcome } ==> !is_current_tag(a, tag) ==> {
        &&& r == seq![LifecycleAction::<u32>::StaleResultIgnored { transition_id: Some(tag.transition) }]
        &&& *b == *a
    })
    &&& (input matches ArbiterInput::RecoveryAttempt { tag, outcome } ==> is_current_tag(a, tag) ==> recovery_attempt_applied(
        a,
        b,
        outcome,
        r,
    ))
    &&& (input matches ArbiterInput::CommitProgress { tag, progress } ==> commit_progress_applied(a, b, tag, progress, r))
    &&& (input matches ArbiterInput::CompletionUnknown { event_id, boundary_recovery_id } ==> completion_unknown_applied(
        a,
        b,
        event_id,
        boundary_recovery_id,
        r,
    ))
    &&& (input matches ArbiterInput::RecoveryIncidentAllocated { event_id, incident } ==> a.spec_pending_allocation_event() != Some(
        event_id,
    ) ==> r.len() == 0 && *b == *a)
    &&& (input matches ArbiterInput::RecoveryIncidentAllocated { event_id, incident } ==> a.spec_pending_allocation_event() == Some(
        event_id,
    ) ==> allocation_applied(a, b, event_id, incident, r))
    &&& (input matches ArbiterInput::OrdinaryReply { tag } ==> {
        &&& *b == *a
        &&& a.ordinary_reply_current(tag) ==> r == seq![LifecycleAction::<u32>::OrdinaryReplyCurrent]
        &&& !a.ordinary_reply_current(tag) ==> r == seq![LifecycleAction::<u32>::StaleResultIgnored {
            transition_id: if tag.transition is Some { tag.transition } else { a.spec_last_transition_id() },
        }]
    })
    &&& (input matches ArbiterInput::DeviceStateChanged(state) ==> b.spec_state() == state && desired_settled_from(
        a.spec_desired(),
        b.spec_desired(),
    ))
    &&& (input matches ArbiterInput::DeviceStateChanged(state) ==> state == DeviceLifecycleState::Ready && a.spec_transition() is None
        && b.spec_transition() is None ==> r.len() > 0 && r.last() == LifecycleAction::<u32>::ReopenAdmission(work_tag_of(b)))
    &&& (input matches ArbiterInput::DeviceStateChanged(state) ==> a.spec_transition() is Some ==> {
        &&& r.len() == 0
        &&& b.spec_state() == state
        &&& b.spec_transition() == a.spec_transition()
        &&& b.spec_desired() == a.spec_desired()
    })
    &&& (input matches ArbiterInput::SeatTargetObserved { target, epoch } ==> b.spec_desired().seat_target == Some(target)
        && b.spec_desired().seat_epoch == Some(epoch) && b.spec_state() == a.spec_state())
    &&& (input matches ArbiterInput::SeatTargetObserved { target, epoch } ==> a.spec_transition() is Some ==> {
        &&& r.len() == 0
        &&& b.spec_desired() == (DesiredView { seat_target: Some(target), seat_epoch: Some(epoch), ..a.spec_desired() })
        &&& b.spec_state() == a.spec_state()
        &&& b.spec_transition() == a.spec_transition()
    })
}

/// The epoch only moves forward and the incarnation never changes.
pub open spec fn epoch_advances(a: &LifecycleArbiter<u32, u32>, b: &LifecycleArbiter<u32, u32>) -> bool {
    &&& a.spec_incarnation() == b.spec_incarnation()
    &&& a.spec_epoch()@ <= b.spec_epoch()@
}

impl LifecycleArbiter<u32, u32> {
    pub closed spec fn spec_incarnation(&self) -> u32 {
        self.incarnation
    }

    pub closed spec fn spec_desired(&self) -> DesiredView {
        self.desired@
    }

    pub closed spec fn spec_state(&self) -> DeviceLifecycleState {
        self.state
    }

    pub closed spec fn spec_epoch(&self) -> LifecycleEpochId {
        self.epoch
    }

    pub closed spec fn spec_transition(&self) -> Option<LifecycleTransition> {
        self.transition
    }

    pub closed spec fn spec_recovery(&self) -> Option<RecoveryIncident> {
        self.recovery
    }

    pub closed spec fn spec_admission_open(&self) -> bool {
        self.admission_open
    }

    pub closed spec fn spec_fd_fenced(&self) -> bool {
        self.fd_family_fenced
    }

    pub closed spec fn spec_topology_latch(&self) -> Option<u64> {
        self.topology_latch
    }

    /// The most recent transition id this arbiter handed out.
    pub closed spec fn spec_last_transition_id(&self) -> Option<LifecycleTransitionId> {
        self.last_transition_id
    }

    /// An ordinary reply belongs to the current steady state: this
    /// incarnation and epoch, no transition then or now, admission open and
    /// the device ready.
    pub open spec fn ordinary_reply_current(&self, tag: WorkTag<u32>) -> bool {
        tag.incarnation == self.spec_incarnation() && tag.lifecycle_epoch == self.spec_epoch() && tag.transition is None
            && self.spec_transition() is None && self.spec_admission_open() && self.spec_state() == DeviceLifecycleState::Ready
    }

    /// The event whose recovery incident is awaiting allocation.
    pub closed spec fn spec_pending_allocation_event(&self) -> Option<LifecycleEventId> {
        match self.pending_recovery_allocation {
            Some((event_id, _)) => Some(event_id),
            None => None,
        }
    }

    pub closed spec fn spec_next_transition_id(&self) -> Option<u64> {
        self.next_transition_id
    }

    /// The least id a transition started from now on can carry; past every
    /// id once the space is exhausted.
    pub closed spec fn next_floor(&self) -> int {
        match self.next_transition_id {
            Some(n) => n as int,
            None => u64::MAX + 1,
        }
    }

    /// The projected DPMS level is one of the four X11 levels, and the
    /// current transition's id was allocated before the next free one.
    pub closed spec fn wf(&self) -> bool {
        &&& self.desired@.protocol_dpms_level <= 3
        &&& (self.transition matches Some(t) ==> (self.next_transition_id matches Some(n) ==> t.id@ < n))
    }

    pub fn new(incarnation: u32) -> (r: Self)
        ensures
            r.wf(),
            r.spec_incarnation() == incarnation,
            r.spec_desired() == super::desired::initial_desired(),
            r.spec_state() == DeviceLifecycleState::Ready,
            r.spec_epoch()@ == 1,
            r.spec_transition() is None,
            r.spec_recovery() is None,
            r.spec_admission_open(),
            !r.spec_fd_fenced(),
    {
        Self {
            incarnation,
            desired: LifecycleDesired::default(),
            state: DeviceLifecycleState::Ready,
            epoch: LifecycleEpochId::first(),
            transition: None,
            next_transition_id: Some(1),
            last_transition_id: None,
            recovery: None,
            admission_open: true,
            coalesced_epoch_bumped: false,
            topology_latch: None,
            pending_recovery_allocation: None,
            fd_family_fenced: false,
        }
    }

    pub fn desired(&self) -> (r: &LifecycleDesired<u32>)
        ensures
            r@ == self.spec_desired(),
    {
        &self.desired
    }

    pub fn state(&self) -> (r: DeviceLifecycleState)
        ensures
            r == self.spec_state(),
    {
        self.state
    }

    pub fn epoch(&self) -> (r: LifecycleEpochId)
        ensures
            r == self.spec_epoch(),
    {
        self.epoch
    }

    pub fn transition(&self) -> (r: Option<LifecycleTransition>)
        ensures
            r == self.spec_transition(),
    {
        self.transition
    }

    /// Tag a current transition for the driver and its acknowledged inputs.
    pub fn transition_tag(&self) -> (r: Option<TransitionTag<u32>>)
        ensures
            r == (match self.spec_transition() {
                Some(t) => Some(TransitionTag { incarnation: self.spec_incarnation(), lifecycle_epoch: self.spec_epoch(), transition: t.spec_id() }),
                None => None,
            }),
    {
        match self.transition {
            Some(transition) => Some(self.tag_for(transition.id, self.epoch)),
            None => None,
        }
    }

    pub fn recovery(&self) -> (r: Option<RecoveryIncident>)
        ensures
            r == self.spec_recovery(),
    {
        self.recovery
    }

    pub fn admission_open(&self) -> (r: bool)
        ensures
            r == self.spec_admission_open(),
    {
        self.admission_open
    }

    pub fn add_protocol_output(&mut self, output: u32) -> (r: Option<OutputProjection>)
        requires
            old(self).wf(),
        ensures
            final(self).wf(),
            same_control(old(self), final(self)),
            r is None <==> old(self).spec_desired().dpms_targets.contains_key(output),
            r matches Some(p) ==> p == super::desired::inherited_projection(old(self).spec_desired()),
            r matches Some(p) ==> final(self).spec_desired() == (DesiredView {
                dpms_targets: old(self).spec_desired().dpms_targets.insert(output, p),
                ..old(self).spec_desired()
            }),
            r is None ==> final(self).spec_desired() == old(self).spec_desired(),
    {
        self.desired.add_protocol_output(output)
    }

    pub fn observe_seat_target(&mut self, target: SeatTarget, epoch: u64)
        requires
            old(self).wf(),
        ensures
            final(self).wf(),
            same_control(old(self), final(self)),
            final(self).spec_desired() == (DesiredView { seat_target: Some(target), seat_epoch: Some(epoch), ..old(self).spec_desired() }),
    {
        self.desired.observe_seat_target(target, epoch);
    }

    /// Remove one stable protocol output projection from this device.
    pub fn remove_protocol_output(&mut self, output: &u32) -> (r: Option<OutputProjectionRemoval>)
        requires
            old(self).wf(),
        ensures
            final(self).wf(),
            same_control(old(self), final(self)),
            r is None <==> !old(self).spec_desired().dpms_targets.contains_key(*output),
            r matches Some(removal) ==> removal.projection == old(self).spec_desired().dpms_targets[*output]
                && final(self).spec_desired() == (DesiredView {
                dpms_targets: old(self).spec_desired().dpms_targets.remove(*output),
                ..old(self).spec_desired()
            }),
            r is None ==> final(self).spec_desired() == old(self).spec_desired(),
    {
        self.desired.remove_protocol_output(output)
    }

    /// Project an event straight into the desired snapshot without
    /// arbitration, as a driver restoring a known snapshot would.
    pub fn project_desired(&mut self, event_id: LifecycleEventId, intent: DesiredIntent) -> (r: ProjectionResult)
        requires
            old(self).wf(),
            input_levels_valid(ArbiterInput::LifecycleEvent { event_id, intent }),
        ensures
            final(self).wf(),
            same_control(old(self), final(self)),
            final(self).spec_desired() == super::desired::projection_state(old(self).spec_desired(), event_id, intent),
            r.event_disposition == super::desired::projection_disposition(old(self).spec_desired(), intent),
    {
        self.desired.project(event_id, intent)
    }

    /// Record a representative's disposition directly in the snapshot.
    pub fn record_disposition(&mut self, event_id: LifecycleEventId, disposition: Disposition) -> (r: bool)
        requires
            old(self).wf(),
        ensures
            final(self).wf(),
            same_control(old(self), final(self)),
            ({
                let reps = old(self).spec_desired().representatives;
                let i = super::desired::find_event(reps, event_id, 0);
                &&& r == (i < reps.len() && super::desired::rep_is_pending(reps[i]))
                &&& !r ==> final(self).spec_desired() == old(self).spec_desired()
            }),
    {
        self.desired.set_disposition(event_id, disposition)
    }

    /// Ordinary work always carries the current lifecycle epoch and no
    /// transition id, including after a previous transition completed.
    pub fn ordinary_work_tag(&self) -> (r: Option<WorkTag<u32>>)
        ensures
            r == (if self.spec_admission_open() && self.spec_state() == DeviceLifecycleState::Ready {
                Some(WorkTag { incarnation: self.spec_incarnation(), lifecycle_epoch: self.spec_epoch(), transition: None })
            } else {
                None
            }),
    {
        if self.admission_open && self.state == DeviceLifecycleState::Ready {
            Some(WorkTag::ordinary(self.incarnation, self.epoch))
        } else {
            None
        }
    }

    /// Apply one projected event or acknowledged outcome and return driver
    /// actions in their required ordering.
    pub fn apply(&mut self, input: ArbiterInput<u32>) -> (r: Vec<LifecycleAction<u32>>)
        requires
            old(self).wf(),
            input_levels_valid(input),
        ensures
            final(self).wf(),
            applied(old(self), final(self), input, r@),
    {
        match input {
            ArbiterInput::LifecycleEvent { event_id, intent } => self.apply_event(event_id, intent),
            ArbiterInput::Receipt { tag, receipt, result } => self.apply_receipt(tag, receipt, result),
            ArbiterInput::CommitProgress { tag, progress } => self.apply_commit_progress(tag, progress),
            ArbiterInput::CommitOutcome { tag, outcome } => self.apply_commit_outcome(tag, outcome),
            ArbiterInput::CompletionUnknown { event_id, boundary_recovery_id } => self.apply_completion_unknown(
                event_id,
                boundary_recovery_id,
            ),
            ArbiterInput::RecoveryIncidentAllocated { event_id, incident } => self.apply_allocated_incident(event_id, incident),
            ArbiterInput::RecoveryAttempt { tag, outcome } => self.apply_recovery_attempt(tag, outcome),
            ArbiterInput::DeviceStateChanged(state) => {
                self.state = state;
                if state == DeviceLifecycleState::Ready && self.transition.is_none() {
                    self.admission_open = true;
                }
                let mut actions = self.converge();
                if state == DeviceLifecycleState::Ready && self.transition.is_none() && self.admission_open {
                    actions.push(LifecycleAction::ReopenAdmission(self.current_work_tag()));
                }
                actions
            },
            ArbiterInput::SeatTargetObserved { target, epoch } => {
                self.desired.observe_seat_target(target, epoch);
                self.converge()
            },
            ArbiterInput::FdFamilyBarrierCleared { tag } => self.apply_barrier_cleared(tag),
            ArbiterInput::OrdinaryReply { tag } => {
                if self.is_current_ordinary_tag(&tag) {
                    let actions = vec![LifecycleAction::OrdinaryReplyCurrent];
                    assert(actions@ =~= seq![LifecycleAction::<u32>::OrdinaryReplyCurrent]);
                    actions
                } else {
                    let transition_id = match tag.transition {
                        Some(id) => Some(id),
                        None => self.last_transition_id,
                    };
                    let actions = vec![LifecycleAction::StaleResultIgnored { transition_id }];
                    assert(actions@ =~= seq![LifecycleAction::<u32>::StaleResultIgnored { transition_id }]);
                    actions
                }
            },
        }
    }

    fn apply_barrier_cleared(&mut self, tag: TransitionTag<u32>) -> (r: Vec<LifecycleAction<u32>>)
        requires
            old(self).wf(),
        ensures
            final(self).wf(),
            epoch_advances(old(self), final(self)),
            advances_sound(final(self), r@),
            !is_current_tag(old(self), tag) ==> {
                &&& r@ == seq![LifecycleAction::<u32>::StaleResultIgnored { transition_id: Some(tag.transition) }]
                &&& *final(self) == *old(self)
            },
            is_current_tag(old(self), tag) ==> barrier_cleared_applied(old(self), final(self), tag, r@),
    {
        if !self.is_current_transition_tag(&tag) {
            let actions = vec![LifecycleAction::StaleResultIgnored { transition_id: Some(tag.transition) }];
            assert(actions@ =~= seq![LifecycleAction::<u32>::StaleResultIgnored { transition_id: Some(tag.transition) }]);
            return actions;
        }
        self.fd_family_fenced = false;
        match self.transition {
            Some(transition) => {
                if transition.failed == 0 && transition.receipts_complete() {
                    self.transition = Some(LifecycleTransition { phase: LifecycleTransitionPhase::PhysicalReady, ..transition });
                    let t = self.tag_for(transition.id, self.epoch);
                    let actions = vec![LifecycleAction::PhysicalAdvanceAllowed(t)];
                    assert(actions@ =~= seq![LifecycleAction::<u32>::PhysicalAdvanceAllowed(tag)]);
                    return actions;
                }
                Vec::new()
            },
            None => Vec::new(),
        }
    }

    fn apply_event(&mut self, event_id: LifecycleEventId, intent: DesiredIntent) -> (r: Vec<LifecycleAction<u32>>)
        requires
            old(self).wf(),
            input_levels_valid(ArbiterInput::LifecycleEvent { event_id, intent }),
        ensures
            final(self).wf(),
            epoch_advances(old(self), final(self)),
            advances_sound(final(self), r@),
            elects_by_precedence(old(self), final(self), event_id, intent),
            idle_event_handled(old(self), final(self), event_id, intent, r@),
            event_handled(old(self), intent, r@),
            desired_settled_from(super::desired::projection_state(old(self).spec_desired(), event_id, intent), final(self).spec_desired()),
    {
        let kind = intent.kind();
        let ghost floor0 = self.next_floor();
        let ghost pre = self.transition is Some && kind_precedence(kind) < kind_precedence(self.transition->0.kind)
            && self.transition->0.commit_progress != CommitProgress::NotSubmitted;
        let mut actions: Vec<LifecycleAction<u32>> = Vec::new();
        // Close admission before touching the desired snapshot or
        // terminalizing any replaced representative.
        actions.push(LifecycleAction::CloseAdmission(self.current_work_tag()));
        self.admission_open = false;
        let ghost mut await_at: int = -1;
        match self.transition {
            Some(active) => {
                if kind.outranks(active.kind) {
                    let old_tag = self.tag_for(active.id, self.epoch);
                    self.force_epoch_bump(&mut actions);
                    proof {
                        await_at = actions@.len() as int;
                    }
                    self.finish_abandoned_transition(active, old_tag, &mut actions);
                } else if kind == active.kind && !self.coalesced_epoch_bumped {
                    self.force_epoch_bump(&mut actions);
                    self.coalesced_epoch_bumped = true;
                }
            },
            None => {},
        }
        let ghost a0 = actions@;
        assert(a0[0] == LifecycleAction::<u32>::CloseAdmission(work_tag_of(old(self))));
        let ghost outranked = old(self).spec_transition() is Some && kind_precedence(kind) < kind_precedence(
            old(self).spec_transition()->0.spec_kind(),
        );
        assert(outranked ==> a0.len() == 3);
        assert(old(self).spec_transition() is Some && kind_precedence(kind) < kind_precedence(old(self).spec_transition()->0.spec_kind())
            && old(self).spec_transition()->0.spec_commit_progress() != CommitProgress::NotSubmitted ==> 0 <= await_at < a0.len() && a0[await_at]
            == LifecycleAction::<u32>::AwaitTerminalState(
            TransitionTag {
                incarnation: old(self).spec_incarnation(),
                lifecycle_epoch: old(self).spec_epoch(),
                transition: old(self).spec_transition()->0.spec_id(),
            },
        ));
        assert(pre ==> cancels_from(seq![], a0, floor0));
        let projection = self.desired.project(event_id, intent);
        let mut i: usize = 0;
        while i < projection.terminalized.len()
            invariant
                0 <= i <= projection.terminalized@.len(),
                appended_quietly(a0, actions@),
                cancels_from(a0, actions@, floor0),
            decreases projection.terminalized@.len() - i,
        {
            let terminal = projection.terminalized[i];
            actions.push(LifecycleAction::DispositionChanged { event_id: terminal.event_id, disposition: terminal.disposition });
            i = i + 1;
        }
        match projection.event_disposition {
            Some(disposition) => {
                actions.push(LifecycleAction::DispositionChanged { event_id, disposition });
                proof {
                    assert(actions@[0] == a0[0]);
                    if 0 <= await_at < a0.len() {
                        assert(actions@[await_at] == a0[await_at]);
                    }
                    if outranked {
                        assert(actions@[1] == a0[1]);
                        assert(actions@[2] == a0[2]);
                    }
                }
                return actions;
            },
            None => {},
        }
        if kind == LifecycleKind::Shutdown {
            self.state = DeviceLifecycleState::Quiescing;
        }
        if self.state == DeviceLifecycleState::Poisoned && kind == LifecycleKind::DPMS {
            self.logical_poisoned_dpms(event_id, &mut actions);
            proof {
                assert(actions@[0] == a0[0]);
                if 0 <= await_at < a0.len() {
                    assert(actions@[await_at] == a0[await_at]);
                }
                if outranked {
                    assert(actions@[1] == a0[1]);
                    assert(actions@[2] == a0[2]);
                }
            }
            return actions;
        }
        match self.transition {
            Some(active) => {
                if kind.outranks(active.kind) {
                    self.start_transition(kind, &mut actions);
                } else if kind == active.kind {
                    // The latest target coalesces into the same transition.
                    // Its safety receipts remain valid for this unchanged id,
                    // so Presents are not terminalized nor quarantine
                    // transferred twice.
                    if active.commit_progress != CommitProgress::NotSubmitted && !active.terminal_wait_requested {
                        self.transition = Some(LifecycleTransition { terminal_wait_requested: true, ..active });
                        actions.push(LifecycleAction::AwaitTerminalState(self.tag_for(active.id, active.commit_epoch)));
                    }
                    let ghost mid = *self;
                    let ghost a1 = actions@;
                    if active.commit_progress == CommitProgress::NotSubmitted && active.receipts_complete() && !self.fd_family_fenced {
                        actions.push(LifecycleAction::PhysicalAdvanceAllowed(self.tag_for(active.id, self.epoch)));
                    }
                    let ghost a2 = actions@;
                    self.apply_recovery_winner(kind, event_id, &mut actions);
                    assert forall|k: int| 0 <= k < actions@.len() implies (#[trigger] actions@[k] matches LifecycleAction::PhysicalAdvanceAllowed(tag)
                        ==> advance_is_sound(self, tag)) by {
                        if k < a2.len() {
                            assert(actions@[k] == a2[k]);
                            if k < a1.len() {
                                assert(a2[k] == a1[k]);
                            }
                        }
                    }
                } else {
                    self.classify_prerequisite(event_id, kind, &mut actions);
                }
            },
            None => {
                let blocked = self.classify_prerequisite(event_id, kind, &mut actions);
                if blocked {
                    if self.state == DeviceLifecycleState::Ready {
                        self.admission_open = true;
                        actions.push(LifecycleAction::ReopenAdmission(self.current_work_tag()));
                    }
                } else if self.transition.is_none() {
                    self.start_transition(kind, &mut actions);
                    self.apply_recovery_winner(kind, event_id, &mut actions);
                    self.emit_logical_obligations(kind, &mut actions);
                }
            },
        }
        proof {
            assert(actions@[0] == a0[0]);
            if 0 <= await_at < a0.len() {
                assert(actions@[await_at] == a0[await_at]);
            }
            if outranked {
                assert(actions@[1] == a0[1]);
                assert(actions@[2] == a0[2]);
            }
        }
        actions
    }

    fn finish_abandoned_transition(
        &mut self,
        active: LifecycleTransition,
        old_tag: TransitionTag<u32>,
        actions: &mut Vec<LifecycleAction<u32>>,
    )
        requires
            old(self).wf(),
        ensures
            final(self).wf(),
            final(self).incarnation == old(self).incarnation,
            final(self).epoch == old(self).epoch,
            final(self).transition is None,
            final(self).desired == old(self).desired,
            final(self).state == old(self).state,
            final(self).topology_latch == old(self).topology_latch,
            final(self).next_transition_id == old(self).next_transition_id,
            final(self).recovery == old(self).recovery,
            final(self).fd_family_fenced == (old(self).fd_family_fenced || active.failed != 0),
            final(actions)@ == old(actions)@.push(if active.commit_progress == CommitProgress::NotSubmitted {
                LifecycleAction::CancelPreSubmitWork(old_tag)
            } else {
                LifecycleAction::AwaitTerminalState(old_tag)
            }),
    {
        if active.physically_fenced() {
            self.fd_family_fenced = true;
        }
        match active.commit_progress {
            CommitProgress::NotSubmitted => {
                actions.push(LifecycleAction::CancelPreSubmitWork(old_tag));
            },
            CommitProgress::Submitting | CommitProgress::Accepted => {
                actions.push(LifecycleAction::AwaitTerminalState(old_tag));
            },
        }
        self.transition = None;
        self.coalesced_epoch_bumped = false;
    }

    fn start_transition(&mut self, kind: LifecycleKind, actions: &mut Vec<LifecycleAction<u32>>)
        requires
            old(self).wf(),
        ensures
            final(self).pending_recovery_allocation == old(self).pending_recovery_allocation,
            final(self).topology_latch == old(self).topology_latch,
            cancels_from(old(actions)@, final(actions)@, old(self).next_floor()),
            old(self).next_floor() <= final(self).next_floor(),
            final(self).wf(),
            final(self).incarnation == old(self).incarnation,
            final(self).epoch == old(self).epoch,
            final(self).fd_family_fenced == old(self).fd_family_fenced,
            final(self).desired == old(self).desired,
            final(self).recovery == old(self).recovery,
            final(self).state == old(self).state,
            old(self).next_transition_id is None ==> final(self).transition == old(self).transition
                && final(self).admission_open == old(self).admission_open,
            old(self).next_transition_id matches Some(n) ==> (final(self).transition matches Some(t)
                && t.id@ == n && t.kind == kind && !t.receipts_done() && t.commit_progress == CommitProgress::NotSubmitted),
            appended_quietly(old(actions)@, final(actions)@),
            started(*old(self), *final(self), kind, old(actions)@, final(actions)@),
    {
        match self.allocate_transition_id() {
            Some(id) => {
                self.last_transition_id = Some(id);
                self.transition = Some(LifecycleTransition::new(id, kind, self.epoch));
                self.admission_open = false;
                self.coalesced_epoch_bumped = false;
                self.emit_safety_requests(actions);
            },
            None => {
                actions.push(LifecycleAction::TransitionIdExhausted);
            },
        }
    }

    fn allocate_transition_id(&mut self) -> (r: Option<LifecycleTransitionId>)
        ensures
            old(self).next_transition_id is None ==> r is None && final(self).next_transition_id is None,
            old(self).next_transition_id matches Some(n) ==> (r matches Some(id) && id@ == n
                && final(self).next_transition_id == (if n < u64::MAX { Some((n + 1) as u64) } else { None })),
            final(self).incarnation == old(self).incarnation,
            final(self).desired == old(self).desired,
            final(self).state == old(self).state,
            final(self).epoch == old(self).epoch,
            final(self).transition == old(self).transition,
            final(self).last_transition_id == old(self).last_transition_id,
            final(self).recovery == old(self).recovery,
            final(self).admission_open == old(self).admission_open,
            final(self).coalesced_epoch_bumped == old(self).coalesced_epoch_bumped,
            final(self).topology_latch == old(self).topology_latch,
            final(self).pending_recovery_allocation == old(self).pending_recovery_allocation,
            final(self).fd_family_fenced == old(self).fd_family_fenced,
    {
        match self.next_transition_id {
            Some(raw) => {
                self.next_transition_id = raw.checked_add(1);
                Some(LifecycleTransitionId::from_raw(raw))
            },
            None => None,
        }
    }

    fn emit_safety_requests(&self, actions: &mut Vec<LifecycleAction<u32>>)
        ensures
            self.transition matches Some(t) ==> cancels_from(old(actions)@, final(actions)@, t.id@ as int),
            appended_quietly(old(actions)@, final(actions)@),
            final(actions)@ == old(actions)@ + match self.transition {
                Some(t) => safety_requests(
                    TransitionTag { incarnation: self.incarnation, lifecycle_epoch: self.epoch, transition: t.id },
                    t.commit_progress,
                ),
                None => Seq::<LifecycleAction<u32>>::empty(),
            },
    {
        let ghost a0 = actions@;
        match self.transition {
            Some(transition) => {
                let tag = self.tag_for(transition.id, self.epoch);
                actions.push(LifecycleAction::CloseAdmission(tag.as_work_tag()));
                actions.push(LifecycleAction::StopAliasCreation(tag));
                actions.push(LifecycleAction::CancelPreSubmitWork(tag));
                match transition.commit_progress {
                    CommitProgress::Submitting | CommitProgress::Accepted => {
                        actions.push(LifecycleAction::AwaitTerminalState(tag));
                    },
                    CommitProgress::NotSubmitted => {},
                }
                actions.push(LifecycleAction::TerminalizePresents(tag));
                actions.push(LifecycleAction::TransferQuarantineToWinner(tag));
                assert(actions@ =~= a0 + safety_requests(tag, transition.commit_progress));
            },
            None => {
                assert(actions@ =~= a0 + Seq::<LifecycleAction<u32>>::empty());
            },
        }
    }

    fn emit_logical_obligations(&self, kind: LifecycleKind, actions: &mut Vec<LifecycleAction<u32>>)
        ensures
            cancels_from(old(actions)@, final(actions)@, self.next_floor()),
            appended_quietly(old(actions)@, final(actions)@),
            final(actions)@ == old(actions)@ + match self.transition {
                Some(t) => logical_obligations(kind, WorkTag { incarnation: self.incarnation, lifecycle_epoch: self.epoch, transition: Some(t.id) }),
                None => Seq::<LifecycleAction<u32>>::empty(),
            },
    {
        let ghost a0 = actions@;
        match self.transition {
            Some(transition) => {
                let tag = self.tag_for(transition.id, self.epoch).as_work_tag();
                match kind {
                    LifecycleKind::VTRelease => actions.push(LifecycleAction::ReleaseSeat(tag)),
                    LifecycleKind::DeviceRemoved => {
                        actions.push(LifecycleAction::WithdrawOutputs(tag));
                        actions.push(LifecycleAction::TerminalizeProtocolWork(tag));
                    },
                    LifecycleKind::Shutdown => {
                        actions.push(LifecycleAction::WithdrawOutputs(tag));
                        actions.push(LifecycleAction::TerminalizeProtocolWork(tag));
                        actions.push(LifecycleAction::ReleaseSeat(tag));
                    },
                    _ => {},
                }
                assert(actions@ =~= a0 + logical_obligations(kind, tag));
            },
            None => {
                assert(actions@ =~= a0 + Seq::<LifecycleAction<u32>>::empty());
            },
        }
    }

    fn apply_recovery_winner(&mut self, kind: LifecycleKind, event_id: LifecycleEventId, actions: &mut Vec<LifecycleAction<u32>>)
        requires
            old(self).wf(),
        ensures
            desired_settled_from(old(self).desired@, final(self).desired@),
            final(self).desired@.seat_target == old(self).desired@.seat_target && final(self).desired@.seat_epoch == old(self).desired@.seat_epoch,
            final(self).topology_latch == old(self).topology_latch,
            cancels_from(old(actions)@, final(actions)@, old(self).next_floor()),
            old(self).next_floor() <= final(self).next_floor(),
            final(self).wf(),
            same_control(old(self), final(self)),
            final(self).state == old(self).state,
            final(self).admission_open == old(self).admission_open,
            appended_quietly(old(actions)@, final(actions)@),
            old(self).recovery is None ==> *final(self) == *old(self) && final(actions)@ == old(actions)@,
            old(self).recovery matches Some(incident) ==> ({
                let o = table_f_outcome(winner_for(*old(self), kind), incident, event_id);
                &&& final(actions)@ == old(actions)@ + fate_actions(old(self).desired@, o.fate) + seq![LifecycleAction::<u32>::RecoveryTableF(o)]
                    + match o.fate.new_incident {
                    Some(seed) => seq![LifecycleAction::<u32>::AllocateRecoveryIncident { event_id, seed }],
                    None => Seq::<LifecycleAction<u32>>::empty(),
                }
                &&& final(self).desired@ == fate_desired(old(self).desired@, old(self).recovery, o.fate)
                &&& final(self).recovery == o.fate.current_incident
                &&& final(self).pending_recovery_allocation == match o.fate.new_incident {
                    Some(seed) => Some((event_id, seed)),
                    None => old(self).pending_recovery_allocation,
                }
            }),
    {
        let incident = match self.recovery {
            Some(incident) => incident,
            None => {
                return;
            },
        };
        let recovery_required = match self.state {
            DeviceLifecycleState::Poisoned | DeviceLifecycleState::RecoveryFailed | DeviceLifecycleState::Recovering(_) => true,
            _ => false,
        } || kind == LifecycleKind::DeviceAddedOrReplaced || kind == LifecycleKind::VTAcquire || kind
            == LifecycleKind::AdministrativeReprobe || kind == LifecycleKind::IdentityChangingHotplug;
        let mut winner = RecoveryWinner::new(kind).with_dpms_target(self.current_dpms_target());
        if recovery_required {
            winner = winner.requiring_recovery();
        }
        assert(winner == winner_for(*old(self), kind));
        let fate = table_f(winner, incident, event_id);
        let ghost a0 = actions@;
        self.apply_recovery_fate(fate.fate, actions);
        actions.push(LifecycleAction::RecoveryTableF(fate));
        match fate.fate.new_incident {
            Some(seed) => {
                self.pending_recovery_allocation = Some((event_id, seed));
                actions.push(LifecycleAction::AllocateRecoveryIncident { event_id, seed });
                assert(actions@ =~= a0 + fate_actions(old(self).desired@, fate.fate) + seq![LifecycleAction::<u32>::RecoveryTableF(fate)]
                    + seq![LifecycleAction::<u32>::AllocateRecoveryIncident { event_id, seed }]);
            },
            None => {
                assert(actions@ =~= a0 + fate_actions(old(self).desired@, fate.fate) + seq![LifecycleAction::<u32>::RecoveryTableF(fate)]
                    + Seq::<LifecycleAction<u32>>::empty());
            },
        }
    }

    fn apply_recovery_fate(&mut self, fate: RecoveryFate, actions: &mut Vec<LifecycleAction<u32>>)
        requires
            old(self).wf(),
        ensures
            desired_settled_from(old(self).desired@, final(self).desired@),
            final(self).desired@.seat_target == old(self).desired@.seat_target && final(self).desired@.seat_epoch == old(self).desired@.seat_epoch,
            final(self).topology_latch == old(self).topology_latch,
            cancels_from(old(actions)@, final(actions)@, old(self).next_floor()),
            old(self).next_floor() <= final(self).next_floor(),
            final(self).wf(),
            same_control(old(self), final(self)),
            final(self).state == old(self).state,
            final(self).recovery == fate.current_incident,
            final(self).admission_open == old(self).admission_open,
            appended_quietly(old(actions)@, final(actions)@),
            final(actions)@ == old(actions)@ + fate_actions(old(self).desired@, fate),
            final(self).desired@ == fate_desired(old(self).desired@, old(self).recovery, fate),
            final(self).pending_recovery_allocation == old(self).pending_recovery_allocation,
            final(self).last_transition_id == old(self).last_transition_id,
            final(self).next_transition_id == old(self).next_transition_id,
            final(self).coalesced_epoch_bumped == old(self).coalesced_epoch_bumped,
    {
        let ghost d0 = self.desired@;
        let ghost a0 = actions@;
        match fate.representative_disposition {
            Some((event_id, disposition)) => {
                self.set_disposition(event_id, disposition, actions);
            },
            None => {},
        }
        assert(self.desired@.representatives == disposition_update(d0.representatives, fate.representative_disposition));
        assert(actions@ == a0 + disposition_report(d0.representatives, fate.representative_disposition)) by {
            assert(a0 =~= a0 + Seq::<LifecycleAction<u32>>::empty());
        }
        let ghost d1 = self.desired@;
        let ghost a1 = actions@;
        match fate.event_disposition {
            Some((event_id, disposition)) => {
                self.set_disposition(event_id, disposition, actions);
            },
            None => {},
        }
        assert(self.desired@.representatives == disposition_update(d1.representatives, fate.event_disposition));
        assert(actions@ == a1 + disposition_report(d1.representatives, fate.event_disposition)) by {
            assert(a1 =~= a1 + Seq::<LifecycleAction<u32>>::empty());
        }
        assert(actions@ =~= a0 + fate_actions(d0, fate));
        match fate.invalidated_incident {
            Some(invalidation) => {
                let representative = match self.recovery {
                    Some(incident) => incident.representative(),
                    None => None,
                };
                match representative {
                    Some(representative) => {
                        let terminal = match self.desired.disposition(representative) {
                            Some(d) => d.is_terminal(),
                            None => false,
                        };
                        if terminal {
                            self.desired.clear_recovery_incident(invalidation.recovery_id);
                        }
                    },
                    None => {},
                }
            },
            None => {},
        }
        self.recovery = fate.current_incident;
    }

    fn logical_poisoned_dpms(&mut self, event_id: LifecycleEventId, actions: &mut Vec<LifecycleAction<u32>>)
        requires
            old(self).wf(),
        ensures
            desired_settled_from(old(self).desired@, final(self).desired@),
            cancels_from(old(actions)@, final(actions)@, old(self).next_floor()),
            old(self).next_floor() <= final(self).next_floor(),
            final(self).wf(),
            final(self).incarnation == old(self).incarnation,
            final(self).epoch == old(self).epoch,
            final(self).fd_family_fenced == old(self).fd_family_fenced,
            old(self).transition is Some ==> final(self).transition == old(self).transition,
            appended_quietly(old(actions)@, final(actions)@),
            final(self).desired@ == poisoned_dpms_desired(*old(self), event_id),
            final(self).recovery == poisoned_dpms_recovery(*old(self), event_id),
            final(self).state == old(self).state,
            ({
                let mid = old(actions)@ + poisoned_dpms_actions(*old(self), event_id);
                &&& !(old(self).transition is None && incident_ready(poisoned_dpms_recovery(*old(self), event_id))) ==> final(self).transition
                    == old(self).transition && final(actions)@ == mid
                &&& old(self).transition is None && incident_ready(poisoned_dpms_recovery(*old(self), event_id)) ==> match old(
                    self,
                ).next_transition_id {
                    None => final(self).transition is None && final(actions)@ == mid.push(LifecycleAction::TransitionIdExhausted),
                    Some(n) => final(self).transition matches Some(t) && t.id@ == n && t.kind == LifecycleKind::NormalRecovery
                        && final(actions)@ == mid + safety_requests(
                        TransitionTag { incarnation: old(self).incarnation, lifecycle_epoch: old(self).epoch, transition: t.id },
                        CommitProgress::NotSubmitted,
                    ),
                }
            }),
    {
        let ghost a0 = actions@;
        self.set_disposition(event_id, Disposition::Deferred(Prerequisite::ReadinessClosed), actions);
        match self.recovery {
            Some(incident) => {
                let winner = RecoveryWinner::new(LifecycleKind::DPMS).with_dpms_target(self.current_dpms_target());
                assert(winner == dpms_winner(*old(self)));
                let outcome = table_f(winner, incident, event_id);
                self.apply_recovery_fate(outcome.fate, actions);
                actions.push(LifecycleAction::RecoveryTableF(outcome));
                assert(actions@ =~= a0 + poisoned_dpms_actions(*old(self), event_id));
            },
            None => {
                assert(actions@ =~= a0 + poisoned_dpms_actions(*old(self), event_id));
            },
        }
        self.ensure_recovery_transition(actions);
    }

    fn current_dpms_target(&self) -> (r: DpmsTarget)
        requires
            self.wf(),
        ensures
            level_target(self.desired@.protocol_dpms_level) == Some(r),
    {
        match dpms_target_for_level(self.desired.protocol_dpms_level()) {
            Some(target) => target,
            None => DpmsTarget::On,
        }
    }

    fn classify_prerequisite(&mut self, event_id: LifecycleEventId, kind: LifecycleKind, actions: &mut Vec<LifecycleAction<u32>>) -> (r: bool)
        requires
            old(self).wf(),
        ensures
            desired_settled_from(old(self).desired@, final(self).desired@),
            cancels_from(old(actions)@, final(actions)@, old(self).next_floor()),
            old(self).next_floor() <= final(self).next_floor(),
            final(self).wf(),
            same_control(old(self), final(self)),
            final(self).state == old(self).state,
            final(self).recovery == old(self).recovery,
            final(self).next_transition_id == old(self).next_transition_id,
            final(self).topology_latch == old(self).topology_latch,
            r == event_prerequisite(old(self).desired@, old(self).state, old(self).topology_latch, kind) is Some,
            appended_quietly(old(actions)@, final(actions)@),
    {
        let seat = self.desired.seat_target();
        let prerequisite = match kind {
            LifecycleKind::DeviceAddedOrReplaced => if seat != Some(SeatTarget::Owned) {
                Some(Prerequisite::SeatReleased)
            } else {
                None
            },
            LifecycleKind::VTAcquire => if self.desired.device_presence() != Some(true) {
                Some(Prerequisite::DeviceAbsent)
            } else {
                None
            },
            LifecycleKind::DPMS => {
                if self.state == DeviceLifecycleState::Poisoned {
                    Some(Prerequisite::ReadinessClosed)
                } else if seat == Some(SeatTarget::Released) {
                    Some(Prerequisite::SeatReleased)
                } else if self.state != DeviceLifecycleState::Ready {
                    Some(Prerequisite::ReadinessClosed)
                } else {
                    match self.topology_latch {
                        Some(generation) => match self.desired.discovery_epoch() {
                            Some(current) => if current != generation {
                                None
                            } else {
                                Some(Prerequisite::TopologyLatched(generation))
                            },
                            None => Some(Prerequisite::TopologyLatched(generation)),
                        },
                        None => None,
                    }
                }
            },
            _ => None,
        };
        match prerequisite {
            Some(prerequisite) => {
                self.set_disposition(event_id, Disposition::Deferred(prerequisite), actions);
                true
            },
            None => false,
        }
    }

    fn apply_receipt(&mut self, tag: TransitionTag<u32>, receipt: LifecycleReceipt, result: LifecycleReceiptResult) -> (r: Vec<LifecycleAction<u32>>)
        requires
            old(self).wf(),
        ensures
            final(self).wf(),
            epoch_advances(old(self), final(self)),
            advances_sound(final(self), r@),
            !names_current_transition(old(self), tag) ==> {
                &&& r@ == seq![LifecycleAction::<u32>::StaleReceiptIgnored { transition_id: tag.transition, receipt, result }]
                &&& only_fence_changed(old(self), final(self))
                &&& final(self).spec_fd_fenced() == (old(self).spec_fd_fenced() || result == LifecycleReceiptResult::Failed)
            },
            names_current_transition(old(self), tag) ==> receipt_applied(old(self), final(self), tag, receipt, result, r@),
    {
        if !self.matches_current_transition_id(&tag) {
            if result == LifecycleReceiptResult::Failed {
                self.fd_family_fenced = true;
            }
            let actions = vec![LifecycleAction::StaleReceiptIgnored { transition_id: tag.transition, receipt, result }];
            assert(actions@ =~= seq![LifecycleAction::<u32>::StaleReceiptIgnored { transition_id: tag.transition, receipt, result }]);
            return actions;
        }
        let mut transition = match self.transition {
            Some(t) => t,
            None => {
                return Vec::new();
            },
        };
        match result {
            LifecycleReceiptResult::Succeeded => {
                transition.acknowledged = transition.acknowledged | receipt.bit();
            },
            LifecycleReceiptResult::Failed => {
                let before = transition.failed;
                let bit = receipt.bit();
                transition.failed = before | bit;
                assert(bit != 0 ==> before | bit != 0) by (bit_vector);
            },
        }
        if transition.physically_fenced() {
            transition.phase = LifecycleTransitionPhase::PhysicallyFenced;
        }
        if transition.receipts_complete() && !self.fd_family_fenced && transition.phase != LifecycleTransitionPhase::PhysicalReady {
            transition.phase = LifecycleTransitionPhase::PhysicalReady;
            self.transition = Some(transition);
            let actions = vec![LifecycleAction::PhysicalAdvanceAllowed(tag)];
            assert(actions@ =~= seq![LifecycleAction::<u32>::PhysicalAdvanceAllowed(tag)]);
            actions
        } else if transition.receipts_complete() && self.fd_family_fenced {
            transition.phase = LifecycleTransitionPhase::PhysicallyFenced;
            self.transition = Some(transition);
            Vec::new()
        } else if result == LifecycleReceiptResult::Failed {
            self.transition = Some(transition);
            let actions = vec![LifecycleAction::ReceiptFailed { transition_id: tag.transition, receipt }];
            assert(actions@ =~= seq![LifecycleAction::<u32>::ReceiptFailed { transition_id: tag.transition, receipt }]);
            actions
        } else {
            self.transition = Some(transition);
            Vec::new()
        }
    }

    fn apply_commit_progress(&mut self, tag: TransitionTag<u32>, progress: CommitProgress) -> (r: Vec<LifecycleAction<u32>>)
        requires
            old(self).wf(),
        ensures
            final(self).wf(),
            epoch_advances(old(self), final(self)),
            advances_sound(final(self), r@),
            commit_progress_applied(old(self), final(self), tag, progress, r@),
    {
        let current = self.is_current_transition_tag(&tag);
        if current || self.matches_current_transition_id(&tag) {
            match self.transition {
                Some(transition) => {
                    let phase = match progress {
                        CommitProgress::Submitting | CommitProgress::Accepted => LifecycleTransitionPhase::AwaitingTerminal,
                        CommitProgress::NotSubmitted => transition.phase,
                    };
                    self.transition = Some(LifecycleTransition {
                        commit_progress: progress,
                        commit_epoch: tag.lifecycle_epoch,
                        phase,
                        ..transition
                    });
                },
                None => {},
            }
        }
        if !current {
            let actions = vec![LifecycleAction::StaleResultIgnored { transition_id: Some(tag.transition) }];
            assert(actions@ =~= seq![LifecycleAction::<u32>::StaleResultIgnored { transition_id: Some(tag.transition) }]);
            return actions;
        }
        Vec::new()
    }

    /// An outcome whose tag is not the current one: ignored, though one for
    /// the current transition id under an older epoch resets its commit.
    fn apply_stale_commit_outcome(&mut self, tag: TransitionTag<u32>) -> (r: Vec<LifecycleAction<u32>>)
        requires
            old(self).wf(),
            !is_current_tag(old(self), tag),
        ensures
            final(self).wf(),
            epoch_advances(old(self), final(self)),
            advances_sound(final(self), r@),
            !names_current_transition(old(self), tag) ==> {
                &&& r@ == seq![LifecycleAction::<u32>::StaleResultIgnored { transition_id: Some(tag.transition) }]
                &&& *final(self) == *old(self)
            },
            names_current_transition(old(self), tag) ==> stale_epoch_outcome_applied(old(self), final(self), tag, r@),
    {
        if self.matches_current_transition_id(&tag) {
            let mut ready = false;
            match self.transition {
                Some(transition) => {
                    let reset = LifecycleTransition {
                        commit_progress: CommitProgress::NotSubmitted,
                        terminal_wait_requested: false,
                        ..transition
                    };
                    ready = reset.receipts_complete() && !self.fd_family_fenced;
                    if ready {
                        self.transition = Some(LifecycleTransition { phase: LifecycleTransitionPhase::PhysicalReady, ..reset });
                    } else {
                        self.transition = Some(reset);
                    }
                },
                None => {},
            }
            let mut actions = vec![LifecycleAction::StaleResultIgnored { transition_id: Some(tag.transition) }];
            if ready {
                actions.push(LifecycleAction::PhysicalAdvanceAllowed(self.tag_for(tag.transition, self.epoch)));
            }
            return actions;
        }
        let actions = vec![LifecycleAction::StaleResultIgnored { transition_id: Some(tag.transition) }];
        assert(actions@ =~= seq![LifecycleAction::<u32>::StaleResultIgnored { transition_id: Some(tag.transition) }]);
        actions
    }

    /// End the active transition on its outcome: record its
    /// representative's disposition, take the outcome's device state and
    /// latch, and leave admission open exactly on a ready device.
    fn end_transition(&mut self, active: LifecycleTransition, outcome: LifecycleCommitOutcome, actions: &mut Vec<LifecycleAction<u32>>)
        requires
            old(self).wf(),
            old(self).transition == Some(active),
            old(actions)@.len() == 0,
        ensures
            final(self).wf(),
            final(self).transition is None,
            final(self).incarnation == old(self).incarnation,
            final(self).epoch == old(self).epoch,
            final(self).fd_family_fenced == old(self).fd_family_fenced,
            final(self).next_transition_id == old(self).next_transition_id,
            final(self).recovery == old(self).recovery,
            final(self).state == outcome_state(active.spec_kind(), outcome),
            final(self).admission_open == (final(self).state == DeviceLifecycleState::Ready),
            final(self).topology_latch == outcome_latch(old(self).topology_latch, outcome),
            ({
                let reps0 = old(self).desired@.representatives;
                let change = outcome_change(reps0, active, outcome);
                &&& final(self).desired@.representatives == disposition_update(reps0, change)
                &&& final(self).desired@.recovery_incident == old(self).desired@.recovery_incident
                &&& final(actions)@ == disposition_report(reps0, change)
            }),
    {
        let ghost reps0 = self.desired@.representatives;
        let ghost change = outcome_change(reps0, active, outcome);
        assert(active.kind == active.spec_kind() && active.id == active.spec_id());
        match outcome {
            LifecycleCommitOutcome::Completed { dpms_projections_retired } => {
                if active.kind != LifecycleKind::DPMS || dpms_projections_retired {
                    self.mark_active_representative_applied(active, actions);
                    proof {
                        match applied_position(reps0, active) {
                            Some(i) => {
                                let p = super::desired::rep_for(reps0, super::desired::kind_field(active.spec_kind()))->0;
                                super::desired::lemma_find_event(reps0, p.event_id, 0);
                            },
                            None => {},
                        }
                    }
                } else {
                    match self.desired.representative(field_for_kind(active.kind)) {
                        Some(representative) => {
                            self.set_disposition(
                                representative.event_id,
                                Disposition::Deferred(Prerequisite::ReadinessClosed),
                                actions,
                            );
                        },
                        None => {},
                    }
                }
                assert(self.desired@.representatives == disposition_update(reps0, change));
                assert(actions@ == disposition_report(reps0, change));
                self.state = match active.kind {
                    LifecycleKind::Shutdown | LifecycleKind::VTRelease => DeviceLifecycleState::Quiescing,
                    LifecycleKind::DeviceRemoved => DeviceLifecycleState::Removed,
                    _ => DeviceLifecycleState::Ready,
                };
                if active.kind == LifecycleKind::IdentityChangingHotplug || active.kind == LifecycleKind::TopologyRebuild {
                    let same_kind = match self.desired.representative(DesiredField::Topology) {
                        Some(representative) => representative.kind == active.kind,
                        None => false,
                    };
                    if same_kind {
                        match self.desired.discovery_epoch() {
                            Some(generation) => {
                                self.desired.clear_topology_dirty(generation);
                            },
                            None => {},
                        }
                    }
                }
                self.transition = None;
                self.admission_open = self.state == DeviceLifecycleState::Ready;
                self.coalesced_epoch_bumped = false;
            },
            LifecycleCommitOutcome::Rejected { topology_latched_generation } => {
                match topology_latched_generation {
                    Some(generation) => {
                        self.topology_latch = Some(generation);
                        self.state = DeviceLifecycleState::Ready;
                        self.admission_open = true;
                        match self.desired.representative(field_for_kind(active.kind)) {
                            Some(representative) => {
                                self.set_disposition(
                                    representative.event_id,
                                    Disposition::Deferred(Prerequisite::TopologyLatched(generation)),
                                    actions,
                                );
                            },
                            None => {},
                        }
                    },
                    None => {
                        self.state = DeviceLifecycleState::Quiescing;
                        self.admission_open = false;
                        match self.desired.representative(field_for_kind(active.kind)) {
                            Some(representative) => {
                                self.set_disposition(
                                    representative.event_id,
                                    Disposition::Deferred(Prerequisite::ReadinessClosed),
                                    actions,
                                );
                            },
                            None => {},
                        }
                    },
                }
                assert(self.desired@.representatives == disposition_update(reps0, change));
                assert(actions@ == disposition_report(reps0, change));
                self.transition = None;
                self.coalesced_epoch_bumped = false;
            },
        }
    }

    fn apply_commit_outcome(&mut self, tag: TransitionTag<u32>, outcome: LifecycleCommitOutcome) -> (r: Vec<LifecycleAction<u32>>)
        requires
            old(self).wf(),
        ensures
            final(self).wf(),
            epoch_advances(old(self), final(self)),
            advances_sound(final(self), r@),
            !names_current_transition(old(self), tag) ==> {
                &&& r@ == seq![LifecycleAction::<u32>::StaleResultIgnored { transition_id: Some(tag.transition) }]
                &&& *final(self) == *old(self)
            },
            is_current_tag(old(self), tag) ==> outcome_applied(old(self), final(self), outcome, r@),
            names_current_transition(old(self), tag) && !is_current_tag(old(self), tag) ==> stale_epoch_outcome_applied(
                old(self),
                final(self),
                tag,
                r@,
            ),
    {
        if !self.is_current_transition_tag(&tag) {
            return self.apply_stale_commit_outcome(tag);
        }
        let active = match self.transition {
            Some(t) => t,
            None => {
                return Vec::new();
            },
        };
        let ghost reps0 = self.desired@.representatives;
        let ghost change = outcome_change(reps0, active, outcome);
        let mut actions: Vec<LifecycleAction<u32>> = Vec::new();
        self.end_transition(active, outcome, &mut actions);
        let ghost mid = *self;
        self.settle_after_outcome(&mut actions);
        proof {
            let m = DesiredView {
                representatives: disposition_update(reps0, change),
                recovery_incident: old(self).spec_desired().recovery_incident,
                ..self.spec_desired()
            };
            assert(m == mid.spec_desired());
        }
        actions
    }

    /// After an outcome ends the transition: converge, then reopen a ready
    /// device's admission last when no other transition started.
    fn settle_after_outcome(&mut self, actions: &mut Vec<LifecycleAction<u32>>)
        requires
            old(self).wf(),
            old(self).transition is None,
            old(self).admission_open == (old(self).state == DeviceLifecycleState::Ready),
            old(self).state != DeviceLifecycleState::Poisoned,
            old(self).state != DeviceLifecycleState::ShutdownExecutorStalled,
            no_advance(old(actions)@),
        ensures
            final(self).wf(),
            desired_settled_from(old(self).spec_desired(), final(self).spec_desired()),
            final(self).incarnation == old(self).incarnation,
            final(self).epoch == old(self).epoch,
            final(self).state == old(self).state,
            final(self).topology_latch == old(self).topology_latch,
            no_advance(final(actions)@),
            final(actions)@.len() >= old(actions)@.len(),
            final(actions)@.subrange(0, old(actions)@.len() as int) == old(actions)@,
            final(self).transition is None || (old(self).next_transition_id is Some && final(self).transition->0.id@
                == old(self).next_transition_id->0),
            final(self).transition is None && final(self).state == DeviceLifecycleState::Ready ==> final(actions)@.len() > 0
                && final(actions)@.last() == LifecycleAction::<u32>::ReopenAdmission(work_tag_of(final(self))),
            ({
                let d = old(self).spec_desired();
                let st = old(self).state;
                let la = old(self).topology_latch;
                let cands = converge_candidates(d, st, d.representatives);
                &&& !has_eligible_in(d, st, la) || st == DeviceLifecycleState::Removed ==> {
                    &&& final(self).transition is None
                    &&& final(self).recovery == old(self).recovery
                    &&& final(self).spec_desired().representatives == if st == DeviceLifecycleState::Removed {
                        d.representatives
                    } else {
                        deferral_reps(d, st, la, cands, d.representatives)
                    }
                    &&& final(self).spec_desired() == (DesiredView { representatives: final(self).spec_desired().representatives, ..d })
                    &&& final(actions)@ == old(actions)@ + (if st == DeviceLifecycleState::Removed {
                        Seq::<LifecycleAction<u32>>::empty()
                    } else {
                        deferral_reports(d, st, la, cands, d.representatives)
                    }) + (if st == DeviceLifecycleState::Ready {
                        seq![LifecycleAction::<u32>::ReopenAdmission(work_tag_of(final(self)))]
                    } else {
                        Seq::<LifecycleAction<u32>>::empty()
                    })
                }
                &&& has_eligible_in(d, st, la) && st != DeviceLifecycleState::Removed ==> {
                    let w = converge_winner(d, st, la, cands)->0;
                    let dm = DesiredView { representatives: deferral_reps(d, st, la, cands, d.representatives), ..d };
                    let o = winner_table_f(d, st, old(self).recovery, w);
                    &&& converge_winner(d, st, la, cands) is Some
                    &&& highest_eligible_in(d, st, la, w)
                    &&& final(self).spec_desired() == winner_desired(dm, old(self).recovery, o)
                    &&& final(self).recovery == winner_recovery(old(self).recovery, o)
                    &&& (old(self).next_transition_id is Some <==> final(self).transition is Some)
                    &&& final(self).transition matches Some(t) ==> t.kind == w.kind && t.commit_progress == CommitProgress::NotSubmitted
                        && !final(self).admission_open
                    &&& final(actions)@ == old(actions)@ + deferral_reports(d, st, la, cands, d.representatives) + converge_tail(
                        old(self).incarnation,
                        old(self).epoch,
                        final(self).transition,
                        dm,
                        w,
                        o,
                    ) + (if final(self).transition is None && st == DeviceLifecycleState::Ready {
                        seq![LifecycleAction::<u32>::ReopenAdmission(work_tag_of(final(self)))]
                    } else {
                        Seq::<LifecycleAction<u32>>::empty()
                    })
                }
            }),
    {
        let ghost a0 = actions@;
        let converged = self.converge();
        let mut tail = converged;
        let ghost t0 = tail@;
        actions.append(&mut tail);
        assert(actions@ == a0 + t0);
        let ghost a1 = actions@;
        if self.admission_open && self.transition.is_none() {
            actions.push(LifecycleAction::ReopenAdmission(self.current_work_tag()));
        }
        assert(actions@.subrange(0, a0.len() as int) =~= a0);
        assert forall|k: int| 0 <= k < actions@.len() implies !(#[trigger] actions@[k] is PhysicalAdvanceAllowed) by {
            if k < a0.len() {
                assert(actions@[k] == a0[k]);
            } else if k < a1.len() {
                assert(actions@[k] == t0[k - a0.len()]);
            }
        }
    }

    /// Mark the active transition's representative applied when it still
    /// awaits its outcome.
    fn mark_active_representative_applied(&mut self, active: LifecycleTransition, actions: &mut Vec<LifecycleAction<u32>>)
        requires
            old(self).wf(),
        ensures
            final(self).wf(),
            same_control(old(self), final(self)),
            final(self).state == old(self).state,
            final(self).recovery == old(self).recovery,
            final(self).admission_open == old(self).admission_open,
            final(self).next_transition_id == old(self).next_transition_id,
            final(self).topology_latch == old(self).topology_latch,
            appended_quietly(old(actions)@, final(actions)@),
            ({
                let reps = old(self).desired@.representatives;
                match applied_position(reps, active) {
                    Some(i) => {
                        &&& final(self).desired@ == (DesiredView {
                            representatives: reps.update(
                                i,
                                Representative { disposition: Some(Disposition::Applied(active.spec_id())), ..reps[i] },
                            ),
                            ..old(self).desired@
                        })
                        &&& final(actions)@ == old(actions)@.push(
                            LifecycleAction::DispositionChanged {
                                event_id: reps[i].event_id,
                                disposition: Disposition::Applied(active.spec_id()),
                            },
                        )
                    },
                    None => final(self).desired@ == old(self).desired@ && final(actions)@ == old(actions)@,
                }
            }),
    {
        let representative = match self.desired.representative(field_for_kind(active.kind)) {
            Some(representative) => representative,
            None => {
                return;
            },
        };
        if representative.kind != active.kind {
            return;
        }
        let awaiting = match representative.disposition {
            None => true,
            Some(Disposition::Deferred(_)) => true,
            Some(_) => false,
        };
        let ghost reps = self.desired@.representatives;
        let ghost i = super::desired::find_event(reps, representative.event_id, 0);
        assert(active.kind == active.spec_kind() && active.id == active.spec_id());
        if awaiting {
            let disposition = Disposition::Applied(active.id);
            let changed = self.desired.resolve_deferred(representative.event_id, disposition) || self.desired.set_disposition(
                representative.event_id,
                disposition,
            );
            assert(changed == (i < reps.len() && super::desired::rep_is_pending(reps[i])));
            if changed {
                actions.push(LifecycleAction::DispositionChanged { event_id: representative.event_id, disposition });
                assert(reps[i].event_id == representative.event_id) by {
                    super::desired::lemma_find_event(reps, representative.event_id, 0);
                }
            }
        }
    }

    /// The completion-unknown row of the transition active when a loss is
    /// observed; `None` when a boundary transition lacks its fresh id.
    fn unknown_row(&self, active_kind: LifecycleKind, boundary_recovery_id: Option<RecoveryId>) -> (r: Option<CompletionUnknownRow>)
        requires
            self.wf(),
        ensures
            r is None <==> (is_boundary_kind(active_kind) && boundary_recovery_id is None),
            r == unknown_row_for(active_kind, boundary_recovery_id, self.spec_desired().protocol_dpms_level),
    {
        match active_kind {
            LifecycleKind::Shutdown => Some(CompletionUnknownRow::Shutdown),
            LifecycleKind::DeviceRemoved => Some(CompletionUnknownRow::DeviceRemoved),
            LifecycleKind::VTRelease => Some(CompletionUnknownRow::VTRelease),
            LifecycleKind::DeviceAddedOrReplaced => match boundary_recovery_id {
                Some(recovery_id) => Some(CompletionUnknownRow::DeviceAddedOrReplaced { recovery_id }),
                None => None,
            },
            LifecycleKind::VTAcquire => match boundary_recovery_id {
                Some(recovery_id) => Some(CompletionUnknownRow::VTAcquire { recovery_id }),
                None => None,
            },
            LifecycleKind::AdministrativeReprobe => match boundary_recovery_id {
                Some(recovery_id) => Some(CompletionUnknownRow::AdministrativeReprobe { recovery_id }),
                None => None,
            },
            LifecycleKind::IdentityChangingHotplug => match boundary_recovery_id {
                Some(recovery_id) => Some(CompletionUnknownRow::IdentityChangingHotplug { recovery_id }),
                None => None,
            },
            LifecycleKind::TopologyRebuild => Some(CompletionUnknownRow::TopologyRebuild),
            LifecycleKind::DPMS => Some(CompletionUnknownRow::DPMS { target: self.current_dpms_target() }),
            LifecycleKind::NormalRecovery => Some(CompletionUnknownRow::NormalLive),
        }
    }

    fn apply_completion_unknown(&mut self, event_id: LifecycleEventId, boundary_recovery_id: Option<RecoveryId>) -> (r: Vec<LifecycleAction<u32>>)
        requires
            old(self).wf(),
        ensures
            final(self).wf(),
            epoch_advances(old(self), final(self)),
            advances_sound(final(self), r@),
            completion_unknown_applied(old(self), final(self), event_id, boundary_recovery_id, r@),
    {
        let active_kind = match self.transition {
            Some(transition) => transition.kind,
            None => LifecycleKind::NormalRecovery,
        };
        let row = match self.unknown_row(active_kind, boundary_recovery_id) {
            Some(row) => row,
            None => {
                let actions = vec![LifecycleAction::MissingBoundaryRecoveryId(active_kind)];
                assert(actions@ =~= seq![LifecycleAction::<u32>::MissingBoundaryRecoveryId(active_kind)]);
                return actions;
            },
        };
        assert(Some(row) == unknown_row_for(loss_kind(old(self)), boundary_recovery_id, old(self).spec_desired().protocol_dpms_level));
        let outcome = table_u(row, event_id, self.recovery);
        let mut actions: Vec<LifecycleAction<u32>> = Vec::new();
        assert(active_kind == loss_kind(old(self)));
        self.take_loss(event_id, row, outcome, active_kind, &mut actions);
        proof {
            lemma_loss_actions_shape(old(self), event_id, row, outcome);
        }
        let ghost at = loss_actions(old(self), event_id, row, outcome).len() - 3;
        let ghost marked = actions@;
        let ghost cut = self.transition;
        let recovery_transition_kind = if outcome.physical == PhysicalUnknownOutcome::TransferQuarantineToRebuildThenQualifiedInstall {
            LifecycleKind::TopologyRebuild
        } else {
            LifecycleKind::NormalRecovery
        };
        self.ensure_recovery_transition_as(recovery_transition_kind, &mut actions);
        proof {
            assert(actions@[marked.len() - 2] == marked[marked.len() - 2]);
            assert(actions@[marked.len() - 1] == marked[marked.len() - 1]);
            match outcome.recovery.new_incident {
                Some(seed) => {
                    assert(actions@[at as int] == marked[at as int]);
                    assert(actions@[at as int] == LifecycleAction::<u32>::AllocateRecoveryIncident { event_id, seed });
                },
                None => {},
            }
            assert(actions@.subrange(0, marked.len() as int) =~= marked);
        }
        actions
    }

    /// Take a completion loss's immediate actions: end the transition,
    /// release the seat and withdraw outputs as the outcome says, record its
    /// dispositions, request a fresh incident, take its incident and state,
    /// and report the row and its barriers.
    fn take_loss(
        &mut self,
        event_id: LifecycleEventId,
        row: CompletionUnknownRow,
        outcome: TableUOutcome,
        active_kind: LifecycleKind,
        actions: &mut Vec<LifecycleAction<u32>>,
    )
        requires
            old(self).wf(),
            old(actions)@.len() == 0,
            active_kind == loss_kind(old(self)),
        ensures
            final(self).wf(),
            final(self).incarnation == old(self).incarnation,
            final(self).epoch == old(self).epoch,
            final(self).fd_family_fenced == old(self).fd_family_fenced,
            final(self).next_transition_id == old(self).next_transition_id,
            final(self).transition is None,
            final(actions)@ == loss_actions(old(self), event_id, row, outcome),
            final(self).desired@ == (DesiredView {
                representatives: loss_reps(
                    old(self).desired@.representatives,
                    outcome,
                    active_kind == LifecycleKind::DPMS && outcome.logical.poison_device,
                ),
                ..old(self).desired@
            }),
            final(self).recovery == outcome.recovery.current_incident,
            outcome.logical.poison_device ==> final(self).state == DeviceLifecycleState::Poisoned && !final(self).admission_open,
            !outcome.logical.poison_device && outcome.logical.release_seat ==> final(self).state == DeviceLifecycleState::Quiescing
                && !final(self).admission_open,
            !outcome.logical.poison_device && !outcome.logical.release_seat ==> final(self).state == old(self).state,
            outcome.recovery.new_incident is Some ==> final(self).spec_pending_allocation_event() == Some(event_id),
    {
        let work_tag = self.current_work_tag();
        self.transition = None;
        self.coalesced_epoch_bumped = false;
        if outcome.logical.release_seat {
            actions.push(LifecycleAction::ReleaseSeat(work_tag));
        }
        if outcome.logical.withdraw_protocol_work {
            actions.push(LifecycleAction::WithdrawOutputs(work_tag));
            actions.push(LifecycleAction::TerminalizeProtocolWork(work_tag));
        }
        assert(actions@ =~= loss_logical_actions(outcome, work_tag_of(old(self))));
        let ghost logic = actions@;
        assert(active_kind == loss_kind(old(self)));
        self.record_loss_dispositions(event_id, outcome, active_kind, actions);
        let ghost reported = actions@;
        self.finish_loss(event_id, row, outcome, actions);
        assert(actions@ =~= loss_actions(old(self), event_id, row, outcome)) by {
            reveal(loss_actions);
        }
    }

    /// Request a completion loss's fresh incident, take its incident and
    /// device state, and report the row and its barriers.
    fn finish_loss(&mut self, event_id: LifecycleEventId, row: CompletionUnknownRow, outcome: TableUOutcome, actions: &mut Vec<LifecycleAction<u32>>)
        requires
            old(self).wf(),
            old(self).transition is None,
        ensures
            final(self).wf(),
            final(self).incarnation == old(self).incarnation,
            final(self).epoch == old(self).epoch,
            final(self).fd_family_fenced == old(self).fd_family_fenced,
            final(self).next_transition_id == old(self).next_transition_id,
            final(self).transition is None,
            final(self).desired == old(self).desired,
            final(actions)@ == old(actions)@ + (match outcome.recovery.new_incident {
                Some(seed) => seq![LifecycleAction::<u32>::AllocateRecoveryIncident { event_id, seed }],
                None => Seq::<LifecycleAction<u32>>::empty(),
            }) + seq![LifecycleAction::<u32>::CompletionLossTableU { row, outcome }, LifecycleAction::<u32>::CompletionBarriersRequired(outcome)],
            final(self).recovery == outcome.recovery.current_incident,
            outcome.logical.poison_device ==> final(self).state == DeviceLifecycleState::Poisoned && !final(self).admission_open,
            !outcome.logical.poison_device && outcome.logical.release_seat ==> final(self).state == DeviceLifecycleState::Quiescing
                && !final(self).admission_open,
            !outcome.logical.poison_device && !outcome.logical.release_seat ==> final(self).state == old(self).state,
            outcome.recovery.new_incident is Some ==> final(self).spec_pending_allocation_event() == Some(event_id),
    {
        let ghost a0 = actions@;
        match outcome.recovery.new_incident {
            Some(seed) => {
                self.pending_recovery_allocation = Some((event_id, seed));
                actions.push(LifecycleAction::AllocateRecoveryIncident { event_id, seed });
            },
            None => {},
        }
        self.recovery = outcome.recovery.current_incident;
        if outcome.logical.poison_device {
            self.state = DeviceLifecycleState::Poisoned;
            self.admission_open = false;
        } else if outcome.logical.release_seat {
            self.state = DeviceLifecycleState::Quiescing;
            self.admission_open = false;
        }
        actions.push(LifecycleAction::CompletionLossTableU { row, outcome });
        actions.push(LifecycleAction::CompletionBarriersRequired(outcome));
        assert(actions@ =~= a0 + (match outcome.recovery.new_incident {
            Some(seed) => seq![LifecycleAction::<u32>::AllocateRecoveryIncident { event_id, seed }],
            None => Seq::<LifecycleAction<u32>>::empty(),
        }) + seq![LifecycleAction::<u32>::CompletionLossTableU { row, outcome }, LifecycleAction::<u32>::CompletionBarriersRequired(outcome)]);
    }

    /// Record a completion loss's dispositions: the incident's
    /// representative, then its event (reported even when only the event
    /// itself ends), then a poisoned DPMS representative's deferral.
    fn record_loss_dispositions(
        &mut self,
        event_id: LifecycleEventId,
        outcome: TableUOutcome,
        active_kind: LifecycleKind,
        actions: &mut Vec<LifecycleAction<u32>>,
    )
        requires
            old(self).wf(),
        ensures
            final(self).wf(),
            same_control(old(self), final(self)),
            final(self).state == old(self).state,
            final(self).recovery == old(self).recovery,
            final(self).admission_open == old(self).admission_open,
            final(self).next_transition_id == old(self).next_transition_id,
            final(self).topology_latch == old(self).topology_latch,
            final(self).pending_recovery_allocation == old(self).pending_recovery_allocation,
            final(self).coalesced_epoch_bumped == old(self).coalesced_epoch_bumped,
            final(self).last_transition_id == old(self).last_transition_id,
            appended_quietly(old(actions)@, final(actions)@),
            final(actions)@ == old(actions)@ + loss_reports(
                old(self).desired@.representatives,
                outcome,
                event_id,
                active_kind == LifecycleKind::DPMS && outcome.logical.poison_device,
            ),
            final(self).desired@ == (DesiredView {
                representatives: loss_reps(
                    old(self).desired@.representatives,
                    outcome,
                    active_kind == LifecycleKind::DPMS && outcome.logical.poison_device,
                ),
                ..old(self).desired@
            }),
    {
        match outcome.recovery.representative_disposition {
            Some((event, disposition)) => {
                self.set_disposition(event, disposition, actions);
            },
            None => {},
        }
        self.record_lost_event(event_id, outcome, actions);
        if active_kind == LifecycleKind::DPMS && outcome.logical.poison_device {
            self.defer_poisoned_dpms(actions);
        }
        proof {
            reveal(loss_reports);
            assert(actions@ =~= old(actions)@ + loss_reports(
                old(self).desired@.representatives,
                outcome,
                event_id,
                active_kind == LifecycleKind::DPMS && outcome.logical.poison_device,
            ));
        }
    }

    /// Record a completion loss's event disposition, or report the lost
    /// event's own end.
    fn record_lost_event(&mut self, event_id: LifecycleEventId, outcome: TableUOutcome, actions: &mut Vec<LifecycleAction<u32>>)
        requires
            old(self).wf(),
        ensures
            final(self).wf(),
            same_control(old(self), final(self)),
            final(self).state == old(self).state,
            final(self).recovery == old(self).recovery,
            final(self).admission_open == old(self).admission_open,
            final(self).next_transition_id == old(self).next_transition_id,
            final(self).topology_latch == old(self).topology_latch,
            final(self).pending_recovery_allocation == old(self).pending_recovery_allocation,
            final(self).coalesced_epoch_bumped == old(self).coalesced_epoch_bumped,
            final(self).last_transition_id == old(self).last_transition_id,
            final(actions)@ == old(actions)@ + loss_event_report(old(self).desired@.representatives, outcome, event_id),
            final(self).desired@ == (DesiredView {
                representatives: disposition_update(old(self).desired@.representatives, outcome.recovery.event_disposition),
                ..old(self).desired@
            }),
    {
        let ghost a0 = actions@;
        match outcome.recovery.event_disposition {
            Some((event, disposition)) => {
                let recorded = self.set_disposition(event, disposition, actions);
                if event == event_id && !recorded {
                    actions.push(LifecycleAction::DispositionChanged { event_id: event, disposition });
                }
            },
            None => {
                match outcome.logical.event {
                    EventFate::Terminal { event_id: terminal_id, disposition } => {
                        if terminal_id == event_id {
                            actions.push(LifecycleAction::DispositionChanged { event_id, disposition });
                        }
                    },
                    EventFate::PendingRepresentative(_) => {},
                }
            },
        }
        assert(actions@ =~= a0 + loss_event_report(old(self).desired@.representatives, outcome, event_id));
    }

    /// Defer the DPMS representative until readiness returns.
    fn defer_poisoned_dpms(&mut self, actions: &mut Vec<LifecycleAction<u32>>)
        requires
            old(self).wf(),
        ensures
            final(self).wf(),
            same_control(old(self), final(self)),
            final(self).state == old(self).state,
            final(self).recovery == old(self).recovery,
            final(self).admission_open == old(self).admission_open,
            final(self).next_transition_id == old(self).next_transition_id,
            final(self).topology_latch == old(self).topology_latch,
            final(self).pending_recovery_allocation == old(self).pending_recovery_allocation,
            final(self).coalesced_epoch_bumped == old(self).coalesced_epoch_bumped,
            final(self).last_transition_id == old(self).last_transition_id,
            final(actions)@ == old(actions)@ + disposition_report(
                old(self).desired@.representatives,
                dpms_readiness_deferral(old(self).desired@.representatives),
            ),
            final(self).desired@ == (DesiredView {
                representatives: disposition_update(
                    old(self).desired@.representatives,
                    dpms_readiness_deferral(old(self).desired@.representatives),
                ),
                ..old(self).desired@
            }),
    {
        match self.desired.representative(DesiredField::Dpms) {
            Some(representative) => {
                self.set_disposition(representative.event_id, Disposition::Deferred(Prerequisite::ReadinessClosed), actions);
            },
            None => {
                assert(actions@ =~= old(actions)@ + Seq::<LifecycleAction<u32>>::empty());
            },
        }
    }

    fn apply_allocated_incident(&mut self, event_id: LifecycleEventId, incident: RecoveryIncident) -> (r: Vec<LifecycleAction<u32>>)
        requires
            old(self).wf(),
        ensures
            old(self).spec_pending_allocation_event() != Some(event_id) ==> r@.len() == 0 && *final(self) == *old(self),
            final(self).wf(),
            epoch_advances(old(self), final(self)),
            advances_sound(final(self), r@),
            old(self).spec_pending_allocation_event() == Some(event_id) ==> allocation_applied(old(self), final(self), event_id, incident, r@),
            old(self).spec_pending_allocation_event() == Some(event_id) ==> ({
                let d1 = incident_desired(old(self).desired@, event_id, incident);
                let report = incident_report(old(self).desired@, event_id, incident);
                &&& r@.len() >= report.len() && r@.subrange(0, report.len() as int) == report
                &&& final(self).state == old(self).state
                &&& desired_settled_from(d1, final(self).desired@)
                &&& old(self).transition is Some ==> {
                    &&& r@ == report
                    &&& final(self).transition == old(self).transition
                    &&& final(self).desired@ == d1
                    &&& final(self).recovery == Some(incident)
                    &&& final(self).pending_recovery_allocation is None
                }
                &&& old(self).transition is None && incident_ready(Some(incident)) && old(self).next_transition_id is Some ==> {
                    &&& final(self).transition matches Some(t) && t.id@ == old(self).next_transition_id->0 && t.kind == LifecycleKind::NormalRecovery
                    &&& r@ == report + safety_requests(
                        TransitionTag { incarnation: old(self).incarnation, lifecycle_epoch: old(self).epoch, transition: final(self).transition->0.id },
                        CommitProgress::NotSubmitted,
                    )
                    &&& final(self).desired@ == d1
                    &&& final(self).recovery == Some(incident)
                    &&& final(self).pending_recovery_allocation is None
                }
            }),
    {
        let pending_event = match self.pending_recovery_allocation {
            Some((pending_event, _)) => pending_event,
            None => {
                return Vec::new();
            },
        };
        if pending_event != event_id {
            return Vec::new();
        }
        self.pending_recovery_allocation = None;
        self.recovery = Some(incident);
        let mut actions: Vec<LifecycleAction<u32>> = Vec::new();
        match incident.origin() {
            IncidentOrigin::CompletionLoss { .. } => {
                let projection = self.desired.project(event_id, DesiredIntent::NormalRecovery { recovery_id: incident.id() });
                let ghost changes = projection.terminalized@;
                let mut i: usize = 0;
                while i < projection.terminalized.len()
                    invariant
                        0 <= i <= projection.terminalized@.len(),
                        changes == projection.terminalized@,
                        no_advance(actions@),
                        actions@ == changes.take(i as int).map_values(
                            |c: super::desired::DispositionChange| LifecycleAction::<u32>::DispositionChanged {
                                event_id: c.event_id,
                                disposition: c.disposition,
                            },
                        ),
                    decreases projection.terminalized@.len() - i,
                {
                    let terminal = projection.terminalized[i];
                    actions.push(LifecycleAction::DispositionChanged { event_id: terminal.event_id, disposition: terminal.disposition });
                    i = i + 1;
                    assert(actions@ =~= changes.take(i as int).map_values(
                        |c: super::desired::DispositionChange| LifecycleAction::<u32>::DispositionChanged {
                            event_id: c.event_id,
                            disposition: c.disposition,
                        },
                    ));
                }
                assert(changes.take(i as int) =~= changes);
                let ghost a1 = actions@;
                match projection.event_disposition {
                    Some(disposition) => {
                        actions.push(LifecycleAction::DispositionChanged { event_id, disposition });
                    },
                    None => {},
                }
                assert(actions@ =~= incident_report(old(self).desired@, event_id, incident));
            },
            IncidentOrigin::Boundary => {
                assert(actions@ =~= incident_report(old(self).desired@, event_id, incident));
            },
        }
        assert(self.desired@ == incident_desired(old(self).desired@, event_id, incident));
        let ghost report = actions@;
        self.ensure_recovery_transition(&mut actions);
        let converged = self.converge();
        let ghost a0 = actions@;
        let mut tail = converged;
        actions.append(&mut tail);
        assert forall|k: int| 0 <= k < actions@.len() implies !(#[trigger] actions@[k] is PhysicalAdvanceAllowed) by {
            if k < a0.len() {
                assert(actions@[k] == a0[k]);
            }
        }
        assert(actions@.subrange(0, report.len() as int) =~= report);
        actions
    }

    fn ensure_recovery_transition(&mut self, actions: &mut Vec<LifecycleAction<u32>>)
        requires
            old(self).wf(),
        ensures
            final(self).pending_recovery_allocation == old(self).pending_recovery_allocation,
            final(self).desired == old(self).desired,
            final(self).recovery == old(self).recovery,
            final(self).state == old(self).state,
            desired_settled_from(old(self).desired@, final(self).desired@),
            cancels_from(old(actions)@, final(actions)@, old(self).next_floor()),
            old(self).next_floor() <= final(self).next_floor(),
            final(self).wf(),
            final(self).incarnation == old(self).incarnation,
            final(self).epoch == old(self).epoch,
            final(self).fd_family_fenced == old(self).fd_family_fenced,
            old(self).transition is Some ==> final(self).transition == old(self).transition,
            appended_quietly(old(actions)@, final(actions)@),
            old(self).transition is None && recovery_ready(*old(self)) ==> started(
                *old(self),
                *final(self),
                LifecycleKind::NormalRecovery,
                old(actions)@,
                final(actions)@,
            ),
            !(old(self).transition is None && recovery_ready(*old(self))) ==> *final(self) == *old(self) && final(actions)@ == old(
                actions,
            )@,
    {
        self.ensure_recovery_transition_as(LifecycleKind::NormalRecovery, actions);
    }

    /// Start the recovery transition when an incident may still attempt and
    /// no transition is active.
    fn ensure_recovery_transition_as(&mut self, kind: LifecycleKind, actions: &mut Vec<LifecycleAction<u32>>)
        requires
            old(self).wf(),
        ensures
            final(self).pending_recovery_allocation == old(self).pending_recovery_allocation,
            final(self).desired == old(self).desired,
            final(self).recovery == old(self).recovery,
            final(self).state == old(self).state,
            desired_settled_from(old(self).desired@, final(self).desired@),
            cancels_from(old(actions)@, final(actions)@, old(self).next_floor()),
            old(self).next_floor() <= final(self).next_floor(),
            final(self).wf(),
            final(self).incarnation == old(self).incarnation,
            final(self).epoch == old(self).epoch,
            final(self).fd_family_fenced == old(self).fd_family_fenced,
            old(self).transition is Some ==> final(self).transition == old(self).transition,
            old(self).transition is None ==> final(self).transition is None || (old(self).next_transition_id is Some
                && final(self).transition->0.id@ == old(self).next_transition_id->0),
            appended_quietly(old(actions)@, final(actions)@),
            old(self).transition is None && recovery_ready(*old(self)) ==> started(*old(self), *final(self), kind, old(actions)@, final(actions)@),
            !(old(self).transition is None && recovery_ready(*old(self))) ==> *final(self) == *old(self) && final(actions)@ == old(
                actions,
            )@,
    {
        let ready = match self.recovery {
            Some(incident) => incident.state() == RecoveryIncidentState::Active && incident.budget()
                == RecoveryAttemptBudget::Available,
            None => false,
        };
        if self.transition.is_some() || !ready {
            return;
        }
        self.start_transition(kind, actions);
    }

    fn apply_recovery_attempt(&mut self, tag: TransitionTag<u32>, outcome: RecoveryAttemptOutcome) -> (r: Vec<LifecycleAction<u32>>)
        requires
            old(self).wf(),
        ensures
            final(self).wf(),
            epoch_advances(old(self), final(self)),
            advances_sound(final(self), r@),
            !is_current_tag(old(self), tag) ==> {
                &&& r@ == seq![LifecycleAction::<u32>::StaleResultIgnored { transition_id: Some(tag.transition) }]
                &&& *final(self) == *old(self)
            },
            is_current_tag(old(self), tag) ==> recovery_attempt_applied(old(self), final(self), outcome, r@),
    {
        if !self.is_current_transition_tag(&tag) {
            let actions = vec![LifecycleAction::StaleResultIgnored { transition_id: Some(tag.transition) }];
            assert(actions@ =~= seq![LifecycleAction::<u32>::StaleResultIgnored { transition_id: Some(tag.transition) }]);
            return actions;
        }
        let active = match self.transition {
            Some(t) => t,
            None => {
                return vec![LifecycleAction::StaleResultIgnored { transition_id: Some(tag.transition) }];
            },
        };
        match outcome {
            RecoveryAttemptOutcome::Started(trigger) => {
                let mut incident = match self.recovery {
                    Some(incident) => incident,
                    None => {
                        return Vec::new();
                    },
                };
                let authorized = active.phase == LifecycleTransitionPhase::PhysicalReady && trigger
                    == RecoveryAttemptTrigger::AfterReap && incident.state() == RecoveryIncidentState::Active
                    && incident.budget() == RecoveryAttemptBudget::Available;
                if !authorized {
                    return Vec::new();
                }
                let ghost before = incident;
                if !incident.request_attempt(trigger) {
                    return Vec::new();
                }
                proof {
                    before.lemma_parts();
                }
                self.recovery = Some(incident);
                self.state = DeviceLifecycleState::Recovering(incident.id());
                Vec::new()
            },
            RecoveryAttemptOutcome::Qualified | RecoveryAttemptOutcome::FailedOrUnknown => {
                let incident = match self.recovery {
                    Some(incident) => incident,
                    None => {
                        return Vec::new();
                    },
                };
                if self.state != DeviceLifecycleState::Recovering(incident.id()) || incident.state()
                    != RecoveryIncidentState::Attempting {
                    return Vec::new();
                }
                let qualified = outcome == RecoveryAttemptOutcome::Qualified;
                let resolution = incident.resolve(
                    if qualified {
                        RecoveryResolution::Qualified(active.id)
                    } else {
                        RecoveryResolution::Failed
                    },
                );
                assert(active.id == active.spec_id());
                if qualified {
                    return self.finish_qualified(active, resolution);
                }
                let mut actions: Vec<LifecycleAction<u32>> = Vec::new();
                match resolution.representative_disposition {
                    Some((event_id, disposition)) => {
                        self.set_disposition(event_id, disposition, &mut actions);
                    },
                    None => {},
                }
                assert(actions@ == disposition_report(old(self).spec_desired().representatives, resolution.representative_disposition));
                self.transition = None;
                self.coalesced_epoch_bumped = false;
                self.recovery = resolution.incident;
                self.state = DeviceLifecycleState::RecoveryFailed;
                self.admission_open = false;
                actions
            },
        }
    }

    /// Finish a qualified recovery attempt: record the incident's
    /// representative, end the transition, mark its own representative
    /// applied, make the device ready with admission open, forget a settled
    /// incident, then converge and reopen admission last when nothing starts.
    fn finish_qualified(&mut self, active: LifecycleTransition, resolution: super::recovery::IncidentResolution) -> (r: Vec<
        LifecycleAction<u32>,
    >)
        requires
            old(self).wf(),
            old(self).transition == Some(active),
            resolution.incident is None,
        ensures
            final(self).wf(),
            final(self).incarnation == old(self).incarnation,
            final(self).epoch == old(self).epoch,
            final(self).fd_family_fenced == old(self).fd_family_fenced,
            final(self).state == DeviceLifecycleState::Ready,
            final(self).recovery is None,
            final(self).transition is None || (old(self).next_transition_id is Some && final(self).transition->0.id@
                == old(self).next_transition_id->0),
            no_advance(r@),
            ({
                let d0 = old(self).desired@;
                let rd = resolution.representative_disposition;
                let report = disposition_report(d0.representatives, rd);
                let dq = qualified_desired(d0, active, resolution.id, rd);
                let pre = qualified_report(d0, active, rd);
                let st = DeviceLifecycleState::Ready;
                let la = old(self).topology_latch;
                let cands = converge_candidates(dq, st, dq.representatives);
                &&& r@.len() >= report.len() && r@.subrange(0, report.len() as int) == report
                &&& final(self).transition is None ==> r@.len() > 0 && r@.last() == LifecycleAction::<u32>::ReopenAdmission(
                    work_tag_of(final(self)),
                )
                &&& !has_eligible_in(dq, st, la) ==> {
                    &&& final(self).transition is None
                    &&& final(self).spec_desired() == (DesiredView { representatives: deferral_reps(dq, st, la, cands, dq.representatives), ..dq })
                    &&& r@ == pre + deferral_reports(dq, st, la, cands, dq.representatives) + seq![
                        LifecycleAction::<u32>::ReopenAdmission(work_tag_of(final(self))),
                    ]
                }
                &&& has_eligible_in(dq, st, la) ==> {
                    let w = converge_winner(dq, st, la, cands)->0;
                    let dm = DesiredView { representatives: deferral_reps(dq, st, la, cands, dq.representatives), ..dq };
                    &&& converge_winner(dq, st, la, cands) is Some
                    &&& highest_eligible_in(dq, st, la, w)
                    &&& final(self).spec_desired() == dm
                    &&& (old(self).next_transition_id is Some <==> final(self).transition is Some)
                    &&& final(self).spec_transition() matches Some(n) ==> n.spec_kind() == w.kind && n.spec_commit_progress()
                        == CommitProgress::NotSubmitted && !final(self).admission_open
                    &&& r@ == pre + deferral_reports(dq, st, la, cands, dq.representatives) + converge_tail(
                        old(self).incarnation,
                        old(self).epoch,
                        final(self).spec_transition(),
                        dm,
                        w,
                        None,
                    ) + (if final(self).transition is None {
                        seq![LifecycleAction::<u32>::ReopenAdmission(work_tag_of(final(self)))]
                    } else {
                        Seq::<LifecycleAction<u32>>::empty()
                    })
                }
            }),
    {
        let ghost d0 = old(self).desired@;
        let ghost rd = resolution.representative_disposition;
        let mut actions = self.prepare_qualified(active, resolution);
        let ghost mid = *self;
        let ghost a0 = actions@;
        let converged = self.converge();
        let ghost conv = converged@;
        let mut tail = converged;
        actions.append(&mut tail);
        assert forall|k: int| 0 <= k < actions@.len() implies !(#[trigger] actions@[k] is PhysicalAdvanceAllowed) by {
            if k < a0.len() {
                assert(actions@[k] == a0[k]);
            }
        }
        if self.admission_open && self.transition.is_none() {
            actions.push(LifecycleAction::ReopenAdmission(self.current_work_tag()));
        }
        proof {
            let report = disposition_report(d0.representatives, rd);
            assert forall|k: int| 0 <= k < report.len() implies actions@[k] == report[k] by {
                assert(a0[k] == report[k]);
                assert(actions@[k] == a0[k]);
            }
            assert(actions@.subrange(0, report.len() as int) =~= report);
            assert(mid.spec_recovery() is None);
            assert(convergence_open(&mid));
            if self.transition is None {
                assert(actions@ == a0 + conv + seq![LifecycleAction::<u32>::ReopenAdmission(work_tag_of(self))]);
            } else {
                assert(actions@ == a0 + conv);
            }
        }
        actions
    }

    /// Record a qualified attempt before convergence: the incident's
    /// representative, the transition ended and its own representative
    /// marked applied, the device ready with admission open and the
    /// incident forgotten once recovery has settled.
    fn prepare_qualified(&mut self, active: LifecycleTransition, resolution: super::recovery::IncidentResolution) -> (r: Vec<
        LifecycleAction<u32>,
    >)
        requires
            old(self).wf(),
            old(self).transition == Some(active),
            resolution.incident is None,
        ensures
            final(self).wf(),
            final(self).incarnation == old(self).incarnation,
            final(self).epoch == old(self).epoch,
            final(self).fd_family_fenced == old(self).fd_family_fenced,
            final(self).next_transition_id == old(self).next_transition_id,
            final(self).topology_latch == old(self).topology_latch,
            final(self).state == DeviceLifecycleState::Ready,
            final(self).admission_open,
            final(self).recovery is None,
            final(self).transition is None,
            final(self).desired@ == qualified_desired(old(self).desired@, active, resolution.id, resolution.representative_disposition),
            r@ == qualified_report(old(self).desired@, active, resolution.representative_disposition),
            r@.len() >= disposition_report(old(self).desired@.representatives, resolution.representative_disposition).len(),
            r@.subrange(0, disposition_report(old(self).desired@.representatives, resolution.representative_disposition).len() as int)
                == disposition_report(old(self).desired@.representatives, resolution.representative_disposition),
            no_advance(r@),
    {
        let mut actions: Vec<LifecycleAction<u32>> = Vec::new();
        match resolution.representative_disposition {
            Some((event_id, disposition)) => {
                self.set_disposition(event_id, disposition, &mut actions);
            },
            None => {},
        }
        let ghost report = actions@;
        assert(report == disposition_report(old(self).spec_desired().representatives, resolution.representative_disposition));
        self.transition = None;
        self.coalesced_epoch_bumped = false;
        let ghost d0 = old(self).desired@;
        let ghost rd = resolution.representative_disposition;
        let ghost r1 = disposition_update(d0.representatives, rd);
        assert(self.desired@ == (DesiredView { representatives: r1, ..d0 }));
        self.recovery = resolution.incident;
        if resolution.representative_disposition.is_none() || active.kind != LifecycleKind::NormalRecovery {
            self.mark_active_representative_applied(active, &mut actions);
        }
        assert(self.desired@ == (DesiredView {
            representatives: if qualified_marks(active, rd) {
                applied_update(r1, active)
            } else {
                r1
            },
            ..d0
        }));
        assert(actions@ =~= qualified_report(d0, active, rd));
        assert(actions@.subrange(0, report.len() as int) =~= report);
        self.state = DeviceLifecycleState::Ready;
        self.admission_open = true;
        self.desired.clear_recovery_incident(resolution.id);
        assert(self.desired@ == qualified_desired(d0, active, resolution.id, rd));
        actions
    }

    /// Bounded convergence: when no transition runs and readiness allows,
    /// classify each pending representative's prerequisite, defer (and
    /// report first) each candidate a prerequisite still blocks, and start
    /// the highest-precedence runnable one.
    pub fn converge(&mut self) -> (r: Vec<LifecycleAction<u32>>)
        requires
            old(self).wf(),
        ensures
            desired_settled_from(old(self).spec_desired(), final(self).spec_desired()),
            final(self).spec_desired().seat_target == old(self).spec_desired().seat_target && final(self).spec_desired().seat_epoch
                == old(self).spec_desired().seat_epoch,
            final(self).spec_topology_latch() == old(self).spec_topology_latch(),
            final(self).wf(),
            final(self).spec_incarnation() == old(self).spec_incarnation(),
            final(self).spec_epoch() == old(self).spec_epoch(),
            final(self).spec_fd_fenced() == old(self).spec_fd_fenced(),
            final(self).spec_state() == old(self).spec_state(),
            final(self).spec_transition() is None ==> final(self).spec_admission_open() == old(self).spec_admission_open(),
            no_advance(r@),
            old(self).spec_transition() is Some ==> r@.len() == 0 && *final(self) == *old(self),
            old(self).spec_transition() is None ==> final(self).spec_transition() is None || (old(self).spec_next_transition_id() is Some
                && final(self).spec_transition()->0.spec_id()@ == old(self).spec_next_transition_id()->0),
            converges_to_highest(old(self), final(self)),
            old(self).spec_transition() is None && convergence_open(old(self)) && has_eligible(old(self))
                && old(self).spec_next_transition_id() is Some ==> final(self).spec_transition() is Some,
            !convergence_open(old(self)) ==> r@.len() == 0 && *final(self) == *old(self),
            old(self).spec_recovery() is None ==> final(self).spec_recovery() is None,
            ({
                let d = old(self).spec_desired();
                let st = old(self).spec_state();
                let la = old(self).spec_topology_latch();
                let cands = converge_candidates(d, st, d.representatives);
                let dr = deferral_reports(d, st, la, cands, d.representatives);
                &&& old(self).spec_transition() is None && convergence_open(old(self)) ==> r@.len() >= dr.len() && r@.subrange(
                    0,
                    dr.len() as int,
                ) == dr
                &&& old(self).spec_transition() is None && convergence_open(old(self)) && !has_eligible_in(d, st, la) ==> {
                    &&& final(self).spec_desired() == (DesiredView { representatives: deferral_reps(d, st, la, cands, d.representatives), ..d })
                    &&& r@ == deferral_reports(d, st, la, cands, d.representatives)
                    &&& final(self).spec_transition() is None
                    &&& final(self).spec_recovery() == old(self).spec_recovery()
                }
                &&& old(self).spec_transition() is None && convergence_open(old(self)) && has_eligible_in(d, st, la) ==> {
                    let w = converge_winner(d, st, la, cands)->0;
                    let dm = DesiredView { representatives: deferral_reps(d, st, la, cands, d.representatives), ..d };
                    let o = winner_table_f(d, st, old(self).spec_recovery(), w);
                    &&& converge_winner(d, st, la, cands) is Some
                    &&& highest_eligible_in(d, st, la, w)
                    &&& final(self).spec_desired() == winner_desired(dm, old(self).spec_recovery(), o)
                    &&& final(self).spec_recovery() == winner_recovery(old(self).spec_recovery(), o)
                    &&& (old(self).spec_next_transition_id() is Some <==> final(self).spec_transition() is Some)
                    &&& final(self).spec_transition() matches Some(t) ==> t.spec_kind() == w.kind && t.spec_commit_progress()
                        == CommitProgress::NotSubmitted && !final(self).spec_admission_open()
                    &&& r@ == dr + converge_tail(old(self).spec_incarnation(), old(self).spec_epoch(), final(self).spec_transition(), dm, w, o)
                }
            }),
    {
        if self.transition.is_some() || (!self.admission_open && self.state == DeviceLifecycleState::Ready) || self.state
            == DeviceLifecycleState::Poisoned || self.state == DeviceLifecycleState::Removed || self.state
            == DeviceLifecycleState::ShutdownExecutorStalled {
            return Vec::new();
        }
        let mut actions: Vec<LifecycleAction<u32>> = Vec::new();
        let mut candidates: Vec<Representative> = Vec::new();
        let reps = self.desired.representatives();
        let ghost s0 = *self;
        let ghost runnable = |rep: Representative| rep.disposition is None || deferred_runnable(&s0, rep);
        let mut i: usize = 0;
        while i < reps.len()
            invariant
                0 <= i <= reps@.len(),
                *self == s0,
                reps@ == s0.spec_desired().representatives,
                runnable == (|rep: Representative| rep.disposition is None || deferred_runnable(&s0, rep)),
                forall|k: int| 0 <= k < candidates@.len() ==> runnable(#[trigger] candidates@[k]) && s0.spec_desired().representatives.contains(candidates@[k]),
                forall|m: int| 0 <= m < i && runnable(#[trigger] reps@[m]) ==> candidates@.contains(reps@[m]),
                candidates@ == converge_candidates(s0.spec_desired(), s0.spec_state(), reps@.take(i as int)),
            decreases reps@.len() - i,
        {
            let representative = reps[i];
            assert(reps@.take(i + 1).drop_last() =~= reps@.take(i as int));
            assert(reps@.take(i + 1).last() == reps@[i as int]);
            if representative.disposition.is_none() || self.deferred_is_runnable(representative) {
                let ghost before = candidates@;
                candidates.push(representative);
                proof {
                    assert(candidates@[before.len() as int] == representative);
                    assert forall|m: int| 0 <= m < i + 1 && runnable(#[trigger] reps@[m]) implies candidates@.contains(reps@[m]) by {
                        if m < i {
                            let k = choose|k: int| 0 <= k < before.len() && before[k] == reps@[m];
                            assert(candidates@[k] == reps@[m]);
                        }
                    }
                }
            }
            i = i + 1;
        }
        assert(reps@.take(i as int) =~= reps@);
        let ghost d0 = s0.spec_desired();
        let ghost st0 = s0.spec_state();
        let ghost la0 = s0.spec_topology_latch();
        let mut winner: Option<Representative> = None;
        let ghost inc0 = self.incarnation;
        let ghost ep0 = self.epoch;
        let ghost fd0 = self.fd_family_fenced;
        let mut j: usize = 0;
        while j < candidates.len()
            invariant
                0 <= j <= candidates@.len(),
                self.wf(),
                self.incarnation == inc0,
                self.epoch == ep0,
                self.fd_family_fenced == fd0,
                no_advance(actions@),
                self.transition is None,
                self.next_transition_id == old(self).next_transition_id,
                self.state == s0.state,
                self.admission_open == s0.admission_open,
                self.topology_latch == s0.topology_latch,
                self.desired@.seat_target == s0.desired@.seat_target,
                self.desired@.seat_epoch == s0.desired@.seat_epoch,
                desired_settled_from(s0.desired@, self.desired@),
                self.desired@.device_presence == s0.desired@.device_presence,
                self.desired@.discovery_epoch == s0.desired@.discovery_epoch,
                winner is None ==> forall|k: int| 0 <= k < j ==> start_prerequisite(&s0, (#[trigger] candidates@[k]).kind) is Some,
                winner == converge_winner(d0, st0, la0, candidates@.take(j as int)),
                d0 == s0.spec_desired() && st0 == s0.spec_state() && la0 == s0.spec_topology_latch(),
                self.desired@ == (DesiredView { representatives: deferral_reps(d0, st0, la0, candidates@.take(j as int), d0.representatives), ..d0 }),
                actions@ == deferral_reports(d0, st0, la0, candidates@.take(j as int), d0.representatives),
                self.recovery == s0.recovery,
                winner is Some ==> {
                    &&& candidates@.contains(winner->0)
                    &&& start_prerequisite(&s0, winner->0.kind) is None
                    &&& forall|k: int| 0 <= k < j && start_prerequisite(&s0, (#[trigger] candidates@[k]).kind) is None ==> kind_precedence(winner->0.kind)
                        <= kind_precedence(candidates@[k].kind)
                },
            decreases candidates@.len() - j,
        {
            let representative = candidates[j];
            assert(candidates@.take(j + 1).drop_last() =~= candidates@.take(j as int));
            assert(candidates@.take(j + 1).last() == representative);
            let ghost acts_before = actions@;
            match self.prerequisite_for(representative.kind) {
                Some(prerequisite) => {
                    let already = match representative.disposition {
                        Some(Disposition::Deferred(current)) => current == prerequisite,
                        _ => false,
                    };
                    if !already {
                        self.set_disposition(representative.event_id, Disposition::Deferred(prerequisite), &mut actions);
                    } else {
                        assert(actions@ =~= acts_before + Seq::<LifecycleAction<u32>>::empty());
                    }
                },
                None => {
                    winner = match winner {
                        Some(best) => if representative.kind.precedence() < best.kind.precedence() {
                            Some(representative)
                        } else {
                            Some(best)
                        },
                        None => Some(representative),
                    };
                    assert(actions@ =~= acts_before + Seq::<LifecycleAction<u32>>::empty());
                },
            }
            j = j + 1;
        }
        assert(candidates@.take(j as int) =~= candidates@);
        proof {
            if winner is Some {
                let k = choose|k: int| 0 <= k < candidates@.len() && candidates@[k] == winner->0;
                let w = winner->0;
                assert(runnable(w));
                let m = choose|m: int| 0 <= m < reps@.len() && reps@[m] == w;
                assert(has_eligible_in(d0, st0, la0)) by {
                    assert(d0.representatives[m] == w);
                }
            }
        }
        proof {
            if has_eligible(&s0) && winner is None {
                let i = choose|i: int| 0 <= i < s0.spec_desired().representatives.len() && eligible(&s0, #[trigger] s0.spec_desired().representatives[i]);
                assert(runnable(reps@[i]));
                assert(candidates@.contains(reps@[i]));
                let k = choose|k: int| 0 <= k < candidates@.len() && candidates@[k] == reps@[i];
                assert(start_prerequisite(&s0, candidates@[k].kind) is Some);
            }
            if has_eligible_in(d0, st0, la0) && winner is None {
                let i = choose|i: int|
                    0 <= i < d0.representatives.len() && (d0.representatives[i].disposition is None || runnable_in(d0, st0, #[trigger] d0.representatives[i]))
                        && prerequisite_in(d0, st0, la0, d0.representatives[i].kind) is None;
                assert(runnable(reps@[i]));
                assert(candidates@.contains(reps@[i]));
                let k = choose|k: int| 0 <= k < candidates@.len() && candidates@[k] == reps@[i];
                assert(start_prerequisite(&s0, candidates@[k].kind) is Some);
            }
            if winner is Some {
                let w = winner->0;
                let k = choose|k: int| 0 <= k < candidates@.len() && candidates@[k] == w;
                assert(s0.spec_desired().representatives.contains(candidates@[k]));
                assert(runnable(candidates@[k]));
                assert forall|i: int|
                    0 <= i < d0.representatives.len() && (d0.representatives[i].disposition is None || runnable_in(
                        d0,
                        st0,
                        #[trigger] d0.representatives[i],
                    )) && prerequisite_in(d0, st0, la0, d0.representatives[i].kind) is None implies kind_precedence(w.kind)
                    <= kind_precedence(d0.representatives[i].kind) by {
                    assert(runnable(reps@[i]));
                    assert(candidates@.contains(reps@[i]));
                    let k2 = choose|k2: int| 0 <= k2 < candidates@.len() && candidates@[k2] == reps@[i];
                    assert(start_prerequisite(&s0, candidates@[k2].kind) is None);
                }
                assert(highest_eligible_in(d0, st0, la0, w));
            }
        }
        let ghost dr = actions@;
        match winner {
            Some(winner) => {
                self.start_elected(winner, &mut actions);
            },
            None => {},
        }
        assert(actions@.subrange(0, dr.len() as int) =~= dr);
        actions
    }

    /// Start the elected representative's transition: its safety requests
    /// (or the exhaustion of ids), its table F fate when an incident is
    /// present, then its logical obligations.
    #[verifier::rlimit(60)]
    fn start_elected(&mut self, winner: Representative, actions: &mut Vec<LifecycleAction<u32>>)
        requires
            old(self).wf(),
            old(self).transition is None,
        ensures
            final(self).wf(),
            desired_settled_from(old(self).desired@, final(self).desired@),
            final(self).desired@.seat_target == old(self).desired@.seat_target && final(self).desired@.seat_epoch == old(self).desired@.seat_epoch,
            final(self).topology_latch == old(self).topology_latch,
            final(self).incarnation == old(self).incarnation,
            final(self).epoch == old(self).epoch,
            final(self).fd_family_fenced == old(self).fd_family_fenced,
            final(self).state == old(self).state,
            final(self).transition is None ==> final(self).admission_open == old(self).admission_open,
            appended_quietly(old(actions)@, final(actions)@),
            ({
                let o = winner_table_f(old(self).desired@, old(self).state, old(self).recovery, winner);
                &&& final(self).desired@ == winner_desired(old(self).desired@, old(self).recovery, o)
                &&& final(self).recovery == winner_recovery(old(self).recovery, o)
                &&& (old(self).next_transition_id is Some <==> final(self).transition is Some)
                &&& final(self).transition matches Some(t) ==> t.kind == winner.kind && t.commit_progress == CommitProgress::NotSubmitted
                    && !final(self).admission_open && t.id@ == old(self).next_transition_id->0
                &&& final(actions)@ == old(actions)@ + converge_tail(
                    old(self).incarnation,
                    old(self).epoch,
                    final(self).transition,
                    old(self).desired@,
                    winner,
                    o,
                )
            }),
    {
        let ghost a0 = actions@;
        self.start_transition(winner.kind, actions);
        let ghost s1 = *self;
        let ghost a1 = actions@;
        self.apply_recovery_winner(winner.kind, winner.event_id, actions);
        self.emit_logical_obligations(winner.kind, actions);
        proof {
            let o = winner_table_f(old(self).desired@, old(self).state, old(self).recovery, winner);
            assert(winner_for(s1, winner.kind) == recovery_winner_in(old(self).desired@, old(self).state, winner.kind));
            let start = match self.transition {
                Some(t) => safety_requests(
                    TransitionTag { incarnation: old(self).incarnation, lifecycle_epoch: old(self).epoch, transition: t.spec_id() },
                    CommitProgress::NotSubmitted,
                ),
                None => seq![LifecycleAction::<u32>::TransitionIdExhausted],
            };
            assert(a1 == a0 + start);
            assert(actions@ =~= a0 + converge_tail(old(self).incarnation, old(self).epoch, self.transition, old(self).desired@, winner, o));
        }
    }

    fn deferred_is_runnable(&self, representative: Representative) -> (r: bool)
        ensures
            r == deferred_runnable(self, representative),
    {
        match representative.disposition {
            Some(Disposition::Deferred(Prerequisite::SeatReleased)) => self.desired.seat_target() == Some(SeatTarget::Owned),
            Some(Disposition::Deferred(Prerequisite::DeviceAbsent)) => self.desired.device_presence() == Some(true),
            Some(Disposition::Deferred(Prerequisite::TopologyLatched(generation))) => match self.desired.discovery_epoch() {
                Some(current) => current != generation,
                None => false,
            },
            Some(Disposition::Deferred(Prerequisite::ReadinessClosed)) => self.state == DeviceLifecycleState::Ready,
            _ => false,
        }
    }

    fn prerequisite_for(&self, kind: LifecycleKind) -> (r: Option<Prerequisite>)
        ensures
            r == start_prerequisite(self, kind),
    {
        match kind {
            LifecycleKind::DeviceAddedOrReplaced => if self.desired.seat_target() != Some(SeatTarget::Owned) {
                Some(Prerequisite::SeatReleased)
            } else {
                None
            },
            LifecycleKind::VTAcquire => if self.desired.device_presence() != Some(true) {
                Some(Prerequisite::DeviceAbsent)
            } else {
                None
            },
            LifecycleKind::DPMS => {
                if self.state != DeviceLifecycleState::Ready {
                    Some(Prerequisite::ReadinessClosed)
                } else if self.desired.seat_target() == Some(SeatTarget::Released) {
                    Some(Prerequisite::SeatReleased)
                } else {
                    match self.topology_latch {
                        Some(generation) => match self.desired.discovery_epoch() {
                            Some(current) => if current == generation {
                                Some(Prerequisite::TopologyLatched(current))
                            } else {
                                None
                            },
                            None => Some(Prerequisite::TopologyLatched(generation)),
                        },
                        None => None,
                    }
                }
            },
            _ => None,
        }
    }

    fn set_disposition(&mut self, event_id: LifecycleEventId, disposition: Disposition, actions: &mut Vec<LifecycleAction<u32>>) -> (r: bool)
        requires
            old(self).wf(),
        ensures
            desired_settled_from(old(self).desired@, final(self).desired@),
            cancels_from(old(actions)@, final(actions)@, old(self).next_floor()),
            old(self).next_floor() <= final(self).next_floor(),
            final(self).wf(),
            same_control(old(self), final(self)),
            final(self).state == old(self).state,
            final(self).recovery == old(self).recovery,
            final(self).admission_open == old(self).admission_open,
            final(self).next_transition_id == old(self).next_transition_id,
            final(self).topology_latch == old(self).topology_latch,
            final(self).pending_recovery_allocation == old(self).pending_recovery_allocation,
            final(self).coalesced_epoch_bumped == old(self).coalesced_epoch_bumped,
            final(self).last_transition_id == old(self).last_transition_id,
            r ==> final(actions)@ == old(actions)@.push(LifecycleAction::DispositionChanged { event_id, disposition }),
            !r ==> final(actions)@ == old(actions)@,
            final(self).desired@ == (DesiredView { representatives: final(self).desired@.representatives, ..old(self).desired@ }),
            ({
                let reps = old(self).desired@.representatives;
                let i = super::desired::find_event(reps, event_id, 0);
                &&& r == (i < reps.len() && super::desired::rep_is_pending(reps[i]))
                &&& r ==> final(self).desired@.representatives == reps.update(i, Representative { disposition: Some(disposition), ..reps[i] })
                &&& !r ==> final(self).desired@ == old(self).desired@
            }),
    {
        let changed = if disposition.is_terminal() {
            self.desired.resolve_deferred(event_id, disposition) || self.desired.set_disposition(event_id, disposition)
        } else {
            self.desired.set_disposition(event_id, disposition)
        };
        if changed {
            actions.push(LifecycleAction::DispositionChanged { event_id, disposition });
        }
        changed
    }

    fn is_current_transition_tag(&self, tag: &TransitionTag<u32>) -> (r: bool)
        ensures
            r == (tag.incarnation == self.incarnation && (self.transition matches Some(t) && t.id == tag.transition)
                && tag.lifecycle_epoch == self.epoch),
    {
        self.matches_current_transition_id(tag) && tag.lifecycle_epoch == self.epoch
    }

    fn matches_current_transition_id(&self, tag: &TransitionTag<u32>) -> (r: bool)
        ensures
            r == (tag.incarnation == self.incarnation && (self.transition matches Some(t) && t.id == tag.transition)),
    {
        tag.incarnation == self.incarnation && match self.transition {
            Some(transition) => transition.id == tag.transition,
            None => false,
        }
    }

    fn is_current_ordinary_tag(&self, tag: &WorkTag<u32>) -> (r: bool)
        ensures
            r == (tag.incarnation == self.incarnation && tag.lifecycle_epoch == self.epoch && tag.transition is None
                && self.transition is None && self.admission_open && self.state == DeviceLifecycleState::Ready),
    {
        tag.incarnation == self.incarnation && tag.lifecycle_epoch == self.epoch && tag.transition.is_none()
            && self.transition.is_none() && self.admission_open && self.state == DeviceLifecycleState::Ready
    }

    fn tag_for(&self, transition: LifecycleTransitionId, epoch: LifecycleEpochId) -> (r: TransitionTag<u32>)
        ensures
            r == (TransitionTag { incarnation: self.incarnation, lifecycle_epoch: epoch, transition }),
    {
        TransitionTag::new(self.incarnation, epoch, transition)
    }

    fn current_work_tag(&self) -> (r: WorkTag<u32>)
        ensures
            r == (WorkTag {
                incarnation: self.incarnation,
                lifecycle_epoch: self.epoch,
                transition: match self.transition {
                    Some(t) => Some(t.id),
                    None => None,
                },
            }),
    {
        WorkTag {
            incarnation: self.incarnation,
            lifecycle_epoch: self.epoch,
            transition: match self.transition {
                Some(transition) => Some(transition.id),
                None => None,
            },
        }
    }

    fn force_epoch_bump(&mut self, actions: &mut Vec<LifecycleAction<u32>>)
        requires
            old(self).wf(),
        ensures
            desired_settled_from(old(self).desired@, final(self).desired@),
            cancels_from(old(actions)@, final(actions)@, old(self).next_floor()),
            old(self).next_floor() <= final(self).next_floor(),
            final(self).wf(),
            final(self).incarnation == old(self).incarnation,
            old(self).epoch@ <= final(self).epoch@,
            final(self).transition == old(self).transition,
            final(self).fd_family_fenced == old(self).fd_family_fenced,
            final(self).desired == old(self).desired,
            final(self).state == old(self).state,
            final(self).recovery == old(self).recovery,
            final(self).coalesced_epoch_bumped == old(self).coalesced_epoch_bumped,
            final(self).next_transition_id == old(self).next_transition_id,
            final(self).topology_latch == old(self).topology_latch,
            final(self).admission_open == old(self).admission_open,
            final(self).last_transition_id == old(self).last_transition_id,
            final(self).pending_recovery_allocation == old(self).pending_recovery_allocation,
            appended_quietly(old(actions)@, final(actions)@),
            old(self).epoch@ < u64::MAX ==> final(self).epoch@ == old(self).epoch@ + 1 && final(actions)@ == old(actions)@.push(
                LifecycleAction::EpochAdvanced(final(self).epoch),
            ),
            old(self).epoch@ == u64::MAX ==> final(self).epoch == old(self).epoch && final(actions)@ == old(actions)@.push(
                LifecycleAction::EpochExhausted,
            ),
    {
        match self.epoch.checked_next() {
            Some(next) => {
                self.epoch = next;
                actions.push(LifecycleAction::EpochAdvanced(next));
            },
            None => {
                actions.push(LifecycleAction::EpochExhausted);
            },
        }
    }

    /// Settle the active transition without a driver: mark its
    /// representative applied, clear it, and reopen a ready device.
    pub fn settle_active_as_applied(&mut self)
        requires
            old(self).wf(),
        ensures
            final(self).wf(),
            epoch_advances(old(self), final(self)),
            final(self).spec_transition() is None,
            final(self).spec_state() == DeviceLifecycleState::Ready,
            final(self).spec_admission_open(),
    {
        match self.transition {
            Some(active) => {
                let mut ignored: Vec<LifecycleAction<u32>> = Vec::new();
                self.mark_active_representative_applied(active, &mut ignored);
                self.transition = None;
            },
            None => {},
        }
        self.state = DeviceLifecycleState::Ready;
        self.admission_open = true;
    }

    /// Install a known recovery incident and device state, as a driver
    /// restoring a snapshot would.
    pub fn restore_recovery(&mut self, incident: Option<RecoveryIncident>, state: DeviceLifecycleState)
        requires
            old(self).wf(),
        ensures
            final(self).wf(),
            same_control(old(self), final(self)),
            final(self).spec_recovery() == incident,
            final(self).spec_state() == state,
            final(self).spec_desired() == old(self).spec_desired(),
    {
        self.recovery = incident;
        self.state = state;
    }
}

} // verus!
