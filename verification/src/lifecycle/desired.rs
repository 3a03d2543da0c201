//! Per-device desired lifecycle state and its bounded representative ledger.
use vstd::prelude::*;

use std::collections::BTreeMap;

use super::values::{
    disposition_is_terminal, Disposition, InvalidationReason, LifecycleEventId, LifecycleKind,
    RecoveryId,
};
use crate::sorted::{lemma_u32_keys_ordered, u32_keys_ordered};

verus! {

/// The fields with one current event representative in `LifecycleDesired`.
#[derive(Debug, Clone, Copy, PartialEq, Eq, Structural, Hash)]
pub enum DesiredField {
    Shutdown,
    Presence,
    Seat,
    AdministrativeReprobe,
    Topology,
    Dpms,
    Recovery,
}

/// The position of a field in `DesiredField::all()`.
pub open spec fn field_index(f: DesiredField) -> int {
    match f {
        DesiredField::Shutdown => 0,
        DesiredField::Presence => 1,
        DesiredField::Seat => 2,
        DesiredField::AdministrativeReprobe => 3,
        DesiredField::Topology => 4,
        DesiredField::Dpms => 5,
        DesiredField::Recovery => 6,
    }
}

impl DesiredField {
    /// All representative fields; independent of the number of events seen.
    pub fn all() -> (r: [Self; 7])
        ensures
            forall|i: int| 0 <= i < 7 ==> field_index(#[trigger] r@[i]) == i,
    {
        [
            Self::Shutdown,
            Self::Presence,
            Self::Seat,
            Self::AdministrativeReprobe,
            Self::Topology,
            Self::Dpms,
            Self::Recovery,
        ]
    }
}

/// Projected seat ownership target.
#[derive(Debug, Clone, Copy, PartialEq, Eq, Structural, Hash)]
pub enum SeatTarget {
    Owned,
    Released,
}

/// Whether topology dirtiness changes device identity or only discovered objects.
#[derive(Debug, Clone, Copy, PartialEq, Eq, Structural, Hash)]
pub enum TopologyChangeClass {
    SameIdentity,
    IdentityChanging,
}

/// A coordinator-projected lifecycle input. Epochs are supplied by the owner
/// above this pure layer; this type does not allocate or advance them.
#[derive(Debug, Clone, Copy, PartialEq, Eq, Structural, Hash)]
pub enum DesiredIntent {
    Shutdown,
    DevicePresence { present: bool, identity_epoch: u64 },
    Seat { target: SeatTarget, epoch: u64 },
    AdministrativeReprobe { epoch: u64 },
    Topology { discovery_epoch: u64, change_class: TopologyChangeClass },
    Dpms { level: u8, epoch: u64 },
    NormalRecovery { recovery_id: RecoveryId },
}

/// The lifecycle kind an intent stands for.
pub open spec fn intent_kind(intent: DesiredIntent) -> LifecycleKind {
    match intent {
        DesiredIntent::Shutdown => LifecycleKind::Shutdown,
        DesiredIntent::DevicePresence { present, .. } => if present {
            LifecycleKind::DeviceAddedOrReplaced
        } else {
            LifecycleKind::DeviceRemoved
        },
        DesiredIntent::Seat { target, .. } => match target {
            SeatTarget::Owned => LifecycleKind::VTAcquire,
            SeatTarget::Released => LifecycleKind::VTRelease,
        },
        DesiredIntent::AdministrativeReprobe { .. } => LifecycleKind::AdministrativeReprobe,
        DesiredIntent::Topology { change_class, .. } => match change_class {
            TopologyChangeClass::SameIdentity => LifecycleKind::TopologyRebuild,
            TopologyChangeClass::IdentityChanging => LifecycleKind::IdentityChangingHotplug,
        },
        DesiredIntent::Dpms { .. } => LifecycleKind::DPMS,
        DesiredIntent::NormalRecovery { .. } => LifecycleKind::NormalRecovery,
    }
}

/// The representative field a lifecycle kind is recorded under.
pub open spec fn kind_field(kind: LifecycleKind) -> DesiredField {
    match kind {
        LifecycleKind::Shutdown => DesiredField::Shutdown,
        LifecycleKind::DeviceRemoved | LifecycleKind::DeviceAddedOrReplaced => DesiredField::Presence,
        LifecycleKind::VTRelease | LifecycleKind::VTAcquire => DesiredField::Seat,
        LifecycleKind::AdministrativeReprobe => DesiredField::AdministrativeReprobe,
        LifecycleKind::IdentityChangingHotplug | LifecycleKind::TopologyRebuild => DesiredField::Topology,
        LifecycleKind::DPMS => DesiredField::Dpms,
        LifecycleKind::NormalRecovery => DesiredField::Recovery,
    }
}

impl DesiredIntent {
    pub fn kind(self) -> (r: LifecycleKind)
        ensures
            r == intent_kind(self),
    {
        match self {
            Self::Shutdown => LifecycleKind::Shutdown,
            Self::DevicePresence { present, .. } => if present {
                LifecycleKind::DeviceAddedOrReplaced
            } else {
                LifecycleKind::DeviceRemoved
            },
            Self::Seat { target, .. } => match target {
                SeatTarget::Owned => LifecycleKind::VTAcquire,
                SeatTarget::Released => LifecycleKind::VTRelease,
            },
            Self::AdministrativeReprobe { .. } => LifecycleKind::AdministrativeReprobe,
            Self::Topology { change_class, .. } => match change_class {
                TopologyChangeClass::SameIdentity => LifecycleKind::TopologyRebuild,
                TopologyChangeClass::IdentityChanging => LifecycleKind::IdentityChangingHotplug,
            },
            Self::Dpms { .. } => LifecycleKind::DPMS,
            Self::NormalRecovery { .. } => LifecycleKind::NormalRecovery,
        }
    }

    /// The representative field this intent is recorded under.
    pub fn field(self) -> (r: DesiredField)
        ensures
            r == kind_field(intent_kind(self)),
    {
        match self.kind() {
            LifecycleKind::Shutdown => DesiredField::Shutdown,
            LifecycleKind::DeviceRemoved | LifecycleKind::DeviceAddedOrReplaced => DesiredField::Presence,
            LifecycleKind::VTRelease | LifecycleKind::VTAcquire => DesiredField::Seat,
            LifecycleKind::AdministrativeReprobe => DesiredField::AdministrativeReprobe,
            LifecycleKind::IdentityChangingHotplug | LifecycleKind::TopologyRebuild => DesiredField::Topology,
            LifecycleKind::DPMS => DesiredField::Dpms,
            LifecycleKind::NormalRecovery => DesiredField::Recovery,
        }
    }
}

/// The current representative and its optional arbiter disposition.
/// `None` means it is projected and awaits arbitration; `Deferred` is the only
/// nonterminal disposition once the arbiter has classified it.
#[derive(Debug, Clone, Copy, PartialEq, Eq, Structural)]
pub struct Representative {
    pub field: DesiredField,
    pub event_id: LifecycleEventId,
    pub kind: LifecycleKind,
    pub disposition: Option<Disposition>,
}

/// One event that reached a terminal disposition during this projection.
#[derive(Debug, Clone, Copy, PartialEq, Eq, Structural)]
pub struct DispositionChange {
    pub event_id: LifecycleEventId,
    pub disposition: Disposition,
}

/// Immediate result of projecting one event. Terminal history is returned to
/// the caller and is not retained, keeping the snapshot bounded by fields.
#[derive(Debug, Clone, PartialEq, Eq, Default)]
pub struct ProjectionResult {
    pub event_disposition: Option<Disposition>,
    pub terminalized: Vec<DispositionChange>,
}

/// One DPMS target in the current stable protocol-output domain.
#[derive(Debug, Clone, Copy, PartialEq, Eq, Structural)]
pub struct OutputProjection {
    pub level: u8,
    pub epoch: Option<u64>,
    pub representative: Option<LifecycleEventId>,
}

/// One output projection forgotten because its stable protocol output left
/// the current domain. This does not terminalize the shared DPMS request.
#[derive(Debug, Clone, Copy, PartialEq, Eq, Structural)]
pub struct OutputProjectionRemoval {
    pub projection: OutputProjection,
    pub reason: InvalidationReason,
}

/// The mathematical content of a `LifecycleDesired` snapshot.
pub struct DesiredView {
    pub shutdown_requested: bool,
    pub device_presence: Option<bool>,
    pub identity_epoch: Option<u64>,
    pub seat_target: Option<SeatTarget>,
    pub seat_epoch: Option<u64>,
    pub administrative_reprobe_epoch: Option<u64>,
    pub topology_dirty: bool,
    pub discovery_epoch: Option<u64>,
    pub change_class: Option<TopologyChangeClass>,
    pub protocol_dpms_level: u8,
    pub projected_dpms_epoch: Option<u64>,
    pub dpms_targets: Map<u32, OutputProjection>,
    pub recovery_incident: Option<RecoveryId>,
    pub representatives: Seq<Representative>,
}

/// The projection a newly added output inherits: the latest global DPMS
/// level and epoch, under the current DPMS representative.
pub open spec fn inherited_projection(d: DesiredView) -> OutputProjection {
    OutputProjection {
        level: d.protocol_dpms_level,
        epoch: d.projected_dpms_epoch,
        representative: match rep_for(d.representatives, DesiredField::Dpms) {
            Some(e) => Some(e.event_id),
            None => None,
        },
    }
}

/// The snapshot before any event has been projected.
pub open spec fn initial_desired() -> DesiredView {
    DesiredView {
        shutdown_requested: false,
        device_presence: None,
        identity_epoch: None,
        seat_target: None,
        seat_epoch: None,
        administrative_reprobe_epoch: None,
        topology_dirty: false,
        discovery_epoch: None,
        change_class: None,
        protocol_dpms_level: 0,
        projected_dpms_epoch: None,
        dpms_targets: Map::empty(),
        recovery_incident: None,
        representatives: Seq::empty(),
    }
}

/// At most one representative per field.
pub open spec fn fields_distinct(reps: Seq<Representative>) -> bool {
    forall|i: int, j: int| 0 <= i < j < reps.len() ==> reps[i].field != reps[j].field
}

/// Index of the first representative of `f` at or after `from`, or the
/// length when there is none.
pub open spec fn find_field(reps: Seq<Representative>, f: DesiredField, from: int) -> int
    decreases reps.len() - from,
{
    if from < 0 || from >= reps.len() {
        reps.len() as int
    } else if reps[from].field == f {
        from
    } else {
        find_field(reps, f, from + 1)
    }
}

/// Index of the first representative of event `id` at or after `from`, or
/// the length when there is none.
pub open spec fn find_event(reps: Seq<Representative>, id: LifecycleEventId, from: int) -> int
    decreases reps.len() - from,
{
    if from < 0 || from >= reps.len() {
        reps.len() as int
    } else if reps[from].event_id == id {
        from
    } else {
        find_event(reps, id, from + 1)
    }
}

/// The current representative of a field.
pub open spec fn rep_for(reps: Seq<Representative>, f: DesiredField) -> Option<Representative> {
    let i = find_field(reps, f, 0);
    if i < reps.len() {
        Some(reps[i])
    } else {
        None
    }
}

/// The recorded disposition of an event's representative.
pub open spec fn disposition_of(reps: Seq<Representative>, id: LifecycleEventId) -> Option<Disposition> {
    let i = find_event(reps, id, 0);
    if i < reps.len() {
        reps[i].disposition
    } else {
        None
    }
}

/// A representative without a terminal disposition.
pub open spec fn rep_is_pending(r: Representative) -> bool {
    match r.disposition {
        Some(d) => !disposition_is_terminal(d),
        None => true,
    }
}

/// A terminal disposition is final: when the event's representative
/// already holds a terminal disposition, or no representative carries the
/// event, `set_disposition` accepts no disposition for it, so it returns
/// `false` and the snapshot keeps its disposition.
pub proof fn lemma_terminal_disposition_is_immutable(reps: Seq<Representative>, event_id: LifecycleEventId)
    requires
        (disposition_of(reps, event_id) matches Some(t) && disposition_is_terminal(t)) || find_event(reps, event_id, 0) >= reps.len(),
    ensures
        !(find_event(reps, event_id, 0) < reps.len() && rep_is_pending(reps[find_event(reps, event_id, 0)])),
{
}

/// The invalidations of every pending representative among the first `n`.
pub open spec fn pending_invalidations(reps: Seq<Representative>, n: int, reason: InvalidationReason) -> Seq<DispositionChange>
    decreases n,
{
    if n <= 0 {
        Seq::empty()
    } else {
        let prefix = pending_invalidations(reps, n - 1, reason);
        if rep_is_pending(reps[n - 1]) {
            prefix.push(DispositionChange { event_id: reps[n - 1].event_id, disposition: Disposition::Invalidated(reason) })
        } else {
            prefix
        }
    }
}

/// The recovery representative has reached a terminal disposition.
pub open spec fn recovery_settled(reps: Seq<Representative>) -> bool {
    match rep_for(reps, DesiredField::Recovery) {
        Some(rep) => match rep.disposition {
            Some(d) => disposition_is_terminal(d),
            None => false,
        },
        None => false,
    }
}

/// The existing representative that absorbs an equal-kind event, if any.
pub open spec fn absorbing_representative(s: DesiredView, intent: DesiredIntent) -> Option<Representative> {
    let kind = intent_kind(intent);
    match rep_for(s.representatives, kind_field(kind)) {
        Some(e) => if (kind == LifecycleKind::Shutdown && e.kind == kind) || (kind == LifecycleKind::DeviceRemoved
            && e.kind == kind) || (kind == LifecycleKind::NormalRecovery && s.recovery_incident is Some) {
            Some(e)
        } else {
            None
        },
        None => None,
    }
}

/// Every event other than shutdown is refused once shutdown is requested.
pub open spec fn refused_by_shutdown(s: DesiredView, intent: DesiredIntent) -> bool {
    s.shutdown_requested && intent_kind(intent) != LifecycleKind::Shutdown
}

/// Shutdown latches and forgets every representative and the incident.
pub open spec fn staged(s: DesiredView, intent: DesiredIntent) -> DesiredView {
    if intent_kind(intent) == LifecycleKind::Shutdown {
        DesiredView { shutdown_requested: true, representatives: Seq::empty(), recovery_incident: None, ..s }
    } else {
        s
    }
}

/// The changes reported by the shutdown latch.
pub open spec fn staged_changes(s: DesiredView, intent: DesiredIntent) -> Seq<DispositionChange> {
    if intent_kind(intent) == LifecycleKind::Shutdown {
        pending_invalidations(s.representatives, s.representatives.len() as int, InvalidationReason::Shutdown)
    } else {
        Seq::empty()
    }
}

/// The projection every current output takes from a DPMS request.
pub open spec fn dpms_projection(level: u8, epoch: u64, event_id: LifecycleEventId) -> OutputProjection {
    OutputProjection { level, epoch: Some(epoch), representative: Some(event_id) }
}

/// The desired fields an intent sets.
pub open spec fn with_intent(s: DesiredView, event_id: LifecycleEventId, intent: DesiredIntent) -> DesiredView {
    match intent {
        DesiredIntent::Shutdown => s,
        DesiredIntent::DevicePresence { present, identity_epoch } => DesiredView {
            device_presence: Some(present),
            identity_epoch: Some(identity_epoch),
            ..s
        },
        DesiredIntent::Seat { target, epoch } => DesiredView { seat_target: Some(target), seat_epoch: Some(epoch), ..s },
        DesiredIntent::AdministrativeReprobe { epoch } => DesiredView { administrative_reprobe_epoch: Some(epoch), ..s },
        DesiredIntent::Topology { discovery_epoch, change_class } => DesiredView {
            topology_dirty: true,
            discovery_epoch: Some(discovery_epoch),
            change_class: Some(change_class),
            ..s
        },
        DesiredIntent::Dpms { level, epoch } => DesiredView {
            protocol_dpms_level: level,
            projected_dpms_epoch: Some(epoch),
            dpms_targets: s.dpms_targets.map_values(|p: OutputProjection| dpms_projection(level, epoch, event_id)),
            ..s
        },
        DesiredIntent::NormalRecovery { recovery_id } => DesiredView { recovery_incident: Some(recovery_id), ..s },
    }
}

/// The fresh representative an accepted event installs.
pub open spec fn new_representative(event_id: LifecycleEventId, intent: DesiredIntent) -> Representative {
    Representative {
        field: kind_field(intent_kind(intent)),
        event_id,
        kind: intent_kind(intent),
        disposition: None,
    }
}

/// The snapshot after an accepted event: its fields set and it installed as
/// its field's representative, in place of any earlier one.
pub open spec fn accepted_state(s: DesiredView, event_id: LifecycleEventId, intent: DesiredIntent) -> DesiredView {
    let t = with_intent(staged(s, intent), event_id, intent);
    let reps = t.representatives;
    let i = find_field(reps, kind_field(intent_kind(intent)), 0);
    DesiredView {
        representatives: if i < reps.len() {
            reps.update(i, new_representative(event_id, intent))
        } else {
            reps.push(new_representative(event_id, intent))
        },
        ..t
    }
}

/// The terminal history an accepted event produces: the shutdown
/// invalidations, then the supersession of a pending displaced representative.
pub open spec fn accepted_changes(s: DesiredView, event_id: LifecycleEventId, intent: DesiredIntent) -> Seq<DispositionChange> {
    let reps = staged(s, intent).representatives;
    let i = find_field(reps, kind_field(intent_kind(intent)), 0);
    staged_changes(s, intent) + if i < reps.len() && rep_is_pending(reps[i]) {
        seq![DispositionChange { event_id: reps[i].event_id, disposition: Disposition::SupersededBy(event_id) }]
    } else {
        Seq::<DispositionChange>::empty()
    }
}

/// The immediate disposition of a projected event.
pub open spec fn projection_disposition(s: DesiredView, intent: DesiredIntent) -> Option<Disposition> {
    match absorbing_representative(s, intent) {
        Some(e) => Some(Disposition::AbsorbedByEvent(e.event_id)),
        None => if refused_by_shutdown(s, intent) {
            Some(Disposition::Invalidated(InvalidationReason::Shutdown))
        } else {
            None
        },
    }
}

/// The snapshot after projecting an event.
pub open spec fn projection_state(s: DesiredView, event_id: LifecycleEventId, intent: DesiredIntent) -> DesiredView {
    if absorbing_representative(s, intent) is Some || refused_by_shutdown(s, intent) {
        s
    } else {
        accepted_state(s, event_id, intent)
    }
}

/// The terminal history reported by projecting an event.
pub open spec fn projection_changes(s: DesiredView, event_id: LifecycleEventId, intent: DesiredIntent) -> Seq<DispositionChange> {
    if absorbing_representative(s, intent) is Some || refused_by_shutdown(s, intent) {
        Seq::empty()
    } else {
        accepted_changes(s, event_id, intent)
    }
}

proof fn lemma_find_field(reps: Seq<Representative>, f: DesiredField, from: int)
    requires
        0 <= from <= reps.len(),
    ensures
        from <= find_field(reps, f, from) <= reps.len(),
        find_field(reps, f, from) < reps.len() ==> reps[find_field(reps, f, from)].field == f,
        forall|j: int| from <= j < find_field(reps, f, from) ==> reps[j].field != f,
    decreases reps.len() - from,
{
    if from < reps.len() && reps[from].field != f {
        lemma_find_field(reps, f, from + 1);
    }
}

pub(crate) proof fn lemma_find_event(reps: Seq<Representative>, id: LifecycleEventId, from: int)
    requires
        0 <= from <= reps.len(),
    ensures
        from <= find_event(reps, id, from) <= reps.len(),
        find_event(reps, id, from) < reps.len() ==> reps[find_event(reps, id, from)].event_id == id,
        forall|j: int| from <= j < find_event(reps, id, from) ==> reps[j].event_id != id,
    decreases reps.len() - from,
{
    if from < reps.len() && reps[from].event_id != id {
        lemma_find_event(reps, id, from + 1);
    }
}

/// Law: representatives with distinct fields number at most one per field.
pub proof fn lemma_distinct_fields_bounded(reps: Seq<Representative>)
    requires
        fields_distinct(reps),
    ensures
        reps.len() <= 7,
{
    let idx = reps.map_values(|r: Representative| field_index(r.field));
    assert(idx.no_duplicates()) by {
        assert forall|i: int, j: int| 0 <= i < idx.len() && 0 <= j < idx.len() && i != j implies idx[i] != idx[j] by {
            if i < j {
                assert(reps[i].field != reps[j].field);
            } else {
                assert(reps[j].field != reps[i].field);
            }
        }
    }
    idx.unique_seq_to_set();
    vstd::set_lib::lemma_int_range(0, 7);
    assert(idx.to_set().subset_of(vstd::set_lib::set_int_range(0, 7)));
    vstd::set_lib::lemma_len_subset(idx.to_set(), vstd::set_lib::set_int_range(0, 7));
}

/// Every entry of a pending-invalidation history is an invalidation.
proof fn lemma_pending_invalidations_terminal(reps: Seq<Representative>, n: int, reason: InvalidationReason)
    requires
        0 <= n <= reps.len(),
    ensures
        forall|k: int| 0 <= k < pending_invalidations(reps, n, reason).len()
            ==> #[trigger] pending_invalidations(reps, n, reason)[k].disposition == Disposition::Invalidated(reason),
    decreases n,
{
    if n > 0 {
        lemma_pending_invalidations_terminal(reps, n - 1, reason);
    }
}

/// Law: projecting an event classifies it. Every change it reports is
/// terminal; its own disposition, when it gets one at once, is terminal; and
/// when it gets none, it is retained as a representative. The snapshot stays
/// bounded by one representative per field.
pub proof fn lemma_projection_classifies_event(s: DesiredView, event_id: LifecycleEventId, intent: DesiredIntent)
    requires
        fields_distinct(s.representatives),
    ensures
        forall|k: int| 0 <= k < projection_changes(s, event_id, intent).len()
            ==> disposition_is_terminal(#[trigger] projection_changes(s, event_id, intent)[k].disposition),
        projection_disposition(s, intent) matches Some(d) ==> disposition_is_terminal(d),
        projection_disposition(s, intent) is None ==> exists|k: int|
            0 <= k < projection_state(s, event_id, intent).representatives.len()
                && (#[trigger] projection_state(s, event_id, intent).representatives[k]).event_id == event_id,
        fields_distinct(projection_state(s, event_id, intent).representatives),
        projection_state(s, event_id, intent).representatives.len() <= 7,
{
    let st = staged(s, intent);
    let reps = st.representatives;
    let f = kind_field(intent_kind(intent));
    lemma_find_field(reps, f, 0);
    lemma_pending_invalidations_terminal(s.representatives, s.representatives.len() as int, InvalidationReason::Shutdown);
    let out = projection_state(s, event_id, intent);
    if projection_disposition(s, intent) is None {
        let i = find_field(reps, f, 0);
        let t = with_intent(st, event_id, intent);
        assert(t.representatives == reps);
        if i < reps.len() {
            assert(out.representatives[i].event_id == event_id);
        } else {
            assert(out.representatives[reps.len() as int].event_id == event_id);
        }
        let changes = projection_changes(s, event_id, intent);
        let head = staged_changes(s, intent);
        assert forall|k: int| 0 <= k < changes.len() implies disposition_is_terminal(#[trigger] changes[k].disposition) by {
            if k < head.len() {
                assert(changes[k] == head[k]);
            }
        }
    }
    lemma_distinct_fields_bounded(out.representatives);
}

/// The per-device desired snapshot.
///
/// `O` is the caller's stable protocol-output identity type. Only currently
/// present outputs are retained in the DPMS projection map.
#[derive(Debug, PartialEq, Eq)]
pub struct LifecycleDesired<O> {
    shutdown_requested: bool,
    device_presence: Option<bool>,
    identity_epoch: Option<u64>,
    seat_target: Option<SeatTarget>,
    seat_epoch: Option<u64>,
    administrative_reprobe_epoch: Option<u64>,
    topology_dirty: bool,
    discovery_epoch: Option<u64>,
    change_class: Option<TopologyChangeClass>,
    protocol_dpms_level: u8,
    projected_dpms_epoch: Option<u64>,
    dpms_targets: BTreeMap<O, OutputProjection>,
    recovery_incident: Option<RecoveryId>,
    representatives: Vec<Representative>,
}

impl<O> LifecycleDesired<O> {
    /// One representative per field at most.
    #[verifier::type_invariant]
    spec fn one_representative_per_field(self) -> bool {
        fields_distinct(self.representatives@)
    }
}

impl View for LifecycleDesired<u32> {
    type V = DesiredView;

    closed spec fn view(&self) -> DesiredView {
        DesiredView {
            shutdown_requested: self.shutdown_requested,
            device_presence: self.device_presence,
            identity_epoch: self.identity_epoch,
            seat_target: self.seat_target,
            seat_epoch: self.seat_epoch,
            administrative_reprobe_epoch: self.administrative_reprobe_epoch,
            topology_dirty: self.topology_dirty,
            discovery_epoch: self.discovery_epoch,
            change_class: self.change_class,
            protocol_dpms_level: self.protocol_dpms_level,
            projected_dpms_epoch: self.projected_dpms_epoch,
            dpms_targets: self.dpms_targets@,
            recovery_incident: self.recovery_incident,
            representatives: self.representatives@,
        }
    }
}

impl Default for LifecycleDesired<u32> {
    fn default() -> (r: Self)
        ensures
            r@ == initial_desired(),
    {
        LifecycleDesired {
            shutdown_requested: false,
            device_presence: None,
            identity_epoch: None,
            seat_target: None,
            seat_epoch: None,
            administrative_reprobe_epoch: None,
            topology_dirty: false,
            discovery_epoch: None,
            change_class: None,
            protocol_dpms_level: 0,
            projected_dpms_epoch: None,
            dpms_targets: BTreeMap::new(),
            recovery_incident: None,
            representatives: Vec::new(),
        }
    }
}

/// The keys of an output map.
fn output_keys(m: &BTreeMap<u32, OutputProjection>) -> (r: Vec<u32>)
    ensures
        r@.to_set() == m@.dom(),
{
    broadcast use vstd::std_specs::btree::group_btree_axioms;

    proof {
        lemma_u32_keys_ordered();
    }
    let mut out: Vec<u32> = Vec::new();
    for k in it: m.keys()
        invariant
            out@ == it.seq().take(it.index() as int).unref(),
            it.seq().unref().to_set() == m@.dom(),
            it.index() == it.seq().len() ==> out@.to_set() == m@.dom(),
    {
        out.push(*k);
        assert(it.index() + 1 == it.seq().len() ==> it.seq().take(it.index() + 1) =~= it.seq());
        assert(it.index() + 1 == it.seq().len() ==> out@ =~= it.seq().unref());
    }
    out
}

/// Give every output in the map the same projection.
fn retarget_all(m: &mut BTreeMap<u32, OutputProjection>, p: OutputProjection)
    ensures
        final(m)@ == old(m)@.map_values(|q: OutputProjection| p),
{
    proof {
        lemma_u32_keys_ordered();
    }
    let keys = output_keys(m);
    let ghost before = m@;
    let mut i: usize = 0;
    while i < keys.len()
        invariant
            0 <= i <= keys@.len(),
            keys@.to_set() == before.dom(),
            m@.dom() == before.dom(),
            u32_keys_ordered(),
            forall|n: int| 0 <= n < i ==> #[trigger] m@[keys@[n]] == p,
        decreases keys@.len() - i,
    {
        let k = keys[i];
        assert(keys@.to_set().contains(k));
        m.insert(k, p);
        assert(m@.dom() =~= before.dom());
        i = i + 1;
    }
    assert forall|x: u32| #[trigger] m@.contains_key(x) implies m@[x] == p by {
        assert(keys@.to_set().contains(x));
        let n = choose|n: int| 0 <= n < keys@.len() && keys@[n] == x;
        assert(m@[keys@[n]] == p);
    }
    assert(m@ =~= before.map_values(|q: OutputProjection| p));
}

impl LifecycleDesired<u32> {
    pub const REPRESENTATIVE_FIELD_COUNT: usize = 7;

    pub fn shutdown_requested(&self) -> (r: bool)
        ensures
            r == self@.shutdown_requested,
    {
        self.shutdown_requested
    }

    pub fn device_presence(&self) -> (r: Option<bool>)
        ensures
            r == self@.device_presence,
    {
        self.device_presence
    }

    pub fn identity_epoch(&self) -> (r: Option<u64>)
        ensures
            r == self@.identity_epoch,
    {
        self.identity_epoch
    }

    pub fn seat_target(&self) -> (r: Option<SeatTarget>)
        ensures
            r == self@.seat_target,
    {
        self.seat_target
    }

    pub fn seat_epoch(&self) -> (r: Option<u64>)
        ensures
            r == self@.seat_epoch,
    {
        self.seat_epoch
    }

    /// Update the observed seat prerequisite without creating a VT lifecycle
    /// representative.
    pub fn observe_seat_target(&mut self, target: SeatTarget, epoch: u64)
        ensures
            final(self)@ == (DesiredView { seat_target: Some(target), seat_epoch: Some(epoch), ..old(self)@ }),
    {
        proof {
            use_type_invariant(&*self);
        }
        self.seat_target = Some(target);
        self.seat_epoch = Some(epoch);
    }

    pub fn administrative_reprobe_epoch(&self) -> (r: Option<u64>)
        ensures
            r == self@.administrative_reprobe_epoch,
    {
        self.administrative_reprobe_epoch
    }

    pub fn topology_dirty(&self) -> (r: bool)
        ensures
            r == self@.topology_dirty,
    {
        self.topology_dirty
    }

    pub fn discovery_epoch(&self) -> (r: Option<u64>)
        ensures
            r == self@.discovery_epoch,
    {
        self.discovery_epoch
    }

    pub fn change_class(&self) -> (r: Option<TopologyChangeClass>)
        ensures
            r == self@.change_class,
    {
        self.change_class
    }

    pub fn protocol_dpms_level(&self) -> (r: u8)
        ensures
            r == self@.protocol_dpms_level,
    {
        self.protocol_dpms_level
    }

    pub fn projected_dpms_epoch(&self) -> (r: Option<u64>)
        ensures
            r == self@.projected_dpms_epoch,
    {
        self.projected_dpms_epoch
    }

    pub fn dpms_targets(&self) -> (r: &BTreeMap<u32, OutputProjection>)
        ensures
            r@ == self@.dpms_targets,
    {
        &self.dpms_targets
    }

    pub fn recovery_incident(&self) -> (r: Option<RecoveryId>)
        ensures
            r == self@.recovery_incident,
    {
        self.recovery_incident
    }

    pub fn representatives(&self) -> (r: &[Representative])
        ensures
            r@ == self@.representatives,
    {
        self.representatives.as_slice()
    }

    /// The ledger never holds more than one representative per field.
    pub fn retained_representative_count(&self) -> (r: usize)
        ensures
            r == self@.representatives.len(),
            r <= Self::REPRESENTATIVE_FIELD_COUNT,
    {
        proof {
            use_type_invariant(self);
            lemma_distinct_fields_bounded(self.representatives@);
        }
        self.representatives.len()
    }

    fn field_position(&self, field: DesiredField) -> (r: usize)
        ensures
            r == find_field(self@.representatives, field, 0),
    {
        let ghost reps = self.representatives@;
        let mut i: usize = 0;
        while i < self.representatives.len()
            invariant
                reps == self.representatives@,
                0 <= i <= reps.len(),
                find_field(reps, field, 0) == find_field(reps, field, i as int),
            decreases reps.len() - i,
        {
            if self.representatives[i].field == field {
                return i;
            }
            i = i + 1;
        }
        i
    }

    fn event_position(&self, event_id: LifecycleEventId) -> (r: usize)
        ensures
            r == find_event(self@.representatives, event_id, 0),
    {
        let ghost reps = self.representatives@;
        let mut i: usize = 0;
        while i < self.representatives.len()
            invariant
                reps == self.representatives@,
                0 <= i <= reps.len(),
                find_event(reps, event_id, 0) == find_event(reps, event_id, i as int),
            decreases reps.len() - i,
        {
            if self.representatives[i].event_id == event_id {
                return i;
            }
            i = i + 1;
        }
        i
    }

    pub fn representative(&self, field: DesiredField) -> (r: Option<Representative>)
        ensures
            r == rep_for(self@.representatives, field),
    {
        let i = self.field_position(field);
        if i < self.representatives.len() {
            Some(self.representatives[i])
        } else {
            None
        }
    }

    pub fn disposition(&self, event_id: LifecycleEventId) -> (r: Option<Disposition>)
        ensures
            r == disposition_of(self@.representatives, event_id),
    {
        let i = self.event_position(event_id);
        if i < self.representatives.len() {
            self.representatives[i].disposition
        } else {
            None
        }
    }

    /// Assign or advance a representative's disposition. A terminal value is
    /// immutable; terminal history is returned to the projector and forgotten.
    pub fn set_disposition(&mut self, event_id: LifecycleEventId, disposition: Disposition) -> (r: bool)
        ensures
            ({
                let reps = old(self)@.representatives;
                let i = find_event(reps, event_id, 0);
                &&& r == (i < reps.len() && rep_is_pending(reps[i]))
                &&& r ==> final(self)@ == DesiredView {
                    representatives: reps.update(i, Representative { disposition: Some(disposition), ..reps[i] }),
                    ..old(self)@
                }
                &&& !r ==> final(self)@ == old(self)@
            }),
    {
        proof {
            use_type_invariant(&*self);
        }
        let i = self.event_position(event_id);
        if i >= self.representatives.len() {
            return false;
        }
        let current = self.representatives[i];
        match current.disposition {
            Some(d) => {
                if d.is_terminal() {
                    return false;
                }
            },
            None => {},
        }
        let mut reps: Vec<Representative> = Vec::new();
        std::mem::swap(&mut reps, &mut self.representatives);
        reps.set(i, Representative { disposition: Some(disposition), ..current });
        self.representatives = reps;
        true
    }

    /// Resolve a prerequisite-deferred representative to a terminal outcome.
    pub fn resolve_deferred(&mut self, event_id: LifecycleEventId, disposition: Disposition) -> (r: bool)
        ensures
            ({
                let reps = old(self)@.representatives;
                let i = find_event(reps, event_id, 0);
                &&& r == (disposition_is_terminal(disposition) && i < reps.len()
                    && reps[i].disposition matches Some(Disposition::Deferred(_)))
                &&& r ==> final(self)@ == DesiredView {
                    representatives: reps.update(i, Representative { disposition: Some(disposition), ..reps[i] }),
                    ..old(self)@
                }
                &&& !r ==> final(self)@ == old(self)@
            }),
    {
        proof {
            use_type_invariant(&*self);
        }
        if !disposition.is_terminal() {
            return false;
        }
        let i = self.event_position(event_id);
        if i >= self.representatives.len() {
            return false;
        }
        let current = self.representatives[i];
        if !matches!(current.disposition, Some(Disposition::Deferred(_))) {
            return false;
        }
        let mut reps: Vec<Representative> = Vec::new();
        std::mem::swap(&mut reps, &mut self.representatives);
        reps.set(i, Representative { disposition: Some(disposition), ..current });
        self.representatives = reps;
        true
    }

    /// Add a stable output to the current protocol domain. It inherits the
    /// latest global DPMS level and epoch before topology installation.
    pub fn add_protocol_output(&mut self, output: u32) -> (r: Option<OutputProjection>)
        ensures
            r is None <==> old(self)@.dpms_targets.contains_key(output),
            r is None ==> final(self)@ == old(self)@,
            r matches Some(p) ==> {
                &&& p == inherited_projection(old(self)@)
                &&& final(self)@ == DesiredView { dpms_targets: old(self)@.dpms_targets.insert(output, p), ..old(self)@ }
            },
    {
        proof {
            use_type_invariant(&*self);
            lemma_u32_keys_ordered();
        }
        if self.dpms_targets.contains_key(&output) {
            return None;
        }
        let representative = match self.representative(DesiredField::Dpms) {
            Some(entry) => Some(entry.event_id),
            None => None,
        };
        let projection = OutputProjection {
            level: self.protocol_dpms_level,
            epoch: self.projected_dpms_epoch,
            representative,
        };
        let mut targets: BTreeMap<u32, OutputProjection> = BTreeMap::new();
        std::mem::swap(&mut targets, &mut self.dpms_targets);
        targets.insert(output, projection);
        self.dpms_targets = targets;
        Some(projection)
    }

    /// Remove exactly one output projection. A repeated removal has no second
    /// invalidation because the target is forgotten with the output.
    pub fn remove_protocol_output(&mut self, output: &u32) -> (r: Option<OutputProjectionRemoval>)
        ensures
            r is None <==> !old(self)@.dpms_targets.contains_key(*output),
            r is None ==> final(self)@ == old(self)@,
            r matches Some(removal) ==> {
                &&& removal.projection == old(self)@.dpms_targets[*output]
                &&& removal.reason == InvalidationReason::ProtocolOutputRemoved
                &&& final(self)@ == DesiredView { dpms_targets: old(self)@.dpms_targets.remove(*output), ..old(self)@ }
            },
    {
        broadcast use vstd::std_specs::btree::group_btree_axioms;

        proof {
            use_type_invariant(&*self);
            lemma_u32_keys_ordered();
        }
        let mut targets: BTreeMap<u32, OutputProjection> = BTreeMap::new();
        std::mem::swap(&mut targets, &mut self.dpms_targets);
        let removed = targets.remove(output);
        self.dpms_targets = targets;
        match removed {
            Some(projection) => Some(OutputProjectionRemoval { projection, reason: InvalidationReason::ProtocolOutputRemoved }),
            None => {
                assert(self.dpms_targets@ =~= old(self).dpms_targets@);
                None
            },
        }
    }

    /// Project one event into the snapshot, coalescing or superseding its
    /// field's prior representative.
    pub fn project(&mut self, event_id: LifecycleEventId, intent: DesiredIntent) -> (r: ProjectionResult)
        ensures
            r.event_disposition == projection_disposition(old(self)@, intent),
            r.terminalized@ == projection_changes(old(self)@, event_id, intent),
            final(self)@ == projection_state(old(self)@, event_id, intent),
    {
        proof {
            use_type_invariant(&*self);
        }
        let kind = intent.kind();
        let field = intent.field();
        match self.representative(field) {
            Some(existing) => {
                if (kind == LifecycleKind::Shutdown && existing.kind == kind) || (kind == LifecycleKind::DeviceRemoved
                    && existing.kind == kind) || (kind == LifecycleKind::NormalRecovery && self.recovery_incident.is_some()) {
                    return ProjectionResult {
                        event_disposition: Some(Disposition::AbsorbedByEvent(existing.event_id)),
                        terminalized: Vec::new(),
                    };
                }
            },
            None => {},
        }
        if self.shutdown_requested && kind != LifecycleKind::Shutdown {
            return ProjectionResult {
                event_disposition: Some(Disposition::Invalidated(InvalidationReason::Shutdown)),
                terminalized: Vec::new(),
            };
        }
        let ghost s0 = self@;
        let mut terminalized: Vec<DispositionChange> = Vec::new();
        if kind == LifecycleKind::Shutdown {
            self.shutdown_requested = true;
            self.invalidate_pending_representatives(InvalidationReason::Shutdown, &mut terminalized);
        }
        assert(self@ == staged(s0, intent));
        assert(terminalized@ == staged_changes(s0, intent));
        match intent {
            DesiredIntent::Shutdown => {},
            DesiredIntent::DevicePresence { present, identity_epoch } => {
                self.device_presence = Some(present);
                self.identity_epoch = Some(identity_epoch);
            },
            DesiredIntent::Seat { target, epoch } => {
                self.seat_target = Some(target);
                self.seat_epoch = Some(epoch);
            },
            DesiredIntent::AdministrativeReprobe { epoch } => {
                self.administrative_reprobe_epoch = Some(epoch);
            },
            DesiredIntent::Topology { discovery_epoch, change_class } => {
                self.topology_dirty = true;
                self.discovery_epoch = Some(discovery_epoch);
                self.change_class = Some(change_class);
            },
            DesiredIntent::Dpms { level, epoch } => {
                self.protocol_dpms_level = level;
                self.projected_dpms_epoch = Some(epoch);
                let mut targets: BTreeMap<u32, OutputProjection> = BTreeMap::new();
                std::mem::swap(&mut targets, &mut self.dpms_targets);
                retarget_all(&mut targets, OutputProjection { level, epoch: Some(epoch), representative: Some(event_id) });
                self.dpms_targets = targets;
                assert(self.dpms_targets@ =~= s0.dpms_targets.map_values(|p: OutputProjection| dpms_projection(level, epoch, event_id)));
            },
            DesiredIntent::NormalRecovery { recovery_id } => {
                self.recovery_incident = Some(recovery_id);
            },
        }
        assert(self@ == with_intent(staged(s0, intent), event_id, intent));
        let ghost reps = self.representatives@;
        proof {
            lemma_find_field(reps, field, 0);
        }
        let index = self.field_position(field);
        let fresh = Representative { field, event_id, kind, disposition: None };
        let mut reps_out: Vec<Representative> = Vec::new();
        std::mem::swap(&mut reps_out, &mut self.representatives);
        if index < reps_out.len() {
            let displaced = reps_out[index];
            reps_out.set(index, fresh);
            let pending = match displaced.disposition {
                Some(d) => !d.is_terminal(),
                None => true,
            };
            if pending {
                terminalized.push(DispositionChange { event_id: displaced.event_id, disposition: Disposition::SupersededBy(event_id) });
            }
        } else {
            reps_out.push(fresh);
        }
        self.representatives = reps_out;
        assert(self@ == accepted_state(s0, event_id, intent));
        assert(terminalized@ =~= accepted_changes(s0, event_id, intent));
        ProjectionResult { event_disposition: None, terminalized }
    }

    /// Clear dirty topology only when the caller completed the current
    /// discovery generation.
    pub fn clear_topology_dirty(&mut self, discovery_epoch: u64) -> (r: bool)
        ensures
            r == (old(self)@.discovery_epoch == Some(discovery_epoch)),
            r ==> final(self)@ == (DesiredView { topology_dirty: false, ..old(self)@ }),
            !r ==> final(self)@ == old(self)@,
    {
        proof {
            use_type_invariant(&*self);
        }
        if self.discovery_epoch != Some(discovery_epoch) {
            return false;
        }
        self.topology_dirty = false;
        true
    }

    /// Remove the incident identity after its representative reaches a
    /// terminal outcome.
    pub fn clear_recovery_incident(&mut self, recovery_id: RecoveryId) -> (r: bool)
        ensures
            r == (old(self)@.recovery_incident == Some(recovery_id) && recovery_settled(old(self)@.representatives)),
            r ==> final(self)@ == (DesiredView { recovery_incident: None, ..old(self)@ }),
            !r ==> final(self)@ == old(self)@,
    {
        proof {
            use_type_invariant(&*self);
        }
        if self.recovery_incident != Some(recovery_id) {
            return false;
        }
        let terminal = match self.representative(DesiredField::Recovery) {
            Some(rep) => match rep.disposition {
                Some(d) => d.is_terminal(),
                None => false,
            },
            None => false,
        };
        if !terminal {
            return false;
        }
        self.recovery_incident = None;
        true
    }

    fn invalidate_pending_representatives(&mut self, reason: InvalidationReason, terminalized: &mut Vec<DispositionChange>)
        ensures
            final(self)@ == (DesiredView { representatives: Seq::empty(), recovery_incident: None, ..old(self)@ }),
            final(terminalized)@ == old(terminalized)@ + pending_invalidations(
                old(self)@.representatives,
                old(self)@.representatives.len() as int,
                reason,
            ),
    {
        let ghost reps = self.representatives@;
        let ghost start = terminalized@;
        let mut i: usize = 0;
        while i < self.representatives.len()
            invariant
                reps == self.representatives@,
                0 <= i <= reps.len(),
                terminalized@ == start + pending_invalidations(reps, i as int, reason),
            decreases reps.len() - i,
        {
            let representative = self.representatives[i];
            let pending = match representative.disposition {
                Some(d) => !d.is_terminal(),
                None => true,
            };
            if pending {
                terminalized.push(DispositionChange { event_id: representative.event_id, disposition: Disposition::Invalidated(reason) });
            }
            assert(terminalized@ =~= start + pending_invalidations(reps, i + 1, reason));
            i = i + 1;
        }
        self.representatives = Vec::new();
        self.recovery_incident = None;
    }
}

} // verus!
