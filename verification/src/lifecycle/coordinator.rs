//! Global lifecycle projection and protocol DPMS aggregation over
//! independent per-device arbiters.
use vstd::prelude::*;

use std::collections::{BTreeMap, BTreeSet};

use super::arbiter::{input_levels_valid, ArbiterInput, LifecycleAction, LifecycleArbiter, RecoveryAttemptOutcome};
use super::desired::{
    DesiredField, DesiredIntent, DesiredView, OutputProjection, OutputProjectionRemoval, SeatTarget,
};
use super::recovery::{dpms_target_for_level, level_target, IncidentOrigin, RecoveryIdAllocator};
use super::values::{Disposition, InvalidationReason, LifecycleEventId, LifecycleKind, TransitionTag};
use crate::sorted::{lemma_u32_keys_ordered, map_keys_u32};

verus! {

/// Result of one coordinator-assigned event projection to a device.
#[derive(Debug, Clone, PartialEq, Eq)]
pub struct CoordinatorDispatch<D, I> {
    pub device: D,
    pub event_id: LifecycleEventId,
    pub actions: Vec<LifecycleAction<I>>,
}

/// Actions caused by an external prerequisite observation that has no
/// lifecycle event identity of its own.
#[derive(Debug, Clone, PartialEq, Eq)]
pub struct CoordinatorActionDispatch<D, I> {
    pub device: D,
    pub actions: Vec<LifecycleAction<I>>,
}

/// New output target plus any device synchronization event needed to inherit
/// the coordinator's current global DPMS state.
#[derive(Debug, Clone, PartialEq, Eq)]
pub struct CoordinatorOutputAddition<D, I> {
    pub projection: Option<OutputProjection>,
    pub synchronization: Option<CoordinatorDispatch<D, I>>,
}

/// Failure to assign or route a coordinator-owned lifecycle input.
#[derive(Debug, Clone, Copy, PartialEq, Eq, Structural)]
pub enum CoordinatorError {
    EventIdExhausted,
    EpochExhausted,
    RecoveryIdExhausted,
    UnknownDevice,
    DuplicateDevice,
    InvalidDpmsLevel(u8),
    GlobalIntentRequiresCoordinator,
    CoordinatorOwnedInput,
}

#[derive(Debug, PartialEq, Eq)]
struct CoordinatorDevice<O, I> {
    arbiter: LifecycleArbiter<O, I>,
    recovery_ids: RecoveryIdAllocator,
}

#[derive(Debug, PartialEq, Eq)]
struct DpmsRequest<D> {
    level: u8,
    epoch: u64,
    representatives: BTreeMap<D, LifecycleEventId>,
    terminal_outcomes: BTreeMap<D, Disposition>,
    removed_devices: BTreeSet<D>,
}

/// The server-wide lifecycle coordinator. Device arbiters remain
/// independent; this type owns global targets and the only event-id
/// allocator.
#[derive(Debug, PartialEq, Eq)]
pub struct LifecycleCoordinator<D, O, I> {
    shutdown_requested: bool,
    seat_target: Option<SeatTarget>,
    seat_epoch: u64,
    seat_target_from_read_only_feed: bool,
    protocol_dpms_level: u8,
    dpms_epoch: u64,
    next_event_id: Option<LifecycleEventId>,
    devices: BTreeMap<D, CoordinatorDevice<O, I>>,
    dpms_request: Option<DpmsRequest<D>>,
}

/// How far the event-id counter has advanced: the next id's value, or one
/// past the last representable id once exhausted.
pub open spec fn event_rank(next: Option<LifecycleEventId>) -> int {
    match next {
        Some(id) => id@ as int,
        None => u64::MAX + 1,
    }
}

/// A DPMS intent carries one of the four X11 levels.
pub open spec fn intent_level_valid(intent: DesiredIntent) -> bool {
    match intent {
        DesiredIntent::Dpms { level, .. } => level <= 3,
        _ => true,
    }
}

/// Intents that only the coordinator may project, to every device at once.
pub open spec fn is_global_intent(intent: DesiredIntent) -> bool {
    intent is Shutdown || intent is Seat || intent is Dpms || intent is NormalRecovery
}

/// Inputs that the coordinator itself produces and a driver may not inject.
pub open spec fn is_coordinator_owned(input: ArbiterInput<u32>) -> bool {
    input is LifecycleEvent || input is CompletionUnknown || input is RecoveryIncidentAllocated
        || input is SeatTargetObserved
}

/// The dispatched event ids were handed out in increasing order from the
/// counter's range between `lo` and `hi`.
pub open spec fn fresh_ids(d: Seq<CoordinatorDispatch<u32, u32>>, lo: int, hi: int) -> bool {
    &&& forall|k: int| 0 <= k < d.len() ==> lo <= (#[trigger] d[k]).event_id@ < hi
    &&& forall|j: int, k: int| 0 <= j < k < d.len() ==> (#[trigger] d[j]).event_id@ < (#[trigger] d[k]).event_id@
}

/// The dispatches went to `keys` in order, the `k`-th under event id
/// `lo + k`.
pub open spec fn dispatched_in_order(d: Seq<CoordinatorDispatch<u32, u32>>, keys: Seq<u32>, lo: int) -> bool {
    &&& d.len() == keys.len()
    &&& forall|k: int| 0 <= k < d.len() ==> (#[trigger] d[k]).device == keys[k] && d[k].event_id@ == lo + k
}

/// One dispatch to each of `devices`, the `k`-th under event id `lo + k`.
pub open spec fn dispatched_to_each(d: Seq<CoordinatorDispatch<u32, u32>>, devices: Set<u32>, lo: int) -> bool {
    &&& d.len() == devices.len()
    &&& forall|k: int| 0 <= k < d.len() ==> devices.contains((#[trigger] d[k]).device) && d[k].event_id@ == lo + k
    &&& forall|j: int, k: int| 0 <= j < k < d.len() ==> (#[trigger] d[j]).device != (#[trigger] d[k]).device
}

/// Whether `count` more event ids can still be handed out.
pub open spec fn ids_suffice(next: Option<LifecycleEventId>, count: int) -> bool {
    event_rank(next) + count <= u64::MAX + 1
}

/// Whether any projection in the map still names `event_id`.
/// The representative is the request's event and it applied or was
/// invalidated by output removal.
pub open spec fn representative_settles(rep: Option<super::desired::Representative>, event_id: LifecycleEventId) -> bool {
    rep matches Some(r) && r.event_id == event_id && (r.disposition matches Some(Disposition::Applied(_)) || r.disposition
        == Some(Disposition::Invalidated(InvalidationReason::ProtocolOutputRemoved)))
}

fn any_projection_names(m: &BTreeMap<u32, OutputProjection>, event_id: LifecycleEventId) -> (r: bool)
    ensures
        r == exists|o: u32| m@.contains_key(o) && #[trigger] m@[o].representative == Some(event_id),
{
    proof {
        lemma_u32_keys_ordered();
    }
    let keys = map_keys_u32(m);
    let mut i: usize = 0;
    while i < keys.len()
        invariant
            0 <= i <= keys@.len(),
            keys@.to_set() == m@.dom(),
            forall|k: int| 0 <= k < i ==> m@[#[trigger] keys@[k]].representative != Some(event_id),
        decreases keys@.len() - i,
    {
        let key = keys[i];
        assert(keys@.to_set().contains(key));
        match m.get(&key) {
            Some(projection) => {
                if projection.representative == Some(event_id) {
                    return true;
                }
            },
            None => {},
        }
        i = i + 1;
    }
    assert forall|o: u32| m@.contains_key(o) implies #[trigger] m@[o].representative != Some(event_id) by {
        assert(keys@.to_set().contains(o));
        let k = choose|k: int| 0 <= k < keys@.len() && keys@[k] == o;
        assert(m@[keys@[k]].representative != Some(event_id));
    }
    false
}

/// How far a recovery-id allocator has advanced: the next id's value, or one
/// past the last representable id once exhausted.
pub open spec fn recovery_rank(next: Option<super::values::RecoveryId>) -> int {
    match next {
        Some(id) => id@ as int,
        None => u64::MAX + 1,
    }
}

/// The number of recovery-incident allocations the actions ask for.
pub open spec fn allocation_requests(s: Seq<LifecycleAction<u32>>) -> int
    decreases s.len(),
{
    if s.len() == 0 {
        0
    } else {
        allocation_requests(s.drop_last()) + if s.last() is AllocateRecoveryIncident {
            1int
        } else {
            0int
        }
    }
}

/// The terminal disposition the actions last report for `event_id`.
pub open spec fn last_terminal_for(s: Seq<LifecycleAction<u32>>, event_id: LifecycleEventId) -> Option<Disposition>
    decreases s.len(),
{
    if s.len() == 0 {
        None
    } else if s.last() matches LifecycleAction::DispositionChanged { event_id: e, disposition: d } && e == event_id
        && super::values::disposition_is_terminal(d) {
        Some(s.last()->DispositionChanged_disposition)
    } else {
        last_terminal_for(s.drop_last(), event_id)
    }
}

/// Allocation requests are counted: none exactly when no action asks for
/// an incident.
proof fn lemma_allocations_counted(s: Seq<LifecycleAction<u32>>)
    ensures
        allocation_requests(s) >= 0,
        forall|k: int| 0 <= k < s.len() && (#[trigger] s[k]) is AllocateRecoveryIncident ==> allocation_requests(s) >= 1,
        (forall|k: int| 0 <= k < s.len() ==> !((#[trigger] s[k]) is AllocateRecoveryIncident)) ==> allocation_requests(s) == 0,
    decreases s.len(),
{
    if s.len() > 0 {
        lemma_allocations_counted(s.drop_last());
        assert forall|k: int| 0 <= k < s.len() && (#[trigger] s[k]) is AllocateRecoveryIncident implies allocation_requests(s) >= 1 by {
            if k < s.len() - 1 {
                assert(s.drop_last()[k] == s[k]);
            }
        }
        if forall|k: int| 0 <= k < s.len() ==> !((#[trigger] s[k]) is AllocateRecoveryIncident) {
            assert forall|k: int| 0 <= k < s.drop_last().len() implies !((#[trigger] s.drop_last()[k]) is AllocateRecoveryIncident) by {
                assert(s.drop_last()[k] == s[k]);
            }
        }
    }
}

/// Installing an allocated incident changes a snapshot only in its
/// representatives and its recovery incident.
proof fn lemma_incident_desired_settles(d: DesiredView, e: LifecycleEventId, incident: super::recovery::RecoveryIncident)
    ensures
        super::arbiter::desired_settled_from(d, super::arbiter::incident_desired(d, e, incident)),
{
}

/// Allocate every recovery incident the actions ask for and feed each back
/// to the arbiter; `false` when the device ran out of recovery ids. When
/// nothing asks for an incident, nothing changes; when something does and
/// no id is left, the device runs out.
fn materialize_incidents(entry: &mut CoordinatorDevice<u32, u32>, actions: &mut Vec<LifecycleAction<u32>>) -> (r: bool)
    requires
        old(entry).arbiter.wf(),
    ensures
        final(entry).arbiter.wf(),
        old(actions)@.len() <= final(actions)@.len(),
        final(actions)@.subrange(0, old(actions)@.len() as int) == old(actions)@,
        r ==> recovery_rank(final(entry).recovery_ids.spec_next()) == recovery_rank(old(entry).recovery_ids.spec_next())
            + allocation_requests(final(actions)@),
        !r ==> final(entry).recovery_ids.spec_next() is None,
        allocation_requests(old(actions)@) == 0 ==> r && final(actions)@ == old(actions)@ && *final(entry) == *old(entry),
        super::arbiter::desired_settled_from(old(entry).arbiter.spec_desired(), final(entry).arbiter.spec_desired()),
        allocation_requests(old(actions)@) > 0 && old(entry).recovery_ids.spec_next() is None ==> !r,
{
    let ghost a0 = actions@;
    let ghost rank0 = recovery_rank(entry.recovery_ids.spec_next());
    let ghost e0 = *entry;
    proof {
        lemma_allocations_counted(a0);
    }
    let mut index: usize = 0;
    while index < actions.len()
        invariant
            0 <= index <= actions@.len(),
            entry.arbiter.wf(),
            a0 == old(actions)@,
            e0 == *old(entry),
            rank0 == recovery_rank(old(entry).recovery_ids.spec_next()),
            a0.len() <= actions@.len(),
            actions@.subrange(0, a0.len() as int) == a0,
            recovery_rank(entry.recovery_ids.spec_next()) == rank0 + allocation_requests(actions@.take(index as int)),
            allocation_requests(a0) >= 0,
            forall|k: int| 0 <= k < a0.len() && (#[trigger] a0[k]) is AllocateRecoveryIncident ==> allocation_requests(a0) >= 1,
            allocation_requests(a0) == 0 || e0.recovery_ids.spec_next() is None ==> actions@ == a0 && *entry == e0,
            e0.recovery_ids.spec_next() is None ==> forall|k: int| 0 <= k < index ==> !((#[trigger] a0[k]) is AllocateRecoveryIncident),
            super::arbiter::desired_settled_from(e0.arbiter.spec_desired(), entry.arbiter.spec_desired()),
        decreases
            (match entry.recovery_ids.spec_next() {
                Some(n) => u64::MAX - n@ + 1,
                None => 0,
            }),
            actions@.len() - index,
    {
        let allocation = match &actions[index] {
            LifecycleAction::AllocateRecoveryIncident { event_id, seed } => Some((*event_id, *seed)),
            _ => None,
        };
        let ghost before = actions@;
        assert(before.take(index + 1).drop_last() =~= before.take(index as int));
        assert(before.take(index + 1).last() == before[index as int]);
        match allocation {
            Some((event_id, seed)) => {
                let incident = match entry.recovery_ids.allocate_incident(seed) {
                    Some(incident) => incident,
                    None => {
                        return false;
                    },
                };
                let ghost before_arbiter = entry.arbiter;
                let mut more = entry.arbiter.apply(ArbiterInput::RecoveryIncidentAllocated { event_id, incident });
                proof {
                    lemma_incident_desired_settles(before_arbiter.spec_desired(), event_id, incident);
                }
                actions.append(&mut more);
                assert(actions@.take(index + 1) =~= before.take(index + 1));
                assert(actions@.subrange(0, a0.len() as int) =~= before.subrange(0, a0.len() as int));
            },
            None => {},
        }
        index = index + 1;
    }
    assert(actions@.take(index as int) =~= actions@);
    proof {
        if e0.recovery_ids.spec_next() is None {
            lemma_allocations_counted(a0);
        }
    }
    true
}

/// Dispatches made in order to the distinct keys of a device set reach
/// each device of the set once.
proof fn lemma_dispatched_to_keys(
    r: Result<Vec<CoordinatorDispatch<u32, u32>>, CoordinatorError>,
    keys: Seq<u32>,
    devices: Set<u32>,
    lo: int,
)
    requires
        keys.no_duplicates(),
        keys.to_set() == devices,
        r matches Ok(d) ==> dispatched_in_order(d@, keys, lo),
    ensures
        r matches Ok(d) ==> dispatched_to_each(d@, devices, lo),
{
    keys.unique_seq_to_set();
    match r {
        Ok(d) => {
            assert forall|k: int| 0 <= k < d@.len() implies devices.contains((#[trigger] d@[k]).device) && d@[k].event_id@ == lo + k by {
                assert(d@[k].device == keys[k]);
                assert(keys.to_set().contains(keys[k]));
            }
            assert forall|j: int, k: int| 0 <= j < k < d@.len() implies (#[trigger] d@[j]).device != (#[trigger] d@[k]).device by {
                assert(d@[j].device == keys[j]);
                assert(d@[k].device == keys[k]);
            }
        },
        Err(_) => {},
    }
}

/// One input reached a device arbiter `a`, leaving `b`: the arbiter first
/// answered the input as `LifecycleArbiter::apply` promises; with no
/// incident to allocate that answer is the result; with one to allocate
/// and no recovery id left the device runs out; otherwise the answer leads
/// the result and each allocation used one recovery id; installing the
/// allocated incidents changes the snapshot only in its representatives
/// and recovery incident. Running out is the only failure.
pub open spec fn device_input_applied(
    a: &LifecycleArbiter<u32, u32>,
    b: &LifecycleArbiter<u32, u32>,
    input: ArbiterInput<u32>,
    old_next: Option<super::values::RecoveryId>,
    new_next: Option<super::values::RecoveryId>,
    r: Result<Vec<LifecycleAction<u32>>, CoordinatorError>,
) -> bool {
    &&& exists|mid: LifecycleArbiter<u32, u32>, first: Seq<LifecycleAction<u32>>|
        #[trigger] super::arbiter::applied(a, &mid, input, first) && {
            &&& allocation_requests(first) == 0 ==> (r matches Ok(acts) && acts@ == first) && *b == mid && new_next == old_next
            &&& allocation_requests(first) > 0 && old_next is None ==> r == Err::<Vec<LifecycleAction<u32>>, CoordinatorError>(
                CoordinatorError::RecoveryIdExhausted,
            )
            &&& r matches Ok(acts) ==> acts@.len() >= first.len() && acts@.subrange(0, first.len() as int) == first
                && recovery_rank(new_next) == recovery_rank(old_next) + allocation_requests(acts@)
            &&& super::arbiter::desired_settled_from(mid.spec_desired(), b.spec_desired())
        }
    &&& r matches Err(e) ==> e == CoordinatorError::RecoveryIdExhausted && new_next is None
    &&& b.wf()
}

/// A completion loss on a boundary transition needs a fresh recovery id
/// unless a boundary incident is already current.
pub open spec fn loss_needs_fresh_id(a: &LifecycleArbiter<u32, u32>) -> bool {
    &&& a.spec_transition() matches Some(t) && super::arbiter::is_boundary_kind(t.spec_kind())
    &&& !(a.spec_recovery() matches Some(i) && i.spec_origin() is Boundary)
}

/// The boundary recovery id a completion loss carries: none outside a
/// boundary transition, the current boundary incident's id, or else the
/// device allocator's next id.
pub open spec fn loss_boundary_id(a: &LifecycleArbiter<u32, u32>, next: Option<super::values::RecoveryId>) -> Option<
    super::values::RecoveryId,
> {
    if a.spec_transition() matches Some(t) && super::arbiter::is_boundary_kind(t.spec_kind()) {
        match a.spec_recovery() {
            Some(i) => if i.spec_origin() is Boundary {
                Some(i.spec_id())
            } else {
                next
            },
            None => next,
        }
    } else {
        None
    }
}

/// The actions of a dispatch, or its error.
pub open spec fn dispatch_actions(r: Result<CoordinatorDispatch<u32, u32>, CoordinatorError>) -> Result<
    Vec<LifecycleAction<u32>>,
    CoordinatorError,
> {
    match r {
        Ok(d) => Ok(d.actions),
        Err(e) => Err(e),
    }
}

fn is_recovery_boundary(kind: LifecycleKind) -> (r: bool)
    ensures
        r == super::arbiter::is_boundary_kind(kind),
{
    kind == LifecycleKind::DeviceAddedOrReplaced || kind == LifecycleKind::VTAcquire || kind
        == LifecycleKind::AdministrativeReprobe || kind == LifecycleKind::IdentityChangingHotplug
}

impl LifecycleCoordinator<u32, u32, u32> {
    pub closed spec fn spec_shutdown_requested(&self) -> bool {
        self.shutdown_requested
    }

    pub closed spec fn spec_seat_target(&self) -> Option<SeatTarget> {
        self.seat_target
    }

    pub closed spec fn spec_seat_epoch(&self) -> u64 {
        self.seat_epoch
    }

    pub closed spec fn spec_protocol_dpms_level(&self) -> u8 {
        self.protocol_dpms_level
    }

    pub closed spec fn spec_dpms_epoch(&self) -> u64 {
        self.dpms_epoch
    }

    pub closed spec fn spec_next_event_id(&self) -> Option<LifecycleEventId> {
        self.next_event_id
    }

    /// The current seat target came from the read-only ownership feed
    /// rather than from a coordinator request.
    pub closed spec fn spec_seat_from_feed(&self) -> bool {
        self.seat_target_from_read_only_feed
    }

    /// A device joining now receives a projected event: shutdown was
    /// requested, or the coordinator itself set the seat target.
    pub open spec fn spec_join_projects(&self) -> bool {
        self.spec_shutdown_requested() || (self.spec_seat_target() is Some && !self.spec_seat_from_feed())
    }

    /// The global intent a joining device receives: shutdown once
    /// requested, else the coordinator's seat target.
    pub open spec fn spec_join_intent(&self) -> DesiredIntent {
        if self.spec_shutdown_requested() {
            DesiredIntent::Shutdown
        } else {
            DesiredIntent::Seat { target: self.spec_seat_target()->0, epoch: self.spec_seat_epoch() }
        }
    }

    /// An output joining `device` first needs the current global DPMS level
    /// projected to that device: a DPMS level was ever requested, and the
    /// current request either has no representative on the device or that
    /// representative already reached a terminal disposition there.
    pub closed spec fn spec_join_needs_dpms(&self, device: u32) -> bool {
        let current = match self.dpms_request {
            Some(request) => if request.representatives@.contains_key(device) {
                Some(request.representatives@[device])
            } else {
                None
            },
            None => None,
        };
        let terminal = match current {
            Some(event_id) => match super::desired::rep_for(self.devices@[device].arbiter.spec_desired().representatives, DesiredField::Dpms) {
                Some(rep) => rep.event_id == event_id && match rep.disposition {
                    Some(d) => super::values::disposition_is_terminal(d),
                    None => false,
                },
                None => false,
            },
            None => false,
        };
        self.dpms_epoch != 0 && (current is None || terminal)
    }

    pub closed spec fn spec_device_keys(&self) -> Set<u32> {
        self.devices@.dom()
    }

    pub closed spec fn spec_arbiter(&self, key: u32) -> LifecycleArbiter<u32, u32> {
        self.devices@[key].arbiter
    }

    /// The next recovery id a device's allocator would hand out.
    pub closed spec fn spec_recovery_next(&self, key: u32) -> Option<super::values::RecoveryId> {
        self.devices@[key].recovery_ids.spec_next()
    }

    /// The devices that currently have at least one protocol output.
    pub open spec fn spec_output_devices(&self) -> Set<u32> {
        self.spec_device_keys().filter(|k: u32| self.spec_arbiter(k).spec_desired().dpms_targets.len() != 0)
    }

    /// The global DPMS level is valid and every device arbiter is
    /// well-formed.
    pub closed spec fn wf(&self) -> bool {
        &&& self.protocol_dpms_level <= 3
        &&& forall|k: u32| self.devices@.contains_key(k) ==> (#[trigger] self.devices@[k]).arbiter.wf()
    }

    pub fn new() -> (r: Self)
        ensures
            r.wf(),
            !r.spec_shutdown_requested(),
            r.spec_seat_target() is None,
            r.spec_seat_epoch() == 0,
            r.spec_protocol_dpms_level() == 0,
            r.spec_dpms_epoch() == 0,
            r.spec_next_event_id() matches Some(id) && id@ == 1,
            r.spec_device_keys() == Set::<u32>::empty(),
    {
        Self {
            shutdown_requested: false,
            seat_target: None,
            seat_epoch: 0,
            seat_target_from_read_only_feed: false,
            protocol_dpms_level: 0,
            dpms_epoch: 0,
            next_event_id: Some(LifecycleEventId::first()),
            devices: BTreeMap::new(),
            dpms_request: None,
        }
    }

    pub fn shutdown_requested(&self) -> (r: bool)
        ensures
            r == self.spec_shutdown_requested(),
    {
        self.shutdown_requested
    }

    pub fn seat_target(&self) -> (r: Option<SeatTarget>)
        ensures
            r == self.spec_seat_target(),
    {
        self.seat_target
    }

    pub fn seat_epoch(&self) -> (r: u64)
        ensures
            r == self.spec_seat_epoch(),
    {
        self.seat_epoch
    }

    pub fn protocol_dpms_level(&self) -> (r: u8)
        ensures
            r == self.spec_protocol_dpms_level(),
    {
        self.protocol_dpms_level
    }

    pub fn dpms_epoch(&self) -> (r: u64)
        ensures
            r == self.spec_dpms_epoch(),
    {
        self.dpms_epoch
    }

    pub fn device(&self, key: &u32) -> (r: Option<&LifecycleArbiter<u32, u32>>)
        ensures
            r is Some <==> self.spec_device_keys().contains(*key),
            r matches Some(a) ==> *a == self.spec_arbiter(*key),
    {
        proof {
            lemma_u32_keys_ordered();
        }
        match self.devices.get(key) {
            Some(entry) => Some(&entry.arbiter),
            None => None,
        }
    }

    /// Whether a protocol DPMS request is outstanding.
    /// One device's share of the request is settled: its recorded terminal
    /// outcome applied or was invalidated by output removal; or, with none
    /// recorded, its DPMS representative for the request did so; or else the
    /// device's projection for the request was removed entirely.
    pub closed spec fn spec_device_settled(&self, device: u32, event_id: LifecycleEventId) -> bool {
        let request = self.dpms_request->0;
        &&& self.devices@.contains_key(device)
        &&& if request.terminal_outcomes@.contains_key(device) {
            match request.terminal_outcomes@[device] {
                Disposition::Applied(_) => true,
                Disposition::Invalidated(InvalidationReason::ProtocolOutputRemoved) => true,
                _ => false,
            }
        } else if representative_settles(
            super::desired::rep_for(self.devices@[device].arbiter.spec_desired().representatives, DesiredField::Dpms),
            event_id,
        ) {
            true
        } else {
            request.removed_devices@.contains(device) && !exists|o: u32| #[trigger] self.devices@[device].arbiter.spec_desired().dpms_targets.contains_key(o)
                && self.devices@[device].arbiter.spec_desired().dpms_targets[o].representative == Some(event_id)
        }
    }

    /// The latest protocol DPMS request is applied: every device it reached is settled.
    pub closed spec fn spec_request_applied(&self) -> bool {
        match self.dpms_request {
            None => true,
            Some(request) => forall|d: u32| #[trigger] request.representatives@.contains_key(d) ==> self.spec_device_settled(d, request.representatives@[d]),
        }
    }

    /// The terminal outcome the current DPMS request recorded for a device.
    pub closed spec fn spec_terminal_outcome(&self, device: u32) -> Option<Disposition> {
        match self.dpms_request {
            Some(req) => if req.terminal_outcomes@.contains_key(device) {
                Some(req.terminal_outcomes@[device])
            } else {
                None
            },
            None => None,
        }
    }

    /// The terminal outcome the current DPMS request recorded for a device.
    pub fn dpms_terminal_outcome(&self, device: &u32) -> (r: Option<Disposition>)
        ensures
            r == self.spec_terminal_outcome(*device),
    {
        proof {
            lemma_u32_keys_ordered();
        }
        match &self.dpms_request {
            Some(request) => match request.terminal_outcomes.get(device) {
                Some(d) => Some(*d),
                None => None,
            },
            None => None,
        }
    }

    fn take_device(&mut self, key: &u32) -> (r: Option<CoordinatorDevice<u32, u32>>)
        requires
            old(self).wf(),
        ensures
            final(self).wf(),
            r is Some <==> old(self).devices@.contains_key(*key),
            r matches Some(entry) ==> entry == old(self).devices@[*key] && entry.arbiter.wf(),
            final(self).devices@ == old(self).devices@.remove(*key),
            final(self).shutdown_requested == old(self).shutdown_requested,
            final(self).seat_target == old(self).seat_target,
            final(self).seat_epoch == old(self).seat_epoch,
            final(self).seat_target_from_read_only_feed == old(self).seat_target_from_read_only_feed,
            final(self).protocol_dpms_level == old(self).protocol_dpms_level,
            final(self).dpms_epoch == old(self).dpms_epoch,
            final(self).next_event_id == old(self).next_event_id,
            final(self).dpms_request == old(self).dpms_request,
    {
        broadcast use vstd::std_specs::btree::group_btree_axioms;

        proof {
            lemma_u32_keys_ordered();
        }
        let r = self.devices.remove(key);
        proof {
            assert forall|k: u32| self.devices@.contains_key(k) implies (#[trigger] self.devices@[k]).arbiter.wf() by {
                assert(old(self).devices@.contains_key(k));
            }
        }
        r
    }

    fn put_device(&mut self, key: u32, entry: CoordinatorDevice<u32, u32>)
        requires
            old(self).wf(),
            entry.arbiter.wf(),
        ensures
            final(self).wf(),
            final(self).devices@ == old(self).devices@.insert(key, entry),
            final(self).shutdown_requested == old(self).shutdown_requested,
            final(self).seat_target == old(self).seat_target,
            final(self).seat_epoch == old(self).seat_epoch,
            final(self).seat_target_from_read_only_feed == old(self).seat_target_from_read_only_feed,
            final(self).protocol_dpms_level == old(self).protocol_dpms_level,
            final(self).dpms_epoch == old(self).dpms_epoch,
            final(self).next_event_id == old(self).next_event_id,
            final(self).dpms_request == old(self).dpms_request,
    {
        proof {
            lemma_u32_keys_ordered();
        }
        self.devices.insert(key, entry);
        proof {
            assert forall|k: u32| self.devices@.contains_key(k) implies (#[trigger] self.devices@[k]).arbiter.wf() by {
                if k != key {
                    assert(old(self).devices@.contains_key(k));
                }
            }
        }
    }

    /// Register an independent device arbiter. Existing global seat and
    /// shutdown targets are immediately projected to the new device.
    pub fn add_device(&mut self, key: u32, arbiter: LifecycleArbiter<u32, u32>) -> (r: Result<
        Vec<CoordinatorDispatch<u32, u32>>,
        CoordinatorError,
    >)
        requires
            old(self).wf(),
            arbiter.wf(),
        ensures
            final(self).wf(),
            r == Err::<Vec<CoordinatorDispatch<u32, u32>>, CoordinatorError>(CoordinatorError::DuplicateDevice)
                <==> old(self).spec_device_keys().contains(key),
            r is Ok ==> final(self).spec_device_keys() == old(self).spec_device_keys().insert(key),
            event_rank(old(self).spec_next_event_id()) <= event_rank(final(self).spec_next_event_id()),
            final(self).spec_shutdown_requested() == old(self).spec_shutdown_requested(),
            r matches Ok(d) ==> fresh_ids(d@, event_rank(old(self).spec_next_event_id()), event_rank(final(self).spec_next_event_id())),
            r matches Ok(d) ==> d@.len() == (if old(self).spec_join_projects() { 1int } else { 0int }),
            r matches Ok(d) ==> d@.len() == 1 ==> d@[0].device == key && old(self).spec_next_event_id() == Some(d@[0].event_id),
            !old(self).spec_device_keys().contains(key) && !old(self).spec_join_projects() ==> r is Ok,
            !old(self).spec_device_keys().contains(key) && old(self).spec_join_projects() && old(self).spec_next_event_id() is None ==> r
                == Err::<Vec<CoordinatorDispatch<u32, u32>>, CoordinatorError>(CoordinatorError::EventIdExhausted),
            !old(self).spec_device_keys().contains(key) && old(self).spec_join_projects() && old(self).spec_next_event_id() is Some ==> r is Ok
                || r == Err::<Vec<CoordinatorDispatch<u32, u32>>, CoordinatorError>(CoordinatorError::RecoveryIdExhausted),
            !old(self).spec_device_keys().contains(key) && !old(self).spec_join_projects() ==> final(self).spec_arbiter(key).spec_desired() == (
            match old(self).spec_seat_target() {
                Some(target) => DesiredView { seat_target: Some(target), seat_epoch: Some(old(self).spec_seat_epoch()), ..arbiter.spec_desired() },
                None => arbiter.spec_desired(),
            }),
            old(self).spec_device_keys().contains(key) ==> *final(self) == *old(self),
            r matches Ok(d) ==> d@.len() == 1 ==> exists|first_next: Option<super::values::RecoveryId>|
                (first_next matches Some(id) && id@ == 1) && #[trigger] device_input_applied(
                    &arbiter,
                    &final(self).spec_arbiter(key),
                    ArbiterInput::LifecycleEvent {
                        event_id: d@[0].event_id,
                        intent: old(self).spec_join_intent(),
                    },
                    first_next,
                    final(self).spec_recovery_next(key),
                    Ok(d@[0].actions),
                ),
            forall|k: u32| k != key && old(self).spec_device_keys().contains(k) ==> #[trigger] final(self).spec_arbiter(k)
                == old(self).spec_arbiter(k) && final(self).spec_recovery_next(k) == old(self).spec_recovery_next(k),
    {
        proof {
            lemma_u32_keys_ordered();
        }
        if self.devices.contains_key(&key) {
            return Err(CoordinatorError::DuplicateDevice);
        }
        self.put_device(key, CoordinatorDevice { arbiter, recovery_ids: RecoveryIdAllocator::new() });
        let ghost first_next = self.devices@[key].recovery_ids.spec_next();
        let mut result: Vec<CoordinatorDispatch<u32, u32>> = Vec::new();
        if self.shutdown_requested {
            let dispatch = self.project_with_new_id(key, DesiredIntent::Shutdown);
            match dispatch {
                Ok(d) => {
                    proof {
                        assert(dispatch_actions(dispatch) == Ok::<Vec<LifecycleAction<u32>>, CoordinatorError>(d.actions));
                    }
                    result.push(d);
                    proof {
                        assert(device_input_applied(
                            &arbiter,
                            &self.spec_arbiter(key),
                            ArbiterInput::LifecycleEvent { event_id: result@[0].event_id, intent: DesiredIntent::Shutdown },
                            first_next,
                            self.spec_recovery_next(key),
                            Ok(result@[0].actions),
                        ));
                    }
                },
                Err(e) => {
                    return Err(e);
                },
            }
        } else {
            match self.seat_target {
                Some(target) => {
                    if self.seat_target_from_read_only_feed {
                        match self.take_device(&key) {
                            Some(mut entry) => {
                                entry.arbiter.observe_seat_target(target, self.seat_epoch);
                                self.put_device(key, entry);
                            },
                            None => {},
                        }
                    } else {
                        let dispatch = self.project_with_new_id(key, DesiredIntent::Seat { target, epoch: self.seat_epoch });
                        match dispatch {
                            Ok(d) => {
                                proof {
                                    assert(dispatch_actions(dispatch) == Ok::<Vec<LifecycleAction<u32>>, CoordinatorError>(d.actions));
                                }
                                result.push(d);
                                proof {
                                    assert(device_input_applied(
                                        &arbiter,
                                        &self.spec_arbiter(key),
                                        ArbiterInput::LifecycleEvent {
                                            event_id: result@[0].event_id,
                                            intent: DesiredIntent::Seat { target, epoch: old(self).spec_seat_epoch() },
                                        },
                                        first_next,
                                        self.spec_recovery_next(key),
                                        Ok(result@[0].actions),
                                    ));
                                }
                            },
                            Err(e) => {
                                return Err(e);
                            },
                        }
                    }
                },
                None => {},
            }
        }
        Ok(result)
    }

    /// Add a stable protocol output. If it joins after a global DPMS request,
    /// first project that request's current level and epoch to its device.
    pub fn add_protocol_output(&mut self, device: &u32, output: u32) -> (r: Result<
        CoordinatorOutputAddition<u32, u32>,
        CoordinatorError,
    >)
        requires
            old(self).wf(),
        ensures
            final(self).wf(),
            !old(self).spec_device_keys().contains(*device) ==> r == Err::<CoordinatorOutputAddition<u32, u32>, CoordinatorError>(
                CoordinatorError::UnknownDevice,
            ),
            final(self).spec_device_keys() == old(self).spec_device_keys(),
            event_rank(old(self).spec_next_event_id()) <= event_rank(final(self).spec_next_event_id()),
            final(self).spec_shutdown_requested() == old(self).spec_shutdown_requested(),
            old(self).spec_device_keys().contains(*device) && old(self).spec_arbiter(*device).spec_desired().dpms_targets.contains_key(output) ==> {
                &&& r == Ok::<CoordinatorOutputAddition<u32, u32>, CoordinatorError>(
                    CoordinatorOutputAddition { projection: None, synchronization: None },
                )
                &&& *final(self) == *old(self)
            },
            old(self).spec_device_keys().contains(*device) && !old(self).spec_arbiter(*device).spec_desired().dpms_targets.contains_key(output)
                && !old(self).spec_join_needs_dpms(*device) ==> r == Ok::<CoordinatorOutputAddition<u32, u32>, CoordinatorError>(
                CoordinatorOutputAddition {
                    projection: Some(super::desired::inherited_projection(old(self).spec_arbiter(*device).spec_desired())),
                    synchronization: None,
                },
            ),
            old(self).spec_device_keys().contains(*device) && !old(self).spec_arbiter(*device).spec_desired().dpms_targets.contains_key(output)
                && old(self).spec_join_needs_dpms(*device) && old(self).spec_next_event_id() is None ==> r == Err::<
                CoordinatorOutputAddition<u32, u32>,
                CoordinatorError,
            >(CoordinatorError::EventIdExhausted),
            old(self).spec_device_keys().contains(*device) && !old(self).spec_arbiter(*device).spec_desired().dpms_targets.contains_key(output)
                && old(self).spec_join_needs_dpms(*device) && old(self).spec_next_event_id() is Some ==> (r is Ok || r == Err::<
                CoordinatorOutputAddition<u32, u32>,
                CoordinatorError,
            >(CoordinatorError::RecoveryIdExhausted)) && (r matches Ok(a) ==> a.synchronization matches Some(d) && d.device == *device
                && old(self).spec_next_event_id() == Some(d.event_id)),
            old(self).spec_device_keys().contains(*device) && !old(self).spec_arbiter(*device).spec_desired().dpms_targets.contains_key(output)
                && old(self).spec_join_needs_dpms(*device) ==> (r matches Ok(a) ==> a.synchronization matches Some(d) && exists|
                mid: LifecycleArbiter<u32, u32>,
            |
                {
                    &&& #[trigger] device_input_applied(
                        &old(self).spec_arbiter(*device),
                        &mid,
                        ArbiterInput::LifecycleEvent {
                            event_id: d.event_id,
                            intent: DesiredIntent::Dpms { level: old(self).spec_protocol_dpms_level(), epoch: old(self).spec_dpms_epoch() },
                        },
                        old(self).spec_recovery_next(*device),
                        final(self).spec_recovery_next(*device),
                        Ok(d.actions),
                    )
                    &&& mid.spec_desired().dpms_targets.contains_key(output) ==> a.projection is None
                        && final(self).spec_arbiter(*device).spec_desired() == mid.spec_desired()
                    &&& !mid.spec_desired().dpms_targets.contains_key(output) ==> a.projection == Some(
                        super::desired::inherited_projection(mid.spec_desired()),
                    ) && final(self).spec_arbiter(*device).spec_desired() == (DesiredView {
                        dpms_targets: mid.spec_desired().dpms_targets.insert(output, a.projection->0),
                        ..mid.spec_desired()
                    })
                }),
            forall|k: u32| k != *device && old(self).spec_device_keys().contains(k) ==> #[trigger] final(self).spec_arbiter(k)
                == old(self).spec_arbiter(k) && final(self).spec_recovery_next(k) == old(self).spec_recovery_next(k),
    {
        proof {
            lemma_u32_keys_ordered();
        }
        let (already, dpms_rep) = match self.devices.get(device) {
            Some(entry) => (
                entry.arbiter.desired().dpms_targets().contains_key(&output),
                entry.arbiter.desired().representative(DesiredField::Dpms),
            ),
            None => {
                return Err(CoordinatorError::UnknownDevice);
            },
        };
        if already {
            return Ok(CoordinatorOutputAddition { projection: None, synchronization: None });
        }
        let current_representative = match &self.dpms_request {
            Some(request) => match request.representatives.get(device) {
                Some(event_id) => Some(*event_id),
                None => None,
            },
            None => None,
        };
        let current_representative_is_terminal = match current_representative {
            Some(event_id) => match dpms_rep {
                Some(representative) => representative.event_id == event_id && match representative.disposition {
                    Some(d) => d.is_terminal(),
                    None => false,
                },
                None => false,
            },
            None => false,
        };
        let needs_dpms_projection = self.dpms_epoch != 0 && (current_representative.is_none()
            || current_representative_is_terminal);
        let mut sync_dispatch: Option<CoordinatorDispatch<u32, u32>> = None;
        if needs_dpms_projection {
            let event_id = match self.allocate_event_id() {
                Ok(id) => id,
                Err(e) => {
                    return Err(e);
                },
            };
            let epoch = self.dpms_epoch;
            match self.dpms_request.take() {
                Some(mut request) => {
                    if request.epoch == epoch {
                        request.representatives.insert(*device, event_id);
                        request.terminal_outcomes.remove(device);
                        request.removed_devices.remove(device);
                    }
                    self.dpms_request = Some(request);
                },
                None => {},
            }
            let level = self.protocol_dpms_level;
            let actions = match self.project_existing_id(device, event_id, DesiredIntent::Dpms { level, epoch }) {
                Ok(actions) => actions,
                Err(e) => {
                    return Err(e);
                },
            };
            sync_dispatch = Some(CoordinatorDispatch { device: *device, event_id, actions });
        }
        let ghost mid = self.devices@[*device].arbiter;
        let mut entry = match self.take_device(device) {
            Some(entry) => entry,
            None => {
                return Err(CoordinatorError::UnknownDevice);
            },
        };
        let projection = entry.arbiter.add_protocol_output(output);
        self.put_device(*device, entry);
        proof {
            if sync_dispatch is Some {
                let d = sync_dispatch->0;
                {
                    assert(device_input_applied(
                        &old(self).spec_arbiter(*device),
                        &mid,
                        ArbiterInput::LifecycleEvent {
                            event_id: d.event_id,
                            intent: DesiredIntent::Dpms { level: old(self).spec_protocol_dpms_level(), epoch: old(self).spec_dpms_epoch() },
                        },
                        old(self).spec_recovery_next(*device),
                        self.spec_recovery_next(*device),
                        Ok(d.actions),
                    ));
                }
            }
        }
        match projection {
            Some(p) => {
                let requested = match &self.dpms_request {
                    Some(request) => match request.representatives.get(device) {
                        Some(event_id) => Some(*event_id),
                        None => None,
                    },
                    None => None,
                };
                if requested == p.representative {
                    match self.dpms_request.take() {
                        Some(mut request) => {
                            request.removed_devices.remove(device);
                            self.dpms_request = Some(request);
                        },
                        None => {},
                    }
                }
            },
            None => {},
        }
        Ok(CoordinatorOutputAddition { projection, synchronization: sync_dispatch })
    }

    /// Commit the output membership installed by a client modeset. The
    /// protocol projection is taken from the coordinator's current desired
    /// state; the device was verified before dispatch.
    pub fn commit_staged_protocol_output(&mut self, device: &u32, output: u32)
        requires
            old(self).wf(),
            old(self).spec_device_keys().contains(*device),
        ensures
            final(self).wf(),
            final(self).spec_device_keys() == old(self).spec_device_keys(),
            final(self).spec_arbiter(*device).spec_desired().dpms_targets.contains_key(output),
            final(self).spec_arbiter(*device).spec_desired() == (if old(self).spec_arbiter(*device).spec_desired().dpms_targets.contains_key(
                output,
            ) {
                old(self).spec_arbiter(*device).spec_desired()
            } else {
                DesiredView {
                    dpms_targets: old(self).spec_arbiter(*device).spec_desired().dpms_targets.insert(
                        output,
                        super::desired::inherited_projection(old(self).spec_arbiter(*device).spec_desired()),
                    ),
                    ..old(self).spec_arbiter(*device).spec_desired()
                }
            }),
            forall|k: u32| k != *device && old(self).spec_device_keys().contains(k) ==> final(self).spec_arbiter(k) == old(self).spec_arbiter(k),
            final(self).spec_next_event_id() == old(self).spec_next_event_id(),
            final(self).spec_shutdown_requested() == old(self).spec_shutdown_requested(),
    {
        proof {
            lemma_u32_keys_ordered();
        }
        let current_representative = match &self.dpms_request {
            Some(request) => match request.representatives.get(device) {
                Some(event_id) => Some(*event_id),
                None => None,
            },
            None => None,
        };
        let mut entry = match self.take_device(device) {
            Some(entry) => entry,
            None => {
                return;
            },
        };
        let existing = match entry.arbiter.desired().dpms_targets().get(&output) {
            Some(projection) => Some(*projection),
            None => None,
        };
        let projection = match existing {
            Some(projection) => projection,
            None => match entry.arbiter.add_protocol_output(output) {
                Some(projection) => projection,
                None => {
                    self.put_device(*device, entry);
                    return;
                },
            },
        };
        self.put_device(*device, entry);
        if projection.representative == current_representative && current_representative.is_some() {
            match self.dpms_request.take() {
                Some(mut request) => {
                    request.removed_devices.remove(device);
                    self.dpms_request = Some(request);
                },
                None => {},
            }
        }
    }

    /// Remember a removed output's projection as invalidated for the current
    /// request when the device has no remaining projection naming it.
    fn note_removed_projection(&mut self, device: &u32, removal: OutputProjectionRemoval, has_remaining: bool)
        ensures
            final(self).devices == old(self).devices,
            final(self).shutdown_requested == old(self).shutdown_requested,
            final(self).seat_target == old(self).seat_target,
            final(self).seat_epoch == old(self).seat_epoch,
            final(self).seat_target_from_read_only_feed == old(self).seat_target_from_read_only_feed,
            final(self).protocol_dpms_level == old(self).protocol_dpms_level,
            final(self).dpms_epoch == old(self).dpms_epoch,
            final(self).next_event_id == old(self).next_event_id,
            old(self).dpms_request is None ==> final(self).dpms_request is None,
            old(self).dpms_request matches Some(req) ==> (final(self).dpms_request matches Some(f) && f.level == req.level && f.epoch
                == req.epoch && f.representatives == req.representatives && f.terminal_outcomes == req.terminal_outcomes
                && f.removed_devices@ == (if req.representatives@.contains_key(*device) && removal.projection.representative == Some(
                req.representatives@[*device],
            ) && !has_remaining {
                req.removed_devices@.insert(*device)
            } else {
                req.removed_devices@
            })),
    {
        proof {
            lemma_u32_keys_ordered();
        }
        match self.dpms_request.take() {
            Some(mut request) => {
                let current = match request.representatives.get(device) {
                    Some(event_id) => Some(*event_id),
                    None => None,
                };
                match current {
                    Some(event_id) => {
                        if removal.projection.representative == Some(event_id) && !has_remaining {
                            request.removed_devices.insert(*device);
                        }
                    },
                    None => {},
                }
                self.dpms_request = Some(request);
            },
            None => {},
        }
    }

    /// Remove one protocol output and remember its current request projection
    /// as invalidated only when that device has no remaining projection for it.
    pub fn remove_protocol_output(&mut self, device: &u32, output: &u32) -> (r: Result<
        Option<OutputProjectionRemoval>,
        CoordinatorError,
    >)
        requires
            old(self).wf(),
        ensures
            final(self).wf(),
            r == Err::<Option<OutputProjectionRemoval>, CoordinatorError>(CoordinatorError::UnknownDevice)
                <==> !old(self).spec_device_keys().contains(*device),
            r matches Ok(removal) ==> (removal is None <==> !old(self).spec_arbiter(*device).spec_desired().dpms_targets.contains_key(*output)),
            r matches Ok(Some(removal)) ==> removal.projection == old(self).spec_arbiter(*device).spec_desired().dpms_targets[*output],
            r matches Ok(Some(removal)) ==> final(self).spec_arbiter(*device).spec_desired() == (DesiredView {
                dpms_targets: old(self).spec_arbiter(*device).spec_desired().dpms_targets.remove(*output),
                ..old(self).spec_arbiter(*device).spec_desired()
            }),
            r matches Ok(None) ==> final(self).spec_arbiter(*device).spec_desired() == old(self).spec_arbiter(*device).spec_desired(),
            forall|k: u32| k != *device && old(self).spec_device_keys().contains(k) ==> final(self).spec_arbiter(k) == old(self).spec_arbiter(k),
            final(self).spec_device_keys() == old(self).spec_device_keys(),
            final(self).spec_next_event_id() == old(self).spec_next_event_id(),
            final(self).spec_shutdown_requested() == old(self).spec_shutdown_requested(),
    {
        let mut entry = match self.take_device(device) {
            Some(entry) => entry,
            None => {
                return Err(CoordinatorError::UnknownDevice);
            },
        };
        let removal = entry.arbiter.remove_protocol_output(output);
        let removal = match removal {
            Some(removal) => removal,
            None => {
                self.put_device(*device, entry);
                return Ok(None);
            },
        };
        let remaining = match removal.projection.representative {
            Some(event_id) => any_projection_names(entry.arbiter.desired().dpms_targets(), event_id),
            None => false,
        };
        self.put_device(*device, entry);
        self.note_removed_projection(device, removal, remaining);
        Ok(Some(removal))
    }

    /// Invalidate a protocol output projection after the KMS disable that
    /// removed it. The target's presence was checked while the modeset was
    /// prepared.
    pub fn invalidate_staged_protocol_output(&mut self, device: &u32, output: &u32)
        requires
            old(self).wf(),
            old(self).spec_device_keys().contains(*device),
            old(self).spec_arbiter(*device).spec_desired().dpms_targets.contains_key(*output),
        ensures
            final(self).wf(),
            final(self).spec_device_keys() == old(self).spec_device_keys(),
            !final(self).spec_arbiter(*device).spec_desired().dpms_targets.contains_key(*output),
            final(self).spec_arbiter(*device).spec_desired() == (DesiredView {
                dpms_targets: old(self).spec_arbiter(*device).spec_desired().dpms_targets.remove(*output),
                ..old(self).spec_arbiter(*device).spec_desired()
            }),
            forall|k: u32| k != *device && old(self).spec_device_keys().contains(k) ==> final(self).spec_arbiter(k) == old(self).spec_arbiter(k),
            final(self).spec_next_event_id() == old(self).spec_next_event_id(),
            final(self).spec_shutdown_requested() == old(self).spec_shutdown_requested(),
    {
        let mut entry = match self.take_device(device) {
            Some(entry) => entry,
            None => {
                return;
            },
        };
        let removal = entry.arbiter.remove_protocol_output(output);
        match removal {
            Some(removal) => {
                let remaining = match removal.projection.representative {
                    Some(event_id) => any_projection_names(entry.arbiter.desired().dpms_targets(), event_id),
                    None => false,
                };
                self.put_device(*device, entry);
                self.note_removed_projection(device, removal, remaining);
            },
            None => {
                self.put_device(*device, entry);
            },
        }
    }

    /// Project one global intent, with consecutive fresh ids, to every listed
    /// device in order.
    fn project_to_all(&mut self, keys: &Vec<u32>, intent: DesiredIntent) -> (r: Result<
        Vec<CoordinatorDispatch<u32, u32>>,
        CoordinatorError,
    >)
        requires
            old(self).wf(),
            intent_level_valid(intent),
            forall|k: int| 0 <= k < keys@.len() ==> old(self).devices@.contains_key(#[trigger] keys@[k]),
            event_rank(old(self).next_event_id) + keys@.len() <= u64::MAX + 1,
            keys@.no_duplicates(),
        ensures
            final(self).wf(),
            final(self).devices@.dom() == old(self).devices@.dom(),
            forall|k: u32| !keys@.contains(k) && old(self).devices@.contains_key(k) ==> #[trigger] final(self).devices@[k] == old(self).devices@[k],
            r matches Ok(d) ==> forall|k: int| 0 <= k < d@.len() ==> device_input_applied(
                &old(self).devices@[(#[trigger] d@[k]).device].arbiter,
                &final(self).devices@[d@[k].device].arbiter,
                ArbiterInput::LifecycleEvent { event_id: d@[k].event_id, intent },
                old(self).devices@[d@[k].device].recovery_ids.spec_next(),
                final(self).devices@[d@[k].device].recovery_ids.spec_next(),
                Ok(d@[k].actions),
            ),
            final(self).shutdown_requested == old(self).shutdown_requested,
            final(self).seat_target == old(self).seat_target,
            final(self).seat_epoch == old(self).seat_epoch,
            final(self).protocol_dpms_level == old(self).protocol_dpms_level,
            final(self).dpms_epoch == old(self).dpms_epoch,
            event_rank(old(self).next_event_id) <= event_rank(final(self).next_event_id),
            r matches Ok(d) ==> fresh_ids(d@, event_rank(old(self).next_event_id), event_rank(final(self).next_event_id)),
            r matches Ok(d) ==> dispatched_in_order(d@, keys@, event_rank(old(self).next_event_id)) && event_rank(final(self).next_event_id)
                == event_rank(old(self).next_event_id) + keys@.len(),
            r is Err ==> r == Err::<Vec<CoordinatorDispatch<u32, u32>>, CoordinatorError>(CoordinatorError::RecoveryIdExhausted),
    {
        let mut out: Vec<CoordinatorDispatch<u32, u32>> = Vec::new();
        let ghost lo = event_rank(self.next_event_id);
        let mut i: usize = 0;
        while i < keys.len()
            invariant
                0 <= i <= keys@.len(),
                self.wf(),
                self.devices@.dom() == old(self).devices@.dom(),
                self.shutdown_requested == old(self).shutdown_requested,
                self.seat_target == old(self).seat_target,
                self.seat_epoch == old(self).seat_epoch,
                self.protocol_dpms_level == old(self).protocol_dpms_level,
                self.dpms_epoch == old(self).dpms_epoch,
                lo == event_rank(old(self).next_event_id),
                lo <= event_rank(self.next_event_id),
                intent_level_valid(intent),
                fresh_ids(out@, lo, event_rank(self.next_event_id)),
                forall|k: int| 0 <= k < keys@.len() ==> old(self).devices@.contains_key(#[trigger] keys@[k]),
                lo + keys@.len() <= u64::MAX + 1,
                event_rank(self.next_event_id) == lo + i,
                dispatched_in_order(out@, keys@.take(i as int), lo),
                keys@.no_duplicates(),
                forall|k: u32| !keys@.subrange(0, i as int).contains(k) && old(self).devices@.contains_key(k) ==> #[trigger] self.devices@[k]
                    == old(self).devices@[k],
                forall|k: int| 0 <= k < out@.len() ==> device_input_applied(
                    &old(self).devices@[(#[trigger] out@[k]).device].arbiter,
                    &self.devices@[out@[k].device].arbiter,
                    ArbiterInput::LifecycleEvent { event_id: out@[k].event_id, intent },
                    old(self).devices@[out@[k].device].recovery_ids.spec_next(),
                    self.devices@[out@[k].device].recovery_ids.spec_next(),
                    Ok(out@[k].actions),
                ),
            decreases keys@.len() - i,
        {
            let key = keys[i];
            let ghost before = event_rank(self.next_event_id);
            let ghost s_before = *self;
            let ghost out_before = out@;
            proof {
                assert(!keys@.subrange(0, i as int).contains(key)) by {
                    if keys@.subrange(0, i as int).contains(key) {
                        let j = choose|j: int| 0 <= j < i && keys@.subrange(0, i as int)[j] == key;
                        assert(keys@[j] == keys@[i as int]);
                    }
                }
                assert(self.devices@[key] == old(self).devices@[key]);
            }
            let res = self.project_with_new_id(key, intent);
            let dispatch = match res {
                Ok(dispatch) => dispatch,
                Err(e) => {
                    return Err(e);
                },
            };
            proof {
                assert(dispatch_actions(res) == Ok::<Vec<LifecycleAction<u32>>, CoordinatorError>(dispatch.actions));
            }
            out.push(dispatch);
            i = i + 1;
            proof {
                assert forall|k: u32| !keys@.subrange(0, i as int).contains(k) && old(self).devices@.contains_key(k) implies #[trigger] self.devices@[k]
                    == old(self).devices@[k] by {
                    assert(keys@.subrange(0, i as int)[i - 1] == key);
                    if k == key {
                        assert(keys@.subrange(0, i as int).contains(key));
                    } else {
                        let prev = keys@.subrange(0, i - 1);
                        if prev.contains(k) {
                            let j = choose|j: int| 0 <= j < prev.len() && #[trigger] prev[j] == k;
                            assert(keys@.subrange(0, i as int)[j] == k);
                        }
                    }
                }
                assert forall|k: int| 0 <= k < out@.len() implies device_input_applied(
                    &old(self).devices@[(#[trigger] out@[k]).device].arbiter,
                    &self.devices@[out@[k].device].arbiter,
                    ArbiterInput::LifecycleEvent { event_id: out@[k].event_id, intent },
                    old(self).devices@[out@[k].device].recovery_ids.spec_next(),
                    self.devices@[out@[k].device].recovery_ids.spec_next(),
                    Ok(out@[k].actions),
                ) by {
                    if k < out@.len() - 1 {
                        assert(out@[k] == out_before[k]);
                        assert(out_before[k].device == keys@.take(i - 1)[k]);
                        assert(keys@[k] != keys@[i - 1]);
                        assert(self.devices@[out@[k].device] == s_before.devices@[out@[k].device]);
                    }
                }
            }
            proof {
                assert forall|k: int| 0 <= k < out@.len() implies (#[trigger] out@[k]).device == keys@.take(i as int)[k]
                    && out@[k].event_id@ == lo + k by {
                    if k < out@.len() - 1 {
                        assert(keys@.take(i as int)[k] == keys@.take(i - 1)[k]);
                    }
                }
            }
        }
        assert(keys@.take(i as int) =~= keys@);
        assert(keys@.subrange(0, i as int) =~= keys@);
        Ok(out)
    }

    /// Accept a shutdown request. The global bit is monotonic and is updated
    /// before any per-device arbiter receives the event.
    pub fn request_shutdown(&mut self) -> (r: Result<Vec<CoordinatorDispatch<u32, u32>>, CoordinatorError>)
        requires
            old(self).wf(),
        ensures
            final(self).wf(),
            final(self).spec_device_keys() == old(self).spec_device_keys(),
            r is Ok ==> final(self).spec_shutdown_requested(),
            old(self).spec_shutdown_requested() ==> final(self).spec_shutdown_requested(),
            event_rank(old(self).spec_next_event_id()) <= event_rank(final(self).spec_next_event_id()),
            r matches Ok(d) ==> fresh_ids(d@, event_rank(old(self).spec_next_event_id()), event_rank(final(self).spec_next_event_id())),
            !ids_suffice(old(self).spec_next_event_id(), old(self).spec_device_keys().len() as int) ==> r == Err::<
                Vec<CoordinatorDispatch<u32, u32>>,
                CoordinatorError,
            >(CoordinatorError::EventIdExhausted) && *final(self) == *old(self),
            ids_suffice(old(self).spec_next_event_id(), old(self).spec_device_keys().len() as int) ==> r is Ok || r == Err::<
                Vec<CoordinatorDispatch<u32, u32>>,
                CoordinatorError,
            >(CoordinatorError::RecoveryIdExhausted),
            r matches Ok(d) ==> dispatched_to_each(d@, old(self).spec_device_keys(), event_rank(old(self).spec_next_event_id()))
                && event_rank(final(self).spec_next_event_id()) == event_rank(old(self).spec_next_event_id()) + d@.len(),
            r matches Ok(d) ==> forall|k: int| 0 <= k < d@.len() ==> device_input_applied(
                &old(self).spec_arbiter((#[trigger] d@[k]).device),
                &final(self).spec_arbiter(d@[k].device),
                ArbiterInput::LifecycleEvent { event_id: d@[k].event_id, intent: DesiredIntent::Shutdown },
                old(self).spec_recovery_next(d@[k].device),
                final(self).spec_recovery_next(d@[k].device),
                Ok(d@[k].actions),
            ),
    {
        let keys = map_keys_u32(&self.devices);
        proof {
            keys@.unique_seq_to_set();
        }
        match self.check_ids(keys.len()) {
            Ok(()) => {},
            Err(e) => {
                return Err(e);
            },
        }
        self.shutdown_requested = true;
        let r = self.project_to_all(&keys, DesiredIntent::Shutdown);
        proof {
            lemma_dispatched_to_keys(r, keys@, old(self).devices@.dom(), event_rank(old(self).next_event_id));
        }
        r
    }

    /// Replace the global seat target and project the same generation to every
    /// device. Each device gets its own coordinator-allocated representative.
    pub fn set_seat_target(&mut self, target: SeatTarget) -> (r: Result<Vec<CoordinatorDispatch<u32, u32>>, CoordinatorError>)
        requires
            old(self).wf(),
        ensures
            final(self).wf(),
            final(self).spec_device_keys() == old(self).spec_device_keys(),
            old(self).spec_seat_epoch() == u64::MAX ==> r == Err::<Vec<CoordinatorDispatch<u32, u32>>, CoordinatorError>(
                CoordinatorError::EpochExhausted,
            ),
            r is Ok ==> final(self).spec_seat_target() == Some(target) && final(self).spec_seat_epoch() == old(self).spec_seat_epoch() + 1,
            final(self).spec_shutdown_requested() == old(self).spec_shutdown_requested(),
            event_rank(old(self).spec_next_event_id()) <= event_rank(final(self).spec_next_event_id()),
            r matches Ok(d) ==> fresh_ids(d@, event_rank(old(self).spec_next_event_id()), event_rank(final(self).spec_next_event_id())),
            old(self).spec_seat_epoch() < u64::MAX && !ids_suffice(old(self).spec_next_event_id(), old(self).spec_device_keys().len() as int)
                ==> r == Err::<Vec<CoordinatorDispatch<u32, u32>>, CoordinatorError>(CoordinatorError::EventIdExhausted) && *final(self)
                == *old(self),
            old(self).spec_seat_epoch() < u64::MAX && ids_suffice(old(self).spec_next_event_id(), old(self).spec_device_keys().len() as int)
                ==> r is Ok || r == Err::<Vec<CoordinatorDispatch<u32, u32>>, CoordinatorError>(CoordinatorError::RecoveryIdExhausted),
            r matches Ok(d) ==> dispatched_to_each(d@, old(self).spec_device_keys(), event_rank(old(self).spec_next_event_id()))
                && event_rank(final(self).spec_next_event_id()) == event_rank(old(self).spec_next_event_id()) + d@.len(),
            old(self).spec_seat_epoch() == u64::MAX ==> *final(self) == *old(self),
            r matches Ok(d) ==> forall|k: int| 0 <= k < d@.len() ==> device_input_applied(
                &old(self).spec_arbiter((#[trigger] d@[k]).device),
                &final(self).spec_arbiter(d@[k].device),
                ArbiterInput::LifecycleEvent { event_id: d@[k].event_id, intent: DesiredIntent::Seat { target, epoch: (old(self).spec_seat_epoch() + 1) as u64 } },
                old(self).spec_recovery_next(d@[k].device),
                final(self).spec_recovery_next(d@[k].device),
                Ok(d@[k].actions),
            ),
    {
        let epoch = match self.seat_epoch.checked_add(1) {
            Some(epoch) => epoch,
            None => {
                return Err(CoordinatorError::EpochExhausted);
            },
        };
        let keys = map_keys_u32(&self.devices);
        proof {
            keys@.unique_seq_to_set();
        }
        match self.check_ids(keys.len()) {
            Ok(()) => {},
            Err(e) => {
                return Err(e);
            },
        }
        self.seat_target = Some(target);
        self.seat_epoch = epoch;
        self.seat_target_from_read_only_feed = false;
        let r = self.project_to_all(&keys, DesiredIntent::Seat { target, epoch });
        proof {
            lemma_dispatched_to_keys(r, keys@, old(self).devices@.dom(), event_rank(old(self).next_event_id));
        }
        r
    }

    /// The devices that currently have at least one protocol output.
    fn devices_with_outputs(&self) -> (r: Vec<u32>)
        ensures
            forall|k: int| 0 <= k < r@.len() ==> self.devices@.contains_key(#[trigger] r@[k]),
            r@.no_duplicates(),
            r@.to_set() == self.spec_output_devices(),
    {
        broadcast use vstd::std_specs::btree::group_btree_axioms;

        proof {
            lemma_u32_keys_ordered();
        }
        let keys = map_keys_u32(&self.devices);
        let mut out: Vec<u32> = Vec::new();
        let mut i: usize = 0;
        while i < keys.len()
            invariant
                0 <= i <= keys@.len(),
                keys@.to_set() == self.devices@.dom(),
                keys@.no_duplicates(),
                crate::sorted::u32_keys_ordered(),
                out@.no_duplicates(),
                forall|k: int| 0 <= k < out@.len() ==> self.devices@.contains_key(#[trigger] out@[k]),
                forall|k: int| 0 <= k < out@.len() ==> self.spec_output_devices().contains(#[trigger] out@[k])
                    && keys@.take(i as int).contains(out@[k]),
                forall|m: int| 0 <= m < i && self.spec_output_devices().contains(#[trigger] keys@[m]) ==> out@.contains(keys@[m]),
            decreases keys@.len() - i,
        {
            let key = keys[i];
            assert(keys@.to_set().contains(key));
            let ghost before = out@;
            match self.devices.get(&key) {
                Some(entry) => {
                    if entry.arbiter.desired().dpms_targets().len() != 0 {
                        proof {
                            assert(!before.contains(key)) by {
                                if before.contains(key) {
                                    let k = choose|k: int| 0 <= k < before.len() && before[k] == key;
                                    let m = choose|m: int| 0 <= m < i && keys@.take(i as int)[m] == key;
                                    assert(keys@[m] == keys@[i as int]);
                                }
                            }
                        }
                        out.push(key);
                        proof {
                            assert(out@[before.len() as int] == key);
                        }
                    }
                },
                None => {},
            }
            proof {
                assert forall|k: int| 0 <= k < out@.len() implies self.spec_output_devices().contains(#[trigger] out@[k])
                    && keys@.take(i + 1).contains(out@[k]) by {
                    if k < before.len() {
                        assert(out@[k] == before[k]);
                        let m = choose|m: int| 0 <= m < i && keys@.take(i as int)[m] == before[k];
                        assert(keys@.take(i + 1)[m] == before[k]);
                    } else {
                        assert(keys@.take(i + 1)[i as int] == key);
                    }
                }
                assert forall|m: int| 0 <= m < i + 1 && self.spec_output_devices().contains(#[trigger] keys@[m]) implies out@.contains(keys@[m]) by {
                    if m < i {
                        let k = choose|k: int| 0 <= k < before.len() && before[k] == keys@[m];
                        assert(out@[k] == before[k]);
                    } else {
                        assert(out@[out@.len() - 1] == key);
                    }
                }
            }
            i = i + 1;
        }
        proof {
            assert forall|x: u32| out@.to_set().contains(x) <==> self.spec_output_devices().contains(x) by {
                if self.spec_output_devices().contains(x) {
                    assert(keys@.to_set().contains(x));
                    let m = choose|m: int| 0 <= m < keys@.len() && keys@[m] == x;
                }
                if out@.to_set().contains(x) {
                    let k = choose|k: int| 0 <= k < out@.len() && out@[k] == x;
                }
            }
            assert(out@.to_set() =~= self.spec_output_devices());
        }
        out
    }

    /// Accept one global X11 DPMS level. Levels 1 to 3 are off and level 0 is
    /// on; all affected devices receive the same epoch and one representative.
    pub fn set_protocol_dpms_level(&mut self, level: u8) -> (r: Result<Vec<CoordinatorDispatch<u32, u32>>, CoordinatorError>)
        requires
            old(self).wf(),
        ensures
            final(self).wf(),
            final(self).spec_device_keys() == old(self).spec_device_keys(),
            level > 3 ==> r == Err::<Vec<CoordinatorDispatch<u32, u32>>, CoordinatorError>(CoordinatorError::InvalidDpmsLevel(level)),
            level <= 3 && old(self).spec_dpms_epoch() == u64::MAX ==> r == Err::<Vec<CoordinatorDispatch<u32, u32>>, CoordinatorError>(
                CoordinatorError::EpochExhausted,
            ),
            r is Ok ==> final(self).spec_protocol_dpms_level() == level && final(self).spec_dpms_epoch() == old(self).spec_dpms_epoch() + 1,
            final(self).spec_shutdown_requested() == old(self).spec_shutdown_requested(),
            event_rank(old(self).spec_next_event_id()) <= event_rank(final(self).spec_next_event_id()),
            r matches Ok(d) ==> fresh_ids(d@, event_rank(old(self).spec_next_event_id()), event_rank(final(self).spec_next_event_id())),
            level <= 3 && old(self).spec_dpms_epoch() < u64::MAX && !ids_suffice(
                old(self).spec_next_event_id(),
                old(self).spec_output_devices().len() as int,
            ) ==> r == Err::<Vec<CoordinatorDispatch<u32, u32>>, CoordinatorError>(CoordinatorError::EventIdExhausted) && *final(self)
                == *old(self),
            level <= 3 && old(self).spec_dpms_epoch() < u64::MAX && ids_suffice(
                old(self).spec_next_event_id(),
                old(self).spec_output_devices().len() as int,
            ) ==> r is Ok || r == Err::<Vec<CoordinatorDispatch<u32, u32>>, CoordinatorError>(CoordinatorError::RecoveryIdExhausted),
            r matches Ok(d) ==> dispatched_to_each(d@, old(self).spec_output_devices(), event_rank(old(self).spec_next_event_id()))
                && event_rank(final(self).spec_next_event_id()) == event_rank(old(self).spec_next_event_id()) + d@.len(),
            level > 3 || old(self).spec_dpms_epoch() == u64::MAX ==> *final(self) == *old(self),
            r matches Ok(d) ==> forall|k: int| 0 <= k < d@.len() ==> device_input_applied(
                &old(self).spec_arbiter((#[trigger] d@[k]).device),
                &final(self).spec_arbiter(d@[k].device),
                ArbiterInput::LifecycleEvent { event_id: d@[k].event_id, intent: DesiredIntent::Dpms { level, epoch: (old(self).spec_dpms_epoch() + 1) as u64 } },
                old(self).spec_recovery_next(d@[k].device),
                final(self).spec_recovery_next(d@[k].device),
                Ok(d@[k].actions),
            ),
            forall|k: u32| old(self).spec_device_keys().contains(k) && !old(self).spec_output_devices().contains(k) ==> #[trigger] final(self).spec_arbiter(k)
                == old(self).spec_arbiter(k) && final(self).spec_recovery_next(k) == old(self).spec_recovery_next(k),
    {
        if dpms_target_for_level(level).is_none() {
            return Err(CoordinatorError::InvalidDpmsLevel(level));
        }
        let epoch = match self.dpms_epoch.checked_add(1) {
            Some(epoch) => epoch,
            None => {
                return Err(CoordinatorError::EpochExhausted);
            },
        };
        let keys = self.devices_with_outputs();
        proof {
            keys@.unique_seq_to_set();
        }
        match self.check_ids(keys.len()) {
            Ok(()) => {},
            Err(e) => {
                return Err(e);
            },
        }
        self.protocol_dpms_level = level;
        self.dpms_epoch = epoch;
        let mut request = DpmsRequest {
            level,
            epoch,
            representatives: BTreeMap::new(),
            terminal_outcomes: BTreeMap::new(),
            removed_devices: BTreeSet::new(),
        };
        let mut out: Vec<CoordinatorDispatch<u32, u32>> = Vec::new();
        let ghost lo = event_rank(self.next_event_id);
        self.dpms_request = Some(request);
        let mut i: usize = 0;
        while i < keys.len()
            invariant
                0 <= i <= keys@.len(),
                self.wf(),
                self.devices@.dom() == old(self).devices@.dom(),
                self.shutdown_requested == old(self).shutdown_requested,
                self.protocol_dpms_level == level,
                self.dpms_epoch == epoch,
                level <= 3,
                epoch == old(self).dpms_epoch + 1,
                lo == event_rank(old(self).next_event_id),
                lo <= event_rank(self.next_event_id),
                fresh_ids(out@, lo, event_rank(self.next_event_id)),
                forall|k: int| 0 <= k < keys@.len() ==> old(self).devices@.contains_key(#[trigger] keys@[k]),
                lo + keys@.len() <= u64::MAX + 1,
                keys@.len() == old(self).spec_output_devices().len(),
                event_rank(self.next_event_id) == lo + i,
                dispatched_in_order(out@, keys@.take(i as int), lo),
                keys@.no_duplicates(),
                keys@.to_set() == old(self).spec_output_devices(),
                forall|k: u32| !keys@.subrange(0, i as int).contains(k) && old(self).devices@.contains_key(k) ==> #[trigger] self.devices@[k]
                    == old(self).devices@[k],
                forall|k: int| 0 <= k < out@.len() ==> device_input_applied(
                    &old(self).devices@[(#[trigger] out@[k]).device].arbiter,
                    &self.devices@[out@[k].device].arbiter,
                    ArbiterInput::LifecycleEvent { event_id: out@[k].event_id, intent: DesiredIntent::Dpms { level, epoch } },
                    old(self).devices@[out@[k].device].recovery_ids.spec_next(),
                    self.devices@[out@[k].device].recovery_ids.spec_next(),
                    Ok(out@[k].actions),
                ),
            decreases keys@.len() - i,
        {
            let key = keys[i];
            let ghost s_before = *self;
            let ghost out_before = out@;
            proof {
                assert(!keys@.subrange(0, i as int).contains(key)) by {
                    if keys@.subrange(0, i as int).contains(key) {
                        let j = choose|j: int| 0 <= j < i && keys@.subrange(0, i as int)[j] == key;
                        assert(keys@[j] == keys@[i as int]);
                    }
                }
                assert(self.devices@[key] == old(self).devices@[key]);
            }
            let event_id = match self.allocate_event_id() {
                Ok(id) => id,
                Err(e) => {
                    return Err(e);
                },
            };
            match self.dpms_request.take() {
                Some(mut request) => {
                    proof {
                        lemma_u32_keys_ordered();
                    }
                    request.representatives.insert(key, event_id);
                    self.dpms_request = Some(request);
                },
                None => {},
            }
            let actions = match self.project_existing_id(&key, event_id, DesiredIntent::Dpms { level, epoch }) {
                Ok(actions) => actions,
                Err(e) => {
                    return Err(e);
                },
            };
            out.push(CoordinatorDispatch { device: key, event_id, actions });
            i = i + 1;
            proof {
                assert forall|k: int| 0 <= k < out@.len() implies (#[trigger] out@[k]).device == keys@.take(i as int)[k]
                    && out@[k].event_id@ == lo + k by {
                    if k < out@.len() - 1 {
                        assert(keys@.take(i as int)[k] == keys@.take(i - 1)[k]);
                    }
                }
                assert forall|k: u32| !keys@.subrange(0, i as int).contains(k) && old(self).devices@.contains_key(k) implies #[trigger] self.devices@[k]
                    == old(self).devices@[k] by {
                    assert(keys@.subrange(0, i as int)[i - 1] == key);
                    if k == key {
                        assert(keys@.subrange(0, i as int).contains(key));
                    } else {
                        let prev = keys@.subrange(0, i - 1);
                        if prev.contains(k) {
                            let j = choose|j: int| 0 <= j < prev.len() && #[trigger] prev[j] == k;
                            assert(keys@.subrange(0, i as int)[j] == k);
                        }
                    }
                }
                assert forall|k: int| 0 <= k < out@.len() implies device_input_applied(
                    &old(self).devices@[(#[trigger] out@[k]).device].arbiter,
                    &self.devices@[out@[k].device].arbiter,
                    ArbiterInput::LifecycleEvent { event_id: out@[k].event_id, intent: DesiredIntent::Dpms { level, epoch } },
                    old(self).devices@[out@[k].device].recovery_ids.spec_next(),
                    self.devices@[out@[k].device].recovery_ids.spec_next(),
                    Ok(out@[k].actions),
                ) by {
                    if k < out@.len() - 1 {
                        assert(out@[k] == out_before[k]);
                        assert(out_before[k].device == keys@.take(i - 1)[k]);
                        assert(keys@[k] != keys@[i - 1]);
                        assert(self.devices@[out@[k].device] == s_before.devices@[out@[k].device]);
                    }
                }
            }
        }
        assert(keys@.take(i as int) =~= keys@);
        assert(keys@.subrange(0, i as int) =~= keys@);
        let r = Ok(out);
        proof {
            lemma_dispatched_to_keys(r, keys@, old(self).spec_output_devices(), lo);
        }
        r
    }

    /// Project a device-local lifecycle intent. Global shutdown, seat, DPMS,
    /// and normal-recovery inputs have coordinator-owned entry points.
    pub fn project_device_intent(&mut self, device: &u32, intent: DesiredIntent) -> (r: Result<CoordinatorDispatch<u32, u32>, CoordinatorError>)
        requires
            old(self).wf(),
        ensures
            final(self).wf(),
            final(self).spec_device_keys() == old(self).spec_device_keys(),
            is_global_intent(intent) ==> r == Err::<CoordinatorDispatch<u32, u32>, CoordinatorError>(
                CoordinatorError::GlobalIntentRequiresCoordinator,
            ) && *final(self) == *old(self),
            !is_global_intent(intent) && old(self).spec_next_event_id() is None ==> *final(self) == *old(self),
            !is_global_intent(intent) && old(self).spec_next_event_id() is Some && old(self).spec_device_keys().contains(*device)
                ==> device_input_applied(
                &old(self).spec_arbiter(*device),
                &final(self).spec_arbiter(*device),
                ArbiterInput::LifecycleEvent { event_id: old(self).spec_next_event_id()->0, intent },
                old(self).spec_recovery_next(*device),
                final(self).spec_recovery_next(*device),
                dispatch_actions(r),
            ),
            forall|k: u32| k != *device && old(self).spec_device_keys().contains(k) ==> #[trigger] final(self).spec_arbiter(k)
                == old(self).spec_arbiter(k) && final(self).spec_recovery_next(k) == old(self).spec_recovery_next(k),
            !old(self).spec_device_keys().contains(*device) ==> forall|k: u32| #[trigger] final(self).spec_arbiter(k)
                == old(self).spec_arbiter(k),
            !is_global_intent(intent) && !old(self).spec_device_keys().contains(*device) ==> r is Err,
            !is_global_intent(intent) && old(self).spec_next_event_id() is None ==> r == Err::<CoordinatorDispatch<u32, u32>, CoordinatorError>(
                CoordinatorError::EventIdExhausted,
            ),
            !is_global_intent(intent) && old(self).spec_next_event_id() is Some && !old(self).spec_device_keys().contains(*device) ==> r
                == Err::<CoordinatorDispatch<u32, u32>, CoordinatorError>(CoordinatorError::UnknownDevice),
            !is_global_intent(intent) && old(self).spec_next_event_id() is Some && old(self).spec_device_keys().contains(*device) ==> r is Ok
                || r == Err::<CoordinatorDispatch<u32, u32>, CoordinatorError>(CoordinatorError::RecoveryIdExhausted),
            final(self).spec_shutdown_requested() == old(self).spec_shutdown_requested(),
            event_rank(old(self).spec_next_event_id()) <= event_rank(final(self).spec_next_event_id()),
            r matches Ok(d) ==> event_rank(old(self).spec_next_event_id()) <= d.event_id@ < event_rank(final(self).spec_next_event_id()),
            r matches Ok(d) ==> d.device == *device && old(self).spec_next_event_id() == Some(d.event_id),
    {
        match intent {
            DesiredIntent::Shutdown | DesiredIntent::Seat { .. } | DesiredIntent::Dpms { .. } | DesiredIntent::NormalRecovery {
                ..
            } => {
                return Err(CoordinatorError::GlobalIntentRequiresCoordinator);
            },
            _ => {},
        }
        self.project_with_new_id(*device, intent)
    }

    /// Route a driver-reported completion loss through the completion-unknown
    /// table. The loss gets exactly one new event id here and reaches only its
    /// reported device.
    pub fn report_completion_loss(&mut self, device: &u32) -> (r: Result<CoordinatorDispatch<u32, u32>, CoordinatorError>)
        requires
            old(self).wf(),
        ensures
            final(self).wf(),
            final(self).spec_device_keys() == old(self).spec_device_keys(),
            !old(self).spec_device_keys().contains(*device) ==> r == Err::<CoordinatorDispatch<u32, u32>, CoordinatorError>(
                CoordinatorError::UnknownDevice,
            ) && *final(self) == *old(self),
            final(self).spec_shutdown_requested() == old(self).spec_shutdown_requested(),
            event_rank(old(self).spec_next_event_id()) <= event_rank(final(self).spec_next_event_id()),
            r matches Ok(d) ==> d.event_id == old(self).spec_next_event_id().unwrap() && d.device == *device,
            old(self).spec_device_keys().contains(*device) && loss_needs_fresh_id(&old(self).spec_arbiter(*device))
                && old(self).spec_recovery_next(*device) is None ==> {
                &&& r == Err::<CoordinatorDispatch<u32, u32>, CoordinatorError>(CoordinatorError::RecoveryIdExhausted)
                &&& forall|k: u32| #[trigger] final(self).spec_arbiter(k) == old(self).spec_arbiter(k)
                &&& final(self).spec_next_event_id() == old(self).spec_next_event_id()
            },
            old(self).spec_device_keys().contains(*device) && !(loss_needs_fresh_id(&old(self).spec_arbiter(*device))
                && old(self).spec_recovery_next(*device) is None) && old(self).spec_next_event_id() is None ==> {
                &&& r == Err::<CoordinatorDispatch<u32, u32>, CoordinatorError>(CoordinatorError::EventIdExhausted)
                &&& forall|k: u32| #[trigger] final(self).spec_arbiter(k) == old(self).spec_arbiter(k)
            },
            old(self).spec_device_keys().contains(*device) && !(loss_needs_fresh_id(&old(self).spec_arbiter(*device))
                && old(self).spec_recovery_next(*device) is None) && old(self).spec_next_event_id() is Some ==> exists|
                mid_next: Option<super::values::RecoveryId>,
            |
                {
                    &&& (if loss_needs_fresh_id(&old(self).spec_arbiter(*device)) {
                        recovery_rank(mid_next) == recovery_rank(old(self).spec_recovery_next(*device)) + 1
                    } else {
                        mid_next == old(self).spec_recovery_next(*device)
                    })
                    &&& #[trigger] device_input_applied(
                        &old(self).spec_arbiter(*device),
                        &final(self).spec_arbiter(*device),
                        ArbiterInput::CompletionUnknown {
                            event_id: old(self).spec_next_event_id()->0,
                            boundary_recovery_id: loss_boundary_id(&old(self).spec_arbiter(*device), old(self).spec_recovery_next(*device)),
                        },
                        mid_next,
                        final(self).spec_recovery_next(*device),
                        dispatch_actions(r),
                    )
                },
            forall|k: u32| k != *device && old(self).spec_device_keys().contains(k) ==> #[trigger] final(self).spec_arbiter(k)
                == old(self).spec_arbiter(k) && final(self).spec_recovery_next(k) == old(self).spec_recovery_next(k),
            r matches Err(e) ==> e == CoordinatorError::UnknownDevice || e == CoordinatorError::EventIdExhausted || e
                == CoordinatorError::RecoveryIdExhausted,
            old(self).spec_device_keys().contains(*device) && old(self).spec_next_event_id() is Some ==> r is Ok || r == Err::<
                CoordinatorDispatch<u32, u32>,
                CoordinatorError,
            >(CoordinatorError::RecoveryIdExhausted),
    {
        proof {
            lemma_u32_keys_ordered();
        }
        if !self.devices.contains_key(device) {
            return Err(CoordinatorError::UnknownDevice);
        }
        let mut entry = match self.take_device(device) {
            Some(entry) => entry,
            None => {
                return Err(CoordinatorError::UnknownDevice);
            },
        };
        let ghost e0 = entry;
        let kind = match entry.arbiter.transition() {
            Some(transition) => Some(transition.kind()),
            None => None,
        };
        let existing_boundary_id = match entry.arbiter.recovery() {
            Some(incident) => match incident.origin() {
                IncidentOrigin::Boundary => Some(incident.id()),
                IncidentOrigin::CompletionLoss { .. } => None,
            },
            None => None,
        };
        let boundary = match kind {
            Some(kind) => is_recovery_boundary(kind),
            None => false,
        };
        let boundary_recovery_id = if boundary {
            match existing_boundary_id {
                Some(id) => Some(id),
                None => match entry.recovery_ids.allocate() {
                    Some(id) => Some(id),
                    None => {
                        self.put_device(*device, entry);
                        return Err(CoordinatorError::RecoveryIdExhausted);
                    },
                },
            }
        } else {
            None
        };
        let ghost mid_next = entry.recovery_ids.spec_next();
        assert(boundary_recovery_id == loss_boundary_id(&e0.arbiter, e0.recovery_ids.spec_next()));
        self.put_device(*device, entry);
        let event_id = match self.allocate_event_id() {
            Ok(id) => id,
            Err(e) => {
                return Err(e);
            },
        };
        let ghost before = *self;
        let res = self.apply_input(device, ArbiterInput::CompletionUnknown { event_id, boundary_recovery_id });
        let out = match res {
            Ok(actions) => Ok(CoordinatorDispatch { device: *device, event_id, actions }),
            Err(e) => Err(e),
        };
        proof {
            assert(dispatch_actions(out) == res);
            assert(before.devices@[*device].arbiter == e0.arbiter);
            assert(e0.arbiter == old(self).spec_arbiter(*device));
            assert(e0.recovery_ids.spec_next() == old(self).spec_recovery_next(*device));
            assert(event_id == old(self).spec_next_event_id()->0);
            assert(self.devices@[*device].arbiter == self.spec_arbiter(*device));
            assert(if loss_needs_fresh_id(&old(self).spec_arbiter(*device)) {
                recovery_rank(mid_next) == recovery_rank(old(self).spec_recovery_next(*device)) + 1
            } else {
                mid_next == old(self).spec_recovery_next(*device)
            });
            assert(device_input_applied(
                &e0.arbiter,
                &self.devices@[*device].arbiter,
                ArbiterInput::CompletionUnknown { event_id, boundary_recovery_id },
                mid_next,
                self.devices@[*device].recovery_ids.spec_next(),
                dispatch_actions(out),
            ));
        }
        out
    }

    /// Record seat ownership observed by the existing VT path. This updates
    /// only the prerequisite snapshot, then lets pending work such as DPMS
    /// converge when ownership returns.
    pub fn observe_seat_target(&mut self, target: SeatTarget) -> (r: Result<Vec<CoordinatorActionDispatch<u32, u32>>, CoordinatorError>)
        requires
            old(self).wf(),
        ensures
            final(self).wf(),
            final(self).spec_device_keys() == old(self).spec_device_keys(),
            old(self).spec_seat_epoch() == u64::MAX ==> r == Err::<Vec<CoordinatorActionDispatch<u32, u32>>, CoordinatorError>(
                CoordinatorError::EpochExhausted,
            ),
            r is Ok ==> final(self).spec_seat_target() == Some(target) && final(self).spec_seat_epoch() == old(self).spec_seat_epoch() + 1
                && final(self).spec_seat_from_feed(),
            old(self).spec_seat_epoch() < u64::MAX ==> r is Ok || r == Err::<Vec<CoordinatorActionDispatch<u32, u32>>, CoordinatorError>(
                CoordinatorError::RecoveryIdExhausted,
            ),
            r matches Ok(d) ==> d@.len() == old(self).spec_device_keys().len() && (forall|k: int| 0 <= k < d@.len()
                ==> old(self).spec_device_keys().contains(#[trigger] d@[k].device)) && (forall|j: int, k: int| 0 <= j < k < d@.len()
                ==> (#[trigger] d@[j]).device != (#[trigger] d@[k]).device),
            final(self).spec_shutdown_requested() == old(self).spec_shutdown_requested(),
            final(self).spec_next_event_id() == old(self).spec_next_event_id(),
            old(self).spec_seat_epoch() == u64::MAX ==> *final(self) == *old(self),
            r matches Ok(d) ==> forall|k: int| 0 <= k < d@.len() ==> device_input_applied(
                &old(self).spec_arbiter((#[trigger] d@[k]).device),
                &final(self).spec_arbiter(d@[k].device),
                ArbiterInput::SeatTargetObserved { target, epoch: (old(self).spec_seat_epoch() + 1) as u64 },
                old(self).spec_recovery_next(d@[k].device),
                final(self).spec_recovery_next(d@[k].device),
                Ok(d@[k].actions),
            ),
    {
        let epoch = match self.seat_epoch.checked_add(1) {
            Some(epoch) => epoch,
            None => {
                return Err(CoordinatorError::EpochExhausted);
            },
        };
        self.seat_target = Some(target);
        self.seat_epoch = epoch;
        self.seat_target_from_read_only_feed = true;
        let keys = map_keys_u32(&self.devices);
        let mut out: Vec<CoordinatorActionDispatch<u32, u32>> = Vec::new();
        let mut i: usize = 0;
        while i < keys.len()
            invariant
                0 <= i <= keys@.len(),
                self.wf(),
                self.devices@.dom() == old(self).devices@.dom(),
                self.shutdown_requested == old(self).shutdown_requested,
                self.seat_target == Some(target),
                self.seat_epoch == epoch,
                epoch == old(self).seat_epoch + 1,
                self.next_event_id == old(self).next_event_id,
                self.seat_target_from_read_only_feed,
                keys@.to_set() == old(self).devices@.dom(),
                keys@.no_duplicates(),
                out@.len() == i,
                forall|k: int| 0 <= k < i ==> (#[trigger] out@[k]).device == keys@[k],
                forall|k: u32| !keys@.subrange(0, i as int).contains(k) && old(self).devices@.contains_key(k) ==> #[trigger] self.devices@[k]
                    == old(self).devices@[k],
                forall|k: int| 0 <= k < out@.len() ==> device_input_applied(
                    &old(self).devices@[(#[trigger] out@[k]).device].arbiter,
                    &self.devices@[out@[k].device].arbiter,
                    ArbiterInput::SeatTargetObserved { target, epoch },
                    old(self).devices@[out@[k].device].recovery_ids.spec_next(),
                    self.devices@[out@[k].device].recovery_ids.spec_next(),
                    Ok(out@[k].actions),
                ),
            decreases keys@.len() - i,
        {
            let key = keys[i];
            assert(keys@.to_set().contains(key));
            let ghost s_before = *self;
            let ghost out_before = out@;
            proof {
                assert(!keys@.subrange(0, i as int).contains(key)) by {
                    if keys@.subrange(0, i as int).contains(key) {
                        let j = choose|j: int| 0 <= j < i && keys@.subrange(0, i as int)[j] == key;
                        assert(keys@[j] == keys@[i as int]);
                    }
                }
                assert(self.devices@[key] == old(self).devices@[key]);
            }
            let actions = match self.apply_input(&key, ArbiterInput::SeatTargetObserved { target, epoch }) {
                Ok(actions) => actions,
                Err(e) => {
                    return Err(e);
                },
            };
            out.push(CoordinatorActionDispatch { device: key, actions });
            i = i + 1;
            proof {
                assert forall|k: u32| !keys@.subrange(0, i as int).contains(k) && old(self).devices@.contains_key(k) implies #[trigger] self.devices@[k]
                    == old(self).devices@[k] by {
                    assert(keys@.subrange(0, i as int)[i - 1] == key);
                    if k == key {
                        assert(keys@.subrange(0, i as int).contains(key));
                    } else {
                        let prev = keys@.subrange(0, i - 1);
                        if prev.contains(k) {
                            let j = choose|j: int| 0 <= j < prev.len() && #[trigger] prev[j] == k;
                            assert(keys@.subrange(0, i as int)[j] == k);
                        }
                    }
                }
                assert forall|k: int| 0 <= k < out@.len() implies device_input_applied(
                    &old(self).devices@[(#[trigger] out@[k]).device].arbiter,
                    &self.devices@[out@[k].device].arbiter,
                    ArbiterInput::SeatTargetObserved { target, epoch },
                    old(self).devices@[out@[k].device].recovery_ids.spec_next(),
                    self.devices@[out@[k].device].recovery_ids.spec_next(),
                    Ok(out@[k].actions),
                ) by {
                    if k < out@.len() - 1 {
                        assert(out@[k] == out_before[k]);
                        assert(keys@[k] != keys@[i - 1]);
                        assert(self.devices@[out@[k].device] == s_before.devices@[out@[k].device]);
                    }
                }
            }
        }
        proof {
            keys@.unique_seq_to_set();
            assert forall|k: int| 0 <= k < out@.len() implies old(self).devices@.dom().contains(#[trigger] out@[k].device) by {
                assert(keys@.to_set().contains(keys@[k]));
            }
        }
        Ok(out)
    }

    /// Feed acknowledged driver/executor inputs to one arbiter. Event and
    /// completion-loss inputs stay coordinator-owned.
    pub fn apply_device_input(&mut self, device: &u32, input: ArbiterInput<u32>) -> (r: Result<Vec<LifecycleAction<u32>>, CoordinatorError>)
        requires
            old(self).wf(),
        ensures
            final(self).wf(),
            final(self).spec_device_keys() == old(self).spec_device_keys(),
            is_coordinator_owned(input) ==> r == Err::<Vec<LifecycleAction<u32>>, CoordinatorError>(CoordinatorError::CoordinatorOwnedInput)
                && *final(self) == *old(self),
            !is_coordinator_owned(input) && !old(self).spec_device_keys().contains(*device) ==> r
                == Err::<Vec<LifecycleAction<u32>>, CoordinatorError>(CoordinatorError::UnknownDevice) && *final(self) == *old(self),
            !is_coordinator_owned(input) && old(self).spec_device_keys().contains(*device) ==> device_input_applied(
                &old(self).spec_arbiter(*device),
                &final(self).spec_arbiter(*device),
                input,
                old(self).spec_recovery_next(*device),
                final(self).spec_recovery_next(*device),
                r,
            ),
            forall|k: u32| k != *device && old(self).spec_device_keys().contains(k) ==> #[trigger] final(self).spec_arbiter(k)
                == old(self).spec_arbiter(k) && final(self).spec_recovery_next(k) == old(self).spec_recovery_next(k),
            !is_coordinator_owned(input) && old(self).spec_device_keys().contains(*device) ==> r is Ok || r == Err::<
                Vec<LifecycleAction<u32>>,
                CoordinatorError,
            >(CoordinatorError::RecoveryIdExhausted),
            final(self).spec_shutdown_requested() == old(self).spec_shutdown_requested(),
            final(self).spec_next_event_id() == old(self).spec_next_event_id(),
    {
        match input {
            ArbiterInput::LifecycleEvent { .. } | ArbiterInput::CompletionUnknown { .. } | ArbiterInput::RecoveryIncidentAllocated {
                ..
            } | ArbiterInput::SeatTargetObserved { .. } => {
                return Err(CoordinatorError::CoordinatorOwnedInput);
            },
            _ => {},
        }
        self.apply_input(device, input)
    }

    /// Tell the arbiter that the one authorized attempt started or resolved.
    pub fn recovery_attempt(&mut self, device: &u32, tag: TransitionTag<u32>, outcome: RecoveryAttemptOutcome) -> (r: Result<
        Vec<LifecycleAction<u32>>,
        CoordinatorError,
    >)
        requires
            old(self).wf(),
        ensures
            final(self).wf(),
            final(self).spec_device_keys() == old(self).spec_device_keys(),
            !old(self).spec_device_keys().contains(*device) ==> r == Err::<Vec<LifecycleAction<u32>>, CoordinatorError>(
                CoordinatorError::UnknownDevice,
            ) && *final(self) == *old(self),
            old(self).spec_device_keys().contains(*device) ==> r is Ok || r == Err::<Vec<LifecycleAction<u32>>, CoordinatorError>(
                CoordinatorError::RecoveryIdExhausted,
            ),
            old(self).spec_device_keys().contains(*device) ==> device_input_applied(
                &old(self).spec_arbiter(*device),
                &final(self).spec_arbiter(*device),
                ArbiterInput::RecoveryAttempt { tag, outcome },
                old(self).spec_recovery_next(*device),
                final(self).spec_recovery_next(*device),
                r,
            ),
            forall|k: u32| k != *device && old(self).spec_device_keys().contains(k) ==> #[trigger] final(self).spec_arbiter(k)
                == old(self).spec_arbiter(k) && final(self).spec_recovery_next(k) == old(self).spec_recovery_next(k),
            final(self).spec_next_event_id() == old(self).spec_next_event_id(),
            final(self).spec_shutdown_requested() == old(self).spec_shutdown_requested(),
    {
        self.apply_device_input(device, ArbiterInput::RecoveryAttempt { tag, outcome })
    }

    /// One device's share of the current DPMS request is settled: its
    /// recorded terminal outcome applied or was invalidated by output
    /// removal, or its representative applied or was so invalidated, or its
    /// whole projection was removed.
    fn device_request_settled(&self, request: &DpmsRequest<u32>, device: u32, event_id: LifecycleEventId) -> (r: bool)
        requires
            self.dpms_request == Some(*request),
        ensures
            r == self.spec_device_settled(device, event_id),
    {
        proof {
            lemma_u32_keys_ordered();
        }
        let entry = match self.devices.get(&device) {
            Some(entry) => entry,
            None => {
                return false;
            },
        };
        match request.terminal_outcomes.get(&device) {
            Some(disposition) => {
                return match *disposition {
                    Disposition::Applied(_) => true,
                    Disposition::Invalidated(InvalidationReason::ProtocolOutputRemoved) => true,
                    _ => false,
                };
            },
            None => {},
        }
        match entry.arbiter.desired().representative(DesiredField::Dpms) {
            Some(representative) => {
                if representative.event_id == event_id {
                    match representative.disposition {
                        Some(Disposition::Applied(_)) => {
                            return true;
                        },
                        Some(Disposition::Invalidated(InvalidationReason::ProtocolOutputRemoved)) => {
                            return true;
                        },
                        _ => {},
                    }
                }
            },
            None => {},
        }
        request.removed_devices.contains(&device) && !any_projection_names(entry.arbiter.desired().dpms_targets(), event_id)
    }

    /// The latest protocol DPMS request is complete only if every device
    /// representative applied, or its entire current projection was removed.
    pub fn protocol_dpms_request_applied(&self) -> (r: bool)
        ensures
            r == self.spec_request_applied(),
    {
        proof {
            lemma_u32_keys_ordered();
        }
        let request = match &self.dpms_request {
            Some(request) => request,
            None => {
                return true;
            },
        };
        let devices = map_keys_u32(&request.representatives);
        let mut i: usize = 0;
        while i < devices.len()
            invariant
                0 <= i <= devices@.len(),
                self.dpms_request == Some(*request),
                crate::sorted::u32_keys_ordered(),
                devices@.to_set() == request.representatives@.dom(),
                forall|k: int| 0 <= k < i ==> self.spec_device_settled(#[trigger] devices@[k], request.representatives@[devices@[k]]),
            decreases devices@.len() - i,
        {
            let device = devices[i];
            proof {
                lemma_u32_keys_ordered();
            }
            let event_id = match request.representatives.get(&device) {
                Some(event_id) => *event_id,
                None => {
                    return false;
                },
            };
            assert(devices@.to_set().contains(device));
            if !self.device_request_settled(request, device, event_id) {
                return false;
            }
            i = i + 1;
        }
        proof {
            assert forall|d: u32| #[trigger] request.representatives@.contains_key(d) implies self.spec_device_settled(d, request.representatives@[d]) by {
                assert(devices@.to_set().contains(d));
                let k = choose|k: int| 0 <= k < devices@.len() && devices@[k] == d;
            }
        }
        true
    }

    fn project_with_new_id(&mut self, device: u32, intent: DesiredIntent) -> (r: Result<CoordinatorDispatch<u32, u32>, CoordinatorError>)
        requires
            old(self).wf(),
            intent_level_valid(intent),
        ensures
            final(self).wf(),
            final(self).devices@.dom() == old(self).devices@.dom(),
            final(self).shutdown_requested == old(self).shutdown_requested,
            final(self).seat_target == old(self).seat_target,
            final(self).seat_epoch == old(self).seat_epoch,
            final(self).protocol_dpms_level == old(self).protocol_dpms_level,
            final(self).dpms_epoch == old(self).dpms_epoch,
            event_rank(old(self).next_event_id) <= event_rank(final(self).next_event_id),
            r matches Ok(d) ==> event_rank(old(self).next_event_id) <= d.event_id@ < event_rank(final(self).next_event_id),
            r matches Ok(d) ==> d.device == device && old(self).next_event_id == Some(d.event_id) && event_rank(final(self).next_event_id)
                == d.event_id@ + 1,
            !old(self).devices@.contains_key(device) ==> r is Err,
            r matches Err(e) ==> e != CoordinatorError::DuplicateDevice,
            old(self).next_event_id is None ==> r == Err::<CoordinatorDispatch<u32, u32>, CoordinatorError>(CoordinatorError::EventIdExhausted),
            old(self).next_event_id is Some && !old(self).devices@.contains_key(device) ==> r == Err::<
                CoordinatorDispatch<u32, u32>,
                CoordinatorError,
            >(CoordinatorError::UnknownDevice),
            old(self).next_event_id is Some && old(self).devices@.contains_key(device) ==> r is Ok || r == Err::<
                CoordinatorDispatch<u32, u32>,
                CoordinatorError,
            >(CoordinatorError::RecoveryIdExhausted),
            old(self).next_event_id is None ==> *final(self) == *old(self),
            old(self).next_event_id is Some && old(self).devices@.contains_key(device) ==> device_input_applied(
                &old(self).devices@[device].arbiter,
                &final(self).devices@[device].arbiter,
                ArbiterInput::LifecycleEvent { event_id: old(self).next_event_id->0, intent },
                old(self).devices@[device].recovery_ids.spec_next(),
                final(self).devices@[device].recovery_ids.spec_next(),
                dispatch_actions(r),
            ),
            forall|k: u32| k != device && old(self).devices@.contains_key(k) ==> #[trigger] final(self).devices@[k] == old(self).devices@[k],
            !old(self).devices@.contains_key(device) ==> final(self).devices == old(self).devices,
    {
        let event_id = match self.allocate_event_id() {
            Ok(id) => id,
            Err(e) => {
                return Err(e);
            },
        };
        let actions = match self.project_existing_id(&device, event_id, intent) {
            Ok(actions) => actions,
            Err(e) => {
                return Err(e);
            },
        };
        Ok(CoordinatorDispatch { device, event_id, actions })
    }

    fn project_existing_id(&mut self, device: &u32, event_id: LifecycleEventId, intent: DesiredIntent) -> (r: Result<Vec<LifecycleAction<u32>>, CoordinatorError>)
        requires
            old(self).wf(),
            intent_level_valid(intent),
        ensures
            final(self).wf(),
            final(self).devices@.dom() == old(self).devices@.dom(),
            final(self).shutdown_requested == old(self).shutdown_requested,
            final(self).seat_target == old(self).seat_target,
            final(self).seat_epoch == old(self).seat_epoch,
            final(self).protocol_dpms_level == old(self).protocol_dpms_level,
            final(self).dpms_epoch == old(self).dpms_epoch,
            final(self).next_event_id == old(self).next_event_id,
            !old(self).devices@.contains_key(*device) ==> r == Err::<Vec<LifecycleAction<u32>>, CoordinatorError>(CoordinatorError::UnknownDevice)
                && *final(self) == *old(self),
            r matches Err(e) ==> e != CoordinatorError::DuplicateDevice,
            old(self).devices@.contains_key(*device) && r is Err ==> r == Err::<Vec<LifecycleAction<u32>>, CoordinatorError>(
                CoordinatorError::RecoveryIdExhausted,
            ),
            old(self).devices@.contains_key(*device) ==> device_input_applied(
                &old(self).devices@[*device].arbiter,
                &final(self).devices@[*device].arbiter,
                ArbiterInput::LifecycleEvent { event_id, intent },
                old(self).devices@[*device].recovery_ids.spec_next(),
                final(self).devices@[*device].recovery_ids.spec_next(),
                r,
            ),
            forall|k: u32| k != *device && old(self).devices@.contains_key(k) ==> #[trigger] final(self).devices@[k] == old(self).devices@[k],
    {
        self.apply_input(device, ArbiterInput::LifecycleEvent { event_id, intent })
    }

    /// Apply one input to a device arbiter, materialize every recovery
    /// incident it asks for, and record the current DPMS request's terminal
    /// outcome for that device.
    fn apply_input(&mut self, device: &u32, input: ArbiterInput<u32>) -> (r: Result<Vec<LifecycleAction<u32>>, CoordinatorError>)
        requires
            old(self).wf(),
            input_levels_valid(input),
        ensures
            final(self).seat_target_from_read_only_feed == old(self).seat_target_from_read_only_feed,
            final(self).wf(),
            final(self).devices@.dom() == old(self).devices@.dom(),
            final(self).shutdown_requested == old(self).shutdown_requested,
            final(self).seat_target == old(self).seat_target,
            final(self).seat_epoch == old(self).seat_epoch,
            final(self).protocol_dpms_level == old(self).protocol_dpms_level,
            final(self).dpms_epoch == old(self).dpms_epoch,
            final(self).next_event_id == old(self).next_event_id,
            !old(self).devices@.contains_key(*device) ==> r == Err::<Vec<LifecycleAction<u32>>, CoordinatorError>(CoordinatorError::UnknownDevice)
                && *final(self) == *old(self),
            r matches Err(e) ==> e == CoordinatorError::UnknownDevice || e == CoordinatorError::RecoveryIdExhausted,
            old(self).devices@.contains_key(*device) && r is Err ==> r == Err::<Vec<LifecycleAction<u32>>, CoordinatorError>(
                CoordinatorError::RecoveryIdExhausted,
            ),
            old(self).devices@.contains_key(*device) ==> device_input_applied(
                &old(self).devices@[*device].arbiter,
                &final(self).devices@[*device].arbiter,
                input,
                old(self).devices@[*device].recovery_ids.spec_next(),
                final(self).devices@[*device].recovery_ids.spec_next(),
                r,
            ),
            forall|k: u32| k != *device && old(self).devices@.contains_key(k) ==> #[trigger] final(self).devices@[k] == old(self).devices@[k],
    {
        proof {
            lemma_u32_keys_ordered();
        }
        if !self.devices.contains_key(device) {
            return Err(CoordinatorError::UnknownDevice);
        }
        let mut entry = match self.take_device(device) {
            Some(entry) => entry,
            None => {
                return Err(CoordinatorError::UnknownDevice);
            },
        };
        let ghost e0 = entry;
        let mut actions = entry.arbiter.apply(input);
        let ghost mid = entry.arbiter;
        let ghost first = actions@;
        let complete = materialize_incidents(&mut entry, &mut actions);
        self.put_device(*device, entry);
        assert(super::arbiter::applied(&e0.arbiter, &mid, input, first));
        if !complete {
            return Err(CoordinatorError::RecoveryIdExhausted);
        }
        self.record_request_outcome(device, &actions);
        Ok(actions)
    }

    /// Record the terminal disposition of the device's current DPMS request
    /// representative, when the actions report one.
    fn record_request_outcome(&mut self, device: &u32, actions: &Vec<LifecycleAction<u32>>)
        ensures
            final(self).devices == old(self).devices,
            final(self).shutdown_requested == old(self).shutdown_requested,
            final(self).seat_target == old(self).seat_target,
            final(self).seat_epoch == old(self).seat_epoch,
            final(self).seat_target_from_read_only_feed == old(self).seat_target_from_read_only_feed,
            final(self).protocol_dpms_level == old(self).protocol_dpms_level,
            final(self).dpms_epoch == old(self).dpms_epoch,
            final(self).next_event_id == old(self).next_event_id,
            old(self).dpms_request is None ==> final(self).dpms_request is None,
            old(self).dpms_request matches Some(req) ==> (final(self).dpms_request matches Some(f) && f.level == req.level && f.epoch
                == req.epoch && f.representatives == req.representatives && f.removed_devices == req.removed_devices
                && f.terminal_outcomes@ == (if req.representatives@.contains_key(*device) && last_terminal_for(
                actions@,
                req.representatives@[*device],
            ) is Some {
                req.terminal_outcomes@.insert(*device, last_terminal_for(actions@, req.representatives@[*device])->0)
            } else {
                req.terminal_outcomes@
            })),
    {
        proof {
            lemma_u32_keys_ordered();
        }
        let mut request = match self.dpms_request.take() {
            Some(request) => request,
            None => {
                return;
            },
        };
        let current = match request.representatives.get(device) {
            Some(event_id) => Some(*event_id),
            None => None,
        };
        match current {
            Some(event_id) => {
                let ghost t0 = request.terminal_outcomes@;
                let ghost r0 = request;
                let mut i: usize = 0;
                while i < actions.len()
                    invariant
                        0 <= i <= actions@.len(),
                        request.level == r0.level && request.epoch == r0.epoch && request.representatives == r0.representatives
                            && request.removed_devices == r0.removed_devices,
                        request.terminal_outcomes@ == match last_terminal_for(actions@.take(i as int), event_id) {
                            Some(d) => t0.insert(*device, d),
                            None => t0,
                        },
                    decreases actions@.len() - i,
                {
                    assert(actions@.take(i + 1).drop_last() =~= actions@.take(i as int));
                    assert(actions@.take(i + 1).last() == actions@[i as int]);
                    match &actions[i] {
                        LifecycleAction::DispositionChanged { event_id: changed, disposition } => {
                            if *changed == event_id && disposition.is_terminal() {
                                proof {
                                    lemma_u32_keys_ordered();
                                }
                                request.terminal_outcomes.insert(*device, *disposition);
                                assert(request.terminal_outcomes@ =~= t0.insert(*device, *disposition));
                            }
                        },
                        _ => {},
                    }
                    i = i + 1;
                }
                assert(actions@.take(i as int) =~= actions@);
            },
            None => {},
        }
        self.dpms_request = Some(request);
    }

    fn allocate_event_id(&mut self) -> (r: Result<LifecycleEventId, CoordinatorError>)
        ensures
            final(self).devices == old(self).devices,
            final(self).shutdown_requested == old(self).shutdown_requested,
            final(self).seat_target == old(self).seat_target,
            final(self).seat_epoch == old(self).seat_epoch,
            final(self).seat_target_from_read_only_feed == old(self).seat_target_from_read_only_feed,
            final(self).protocol_dpms_level == old(self).protocol_dpms_level,
            final(self).dpms_epoch == old(self).dpms_epoch,
            final(self).dpms_request == old(self).dpms_request,
            old(self).next_event_id is None ==> r == Err::<LifecycleEventId, CoordinatorError>(CoordinatorError::EventIdExhausted)
                && final(self).next_event_id is None,
            old(self).next_event_id matches Some(id) ==> r == Ok::<LifecycleEventId, CoordinatorError>(id)
                && event_rank(final(self).next_event_id) == id@ + 1,
    {
        match self.next_event_id {
            Some(event_id) => {
                self.next_event_id = event_id.checked_next();
                Ok(event_id)
            },
            None => Err(CoordinatorError::EventIdExhausted),
        }
    }

    /// Refuse up front when fewer than `count` event ids remain, so a global
    /// projection never reaches only some devices for want of ids.
    fn check_ids(&self, count: usize) -> (r: Result<(), CoordinatorError>)
        ensures
            r is Ok <==> event_rank(self.next_event_id) + count <= u64::MAX + 1,
            r is Err ==> r == Err::<(), CoordinatorError>(CoordinatorError::EventIdExhausted),
    {
        match self.next_event_id {
            Some(id) => {
                let raw = id.get();
                if (count as u128) <= (u64::MAX as u128) + 1 - (raw as u128) {
                    Ok(())
                } else {
                    Err(CoordinatorError::EventIdExhausted)
                }
            },
            None => if count == 0 {
                Ok(())
            } else {
                Err(CoordinatorError::EventIdExhausted)
            },
        }
    }
}

} // verus!
