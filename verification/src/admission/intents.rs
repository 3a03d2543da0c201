//! The queued intents of one device and the rules that replace or refuse them.
use vstd::prelude::*;

use std::collections::{BTreeMap, BTreeSet};

use super::bound::{bound_view, BoundView, MaintenanceBound};
use super::{AdmissionError, CrtcId};
use crate::sorted::{lemma_u32_keys_ordered, lemma_u64_keys_ordered};

verus! {

broadcast use vstd::std_specs::btree::group_btree_axioms;

#[derive(Debug, Clone, Copy, PartialEq, Eq, Structural, PartialOrd, Ord, Hash)]
pub enum MaintenanceClass {
    Cursor,
    Gamma,
}

/// One maintenance identity: a plane class on one CRTC.
#[derive(Debug, Clone, Copy, PartialEq, Eq, Structural, PartialOrd, Ord, Hash)]
pub struct MaintenanceKey {
    pub crtc: CrtcId,
    pub class: MaintenanceClass,
}

/// The position of a maintenance identity in key order: CRTC first, then class.
pub open spec fn key_code(k: MaintenanceKey) -> u64 {
    (k.crtc * 2 + (if k.class == MaintenanceClass::Gamma { 1int } else { 0int })) as u64
}

/// The identity at a position in key order.
pub open spec fn key_of_code(c: u64) -> MaintenanceKey {
    MaintenanceKey {
        crtc: (c / 2) as u32,
        class: if c % 2 == 0 { MaintenanceClass::Cursor } else { MaintenanceClass::Gamma },
    }
}

/// Positions that some identity occupies.
pub open spec fn is_key_code(c: u64) -> bool {
    c < 0x2_0000_0000
}

pub proof fn lemma_key_code(k: MaintenanceKey)
    ensures
        is_key_code(key_code(k)),
        key_of_code(key_code(k)) == k,
{
}

pub proof fn lemma_code_key(c: u64)
    requires
        is_key_code(c),
    ensures
        key_code(key_of_code(c)) == c,
{
}

/// Distinct identities occupy distinct positions.
pub proof fn lemma_key_code_injective(a: MaintenanceKey, b: MaintenanceKey)
    ensures
        key_code(a) == key_code(b) <==> a == b,
{
    lemma_key_code(a);
    lemma_key_code(b);
}

impl MaintenanceKey {
    pub fn code(&self) -> (r: u64)
        ensures
            r == key_code(*self),
            is_key_code(r),
    {
        let rank: u64 = match self.class {
            MaintenanceClass::Cursor => 0,
            MaintenanceClass::Gamma => 1,
        };
        self.crtc as u64 * 2 + rank
    }

    pub fn from_code(c: u64) -> (r: MaintenanceKey)
        requires
            is_key_code(c),
        ensures
            r == key_of_code(c),
            key_code(r) == c,
    {
        let class = if c % 2 == 0 {
            MaintenanceClass::Cursor
        } else {
            MaintenanceClass::Gamma
        };
        MaintenanceKey { crtc: (c / 2) as u32, class }
    }
}

/// The order in which maintenance work was first admitted.
#[derive(Debug, Clone, Copy, PartialEq, Eq, Structural, PartialOrd, Ord, Hash)]
pub struct AdmissionTicket(pub u64);

#[derive(Debug, Clone, Copy, PartialEq, Eq, Structural)]
pub struct MaintenanceIntent {
    pub generation: u64,
    pub ticket: AdmissionTicket,
    pub aged: bool,
}

#[derive(Debug, Clone, Copy, PartialEq, Eq, Structural)]
pub enum ReentryKind {
    Rejected,
    Unknown,
}

#[derive(Debug, Clone, Copy, PartialEq, Eq, Structural)]
pub enum Reentry {
    Reentered,
    Dropped,
}

/// The device-wide order in which primary work was first queued.
#[derive(Debug, Clone, Copy, PartialEq, Eq, Structural, PartialOrd, Ord, Hash)]
pub struct PrimaryOrdinal(pub u64);

#[derive(Debug, Clone, Copy, PartialEq, Eq, Structural)]
pub struct ComposedIntent {
    pub generation: u64,
    pub ordinal: PrimaryOrdinal,
}

#[derive(Debug, Clone, PartialEq, Eq)]
pub struct DirectSuccessor {
    pub source_generation: u64,
    pub layout_generation: u64,
    pub topology_generation: u64,
    pub crtcs: BTreeSet<CrtcId>,
}

#[derive(Debug, Clone, PartialEq, Eq)]
pub struct QueuedDirect {
    pub successor: DirectSuccessor,
    pub ordinal: PrimaryOrdinal,
}

#[derive(Debug, Clone, PartialEq, Eq)]
pub struct UnflipBarrier {
    pub crtcs: BTreeSet<CrtcId>,
}

/// A maintenance generation handed to the device and not yet resolved.
#[derive(Debug, Clone, Copy, PartialEq, Eq, Structural)]
pub struct SubmittedMaintenance {
    pub generation: u64,
    pub ticket: AdmissionTicket,
}

/// A copy of a successor with the same fields.
pub fn copy_successor(s: &DirectSuccessor) -> (r: DirectSuccessor)
    ensures
        r.source_generation == s.source_generation,
        r.layout_generation == s.layout_generation,
        r.topology_generation == s.topology_generation,
        r.crtcs@ == s.crtcs@,
{
    DirectSuccessor {
        source_generation: s.source_generation,
        layout_generation: s.layout_generation,
        topology_generation: s.topology_generation,
        crtcs: s.crtcs.clone(),
    }
}

/// The queued intents of one device.
#[derive(Debug)]
pub struct Admission {
    pub(crate) composed: BTreeMap<CrtcId, ComposedIntent>,
    pub(crate) direct: Option<QueuedDirect>,
    pub(crate) unflip: Option<UnflipBarrier>,
    pub(crate) topology: Option<u64>,
    pub(crate) maintenance_slots: BTreeMap<u64, MaintenanceIntent>,
    pub(crate) maintenance_current: BTreeMap<u64, u64>,
    pub(crate) maintenance_submitted: BTreeMap<u64, SubmittedMaintenance>,
    pub(crate) rejection_counts: BTreeMap<u64, u32>,
    pub(crate) maintenance_bounds: BTreeMap<u64, MaintenanceBound>,
    pub(crate) cursor_recovery: BTreeSet<CrtcId>,
    pub(crate) next_ordinal: u64,
    pub(crate) next_ticket: u64,
    pub(crate) locked: Option<u64>,
    pub(crate) sequence: u64,
    pub(crate) last_primary_crtcs: BTreeSet<CrtcId>,
    pub(crate) next_lock_serial: u64,
}

/// The maintenance state after marking the slot at `c` aged.
pub open spec fn aged_slots(slots: Map<u64, MaintenanceIntent>, c: u64) -> Map<u64, MaintenanceIntent> {
    if slots.contains_key(c) {
        slots.insert(c, MaintenanceIntent { aged: true, ..slots[c] })
    } else {
        slots
    }
}

/// The aged identities other than `c` whose ticket is older than `t`.
pub open spec fn older_aged_for(slots: Map<u64, MaintenanceIntent>, c: u64, t: u64) -> Set<u64> {
    Set::new(|o: u64| o != c && slots.contains_key(o) && slots[o].aged && slots[o].ticket.0 < t)
}

/// The wait bounds after the identity at `c` became aged with ticket `t`:
/// its own bound follows the ticket (or starts counting the older aged
/// identities), and every bound with a newer ticket learns of it.
pub open spec fn aged_bounds(bounds: Map<u64, BoundView>, slots: Map<u64, MaintenanceIntent>, c: u64, t: u64) -> Map<u64, BoundView> {
    Map::new(
        |o: u64| o == c || bounds.contains_key(o),
        |o: u64|
            if o == c {
                if bounds.contains_key(c) {
                    BoundView { ticket: t, ..bounds[c] }
                } else {
                    BoundView { ticket: t, waited: 0, older: older_aged_for(slots, c, t) }
                }
            } else if t < bounds[o].ticket {
                BoundView { older: bounds[o].older.insert(c), ..bounds[o] }
            } else {
                bounds[o]
            },
    )
}

/// The ticket and age a newly offered generation takes at position `c`.
pub open spec fn offered_intent(a: Admission, c: u64, generation: u64, behind_commit: bool) -> MaintenanceIntent {
    let submitted = a.submitted().contains_key(c);
    if !a.slots().contains_key(c) {
        MaintenanceIntent { generation, ticket: AdmissionTicket(a.tickets_issued()), aged: behind_commit || submitted }
    } else if submitted && a.submitted()[c].ticket == a.slots()[c].ticket {
        MaintenanceIntent { generation, ticket: AdmissionTicket(a.tickets_issued()), aged: true }
    } else {
        MaintenanceIntent { generation, ticket: a.slots()[c].ticket, aged: a.slots()[c].aged || behind_commit || submitted }
    }
}

/// An offered generation needs a fresh ticket: nothing is queued, or the
/// queued ticket is already on the device.
pub open spec fn offer_needs_ticket(a: Admission, c: u64) -> bool {
    !a.slots().contains_key(c) || (a.submitted().contains_key(c) && a.submitted()[c].ticket == a.slots()[c].ticket)
}

/// The slot a re-entered generation leaves at position `c`: the newer
/// generation stays, with the older of the two tickets, and is aged.
pub open spec fn reentered_intent(slots: Map<u64, MaintenanceIntent>, c: u64, generation: u64, ticket: AdmissionTicket) -> MaintenanceIntent {
    if slots.contains_key(c) && slots[c].generation >= generation {
        MaintenanceIntent {
            generation: slots[c].generation,
            ticket: if slots[c].ticket.0 <= ticket.0 { slots[c].ticket } else { ticket },
            aged: true,
        }
    } else {
        MaintenanceIntent { generation, ticket, aged: true }
    }
}

/// The rejection count after one more rejection; it saturates at two.
pub open spec fn bumped_rejections(rejections: Map<u64, u32>, c: u64) -> u32 {
    let prior = if rejections.contains_key(c) { rejections[c] } else { 0u32 };
    if prior < 2 { (prior + 1) as u32 } else { prior }
}

/// Rejected reentries saturate at two: from no record the first counts one
/// (and reenters), the second counts two (and drops the intent), and later
/// ones stay at two; other reentries leave the count alone.
pub proof fn lemma_rejections_saturate(rejections: Map<u64, u32>, c: u64)
    ensures
        !rejections.contains_key(c) ==> bumped_rejections(rejections, c) == 1 && bumped_rejections(
            rejections.insert(c, bumped_rejections(rejections, c)),
            c,
        ) == 2,
        rejections.contains_key(c) && rejections[c] >= 2 ==> bumped_rejections(rejections, c) == rejections[c],
        bumped_rejections(rejections, c) <= 2 || (rejections.contains_key(c) && bumped_rejections(rejections, c) == rejections[c]),
{
}

impl Admission {
    pub closed spec fn composed_map(&self) -> Map<CrtcId, ComposedIntent> {
        self.composed@
    }

    pub closed spec fn queued_direct(&self) -> Option<QueuedDirect> {
        self.direct
    }

    pub closed spec fn barrier(&self) -> Option<Set<CrtcId>> {
        match self.unflip {
            Some(b) => Some(b.crtcs@),
            None => None,
        }
    }

    pub closed spec fn queued_topology(&self) -> Option<u64> {
        self.topology
    }

    pub closed spec fn cursor_set(&self) -> Set<CrtcId> {
        self.cursor_recovery@
    }

    /// The next primary ordinal to hand out.
    pub closed spec fn ordinals_issued(&self) -> u64 {
        self.next_ordinal
    }

    /// The next maintenance ticket to hand out.
    pub closed spec fn tickets_issued(&self) -> u64 {
        self.next_ticket
    }

    /// Queued maintenance, by identity position.
    pub closed spec fn slots(&self) -> Map<u64, MaintenanceIntent> {
        self.maintenance_slots@
    }

    /// The generation the device shows, by identity position.
    pub closed spec fn shown(&self) -> Map<u64, u64> {
        self.maintenance_current@
    }

    pub closed spec fn submitted(&self) -> Map<u64, SubmittedMaintenance> {
        self.maintenance_submitted@
    }

    pub closed spec fn rejections(&self) -> Map<u64, u32> {
        self.rejection_counts@
    }

    pub closed spec fn bounds(&self) -> Map<u64, BoundView> {
        Map::new(|c: u64| self.maintenance_bounds@.contains_key(c), |c: u64| bound_view(self.maintenance_bounds@[c]))
    }

    pub closed spec fn lock_serial(&self) -> Option<u64> {
        self.locked
    }

    pub closed spec fn sequence_number(&self) -> u64 {
        self.sequence
    }

    pub closed spec fn last_primary(&self) -> Set<CrtcId> {
        self.last_primary_crtcs@
    }

    pub closed spec fn serials_issued(&self) -> u64 {
        self.next_lock_serial
    }

    /// Everything that primary admission reads.
    pub closed spec fn primary_part(&self) -> (Map<CrtcId, ComposedIntent>, Option<QueuedDirect>, Option<Set<CrtcId>>, Option<u64>, Set<CrtcId>, u64) {
        (self.composed_map(), self.queued_direct(), self.barrier(), self.queued_topology(), self.cursor_set(), self.ordinals_issued())
    }

    /// Everything that maintenance admission reads.
    pub closed spec fn maintenance_part(&self) -> (Map<u64, MaintenanceIntent>, Map<u64, u64>, Map<u64, SubmittedMaintenance>, Map<u64, u32>, Map<u64, BoundView>, u64) {
        (self.slots(), self.shown(), self.submitted(), self.rejections(), self.bounds(), self.tickets_issued())
    }

    /// The lock and the confirmation history.
    pub closed spec fn lock_part(&self) -> (Option<u64>, u64, Set<CrtcId>, u64) {
        (self.lock_serial(), self.sequence_number(), self.last_primary(), self.serials_issued())
    }

    pub closed spec fn wf(&self) -> bool {
        &&& forall|c: u64| #[trigger] self.maintenance_slots@.contains_key(c) ==> is_key_code(c)
        &&& forall|c: u64| #[trigger] self.maintenance_current@.contains_key(c) ==> is_key_code(c)
        &&& forall|c: u64| #[trigger] self.maintenance_submitted@.contains_key(c) ==> is_key_code(c)
        &&& forall|c: u64| #[trigger] self.rejection_counts@.contains_key(c) ==> is_key_code(c)
        &&& forall|c: u64| #[trigger] self.maintenance_bounds@.contains_key(c) ==> is_key_code(c)
        &&& forall|c: u64, o: u64| #[trigger] self.maintenance_bounds@.contains_key(c) && #[trigger] self.maintenance_bounds@[c].older_aged@.contains(o) ==> is_key_code(o)
        &&& forall|crtc: CrtcId| #[trigger] self.composed@.contains_key(crtc) ==> self.composed@[crtc].ordinal.0 < self.next_ordinal
        &&& (self.direct matches Some(q) ==> q.ordinal.0 < self.next_ordinal)
                &&& forall|x: CrtcId, y: CrtcId| #[trigger] self.composed@.contains_key(x) && #[trigger] self.composed@.contains_key(y) && x != y ==> self.composed@[x].ordinal != self.composed@[y].ordinal
                &&& (self.direct matches Some(q) ==> forall|x: CrtcId| #[trigger] self.composed@.contains_key(x) ==> self.composed@[x].ordinal != q.ordinal)
    }

    /// Ordinals are device-monotonic across shapes: every queued primary,
    /// composed or direct, holds an ordinal below the one the next newly
    /// queued primary receives, so later work always sorts after it.
    pub proof fn lemma_queued_ordinals_precede_next(&self)
        requires
            self.wf(),
        ensures
            forall|crtc: CrtcId| #[trigger] self.composed_map().contains_key(crtc) ==> self.composed_map()[crtc].ordinal.0 < self.ordinals_issued(),
            self.queued_direct() is Some ==> self.queued_direct()->0.ordinal.0 < self.ordinals_issued(),
    {
    }

    /// Every queued identity position is a valid key position.
    pub proof fn lemma_wf_codes(&self)
        requires
            self.wf(),
        ensures
            forall|c: u64| #[trigger] self.slots().contains_key(c) ==> is_key_code(c),
            forall|c: u64| #[trigger] self.bounds().contains_key(c) ==> is_key_code(c),
            forall|crtc: CrtcId, other: CrtcId| #[trigger] self.composed_map().contains_key(crtc) && #[trigger] self.composed_map().contains_key(other) && crtc != other
                ==> self.composed_map()[crtc].ordinal != self.composed_map()[other].ordinal,
            self.queued_direct() is Some ==> forall|crtc: CrtcId| #[trigger] self.composed_map().contains_key(crtc) ==> self.composed_map()[crtc].ordinal != self.queued_direct()->0.ordinal,
    {
    }

    /// The accessors in terms of the fields, for the other admission modules.
    pub(crate) proof fn lemma_reveal(&self)
        ensures
            self.composed_map() == self.composed@,
            self.queued_direct() == self.direct,
            self.barrier() == (match self.unflip {
                Some(b) => Some(b.crtcs@),
                None => None,
            }),
            self.queued_topology() == self.topology,
            self.cursor_set() == self.cursor_recovery@,
            self.ordinals_issued() == self.next_ordinal,
            self.tickets_issued() == self.next_ticket,
            self.slots() == self.maintenance_slots@,
            self.shown() == self.maintenance_current@,
            self.submitted() == self.maintenance_submitted@,
            self.rejections() == self.rejection_counts@,
            self.bounds() == Map::new(|c: u64| self.maintenance_bounds@.contains_key(c), |c: u64| bound_view(self.maintenance_bounds@[c])),
            self.lock_serial() == self.locked,
            self.sequence_number() == self.sequence,
            self.last_primary() == self.last_primary_crtcs@,
            self.serials_issued() == self.next_lock_serial,
            self.primary_part() == (self.composed_map(), self.queued_direct(), self.barrier(), self.queued_topology(), self.cursor_set(), self.ordinals_issued()),
            self.maintenance_part() == (self.slots(), self.shown(), self.submitted(), self.rejections(), self.bounds(), self.tickets_issued()),
            self.lock_part() == (self.lock_serial(), self.sequence_number(), self.last_primary(), self.serials_issued()),
            self.wf() == ({
                &&& forall|c: u64| #[trigger] self.maintenance_slots@.contains_key(c) ==> is_key_code(c)
                &&& forall|c: u64| #[trigger] self.maintenance_current@.contains_key(c) ==> is_key_code(c)
                &&& forall|c: u64| #[trigger] self.maintenance_submitted@.contains_key(c) ==> is_key_code(c)
                &&& forall|c: u64| #[trigger] self.rejection_counts@.contains_key(c) ==> is_key_code(c)
                &&& forall|c: u64| #[trigger] self.maintenance_bounds@.contains_key(c) ==> is_key_code(c)
                &&& forall|c: u64, o: u64| #[trigger] self.maintenance_bounds@.contains_key(c) && #[trigger] self.maintenance_bounds@[c].older_aged@.contains(o) ==> is_key_code(o)
                &&& forall|crtc: CrtcId| #[trigger] self.composed@.contains_key(crtc) ==> self.composed@[crtc].ordinal.0 < self.next_ordinal
                &&& (self.direct matches Some(q) ==> q.ordinal.0 < self.next_ordinal)
                &&& forall|x: CrtcId, y: CrtcId| #[trigger] self.composed@.contains_key(x) && #[trigger] self.composed@.contains_key(y) && x != y ==> self.composed@[x].ordinal != self.composed@[y].ordinal
                &&& (self.direct matches Some(q) ==> forall|x: CrtcId| #[trigger] self.composed@.contains_key(x) ==> self.composed@[x].ordinal != q.ordinal)
            }),
    {
    }

    pub fn new() -> (r: Self)
        ensures
            r.wf(),
            r.composed_map() == Map::<CrtcId, ComposedIntent>::empty(),
            r.queued_direct() is None,
            r.barrier() is None,
            r.queued_topology() is None,
            r.cursor_set() == Set::<CrtcId>::empty(),
            r.ordinals_issued() == 0,
            r.tickets_issued() == 0,
            r.slots() == Map::<u64, MaintenanceIntent>::empty(),
            r.shown() == Map::<u64, u64>::empty(),
            r.submitted() == Map::<u64, SubmittedMaintenance>::empty(),
            r.rejections() == Map::<u64, u32>::empty(),
            r.bounds() == Map::<u64, BoundView>::empty(),
            r.lock_serial() is None,
            r.sequence_number() == 0,
            r.last_primary() == Set::<CrtcId>::empty(),
            r.serials_issued() == 0,
    {
        let r = Admission {
            composed: BTreeMap::new(),
            direct: None,
            unflip: None,
            topology: None,
            maintenance_slots: BTreeMap::new(),
            maintenance_current: BTreeMap::new(),
            maintenance_submitted: BTreeMap::new(),
            rejection_counts: BTreeMap::new(),
            maintenance_bounds: BTreeMap::new(),
            cursor_recovery: BTreeSet::new(),
            next_ordinal: 0,
            next_ticket: 0,
            locked: None,
            sequence: 0,
            last_primary_crtcs: BTreeSet::new(),
            next_lock_serial: 0,
        };
        assert(r.bounds() =~= Map::<u64, BoundView>::empty());
        r
    }

    fn allocate_ordinal(&mut self) -> (r: PrimaryOrdinal)
        requires
            old(self).next_ordinal < u64::MAX,
        ensures
            r.0 == old(self).next_ordinal,
            final(self).next_ordinal == old(self).next_ordinal + 1,
            final(self).composed == old(self).composed,
            final(self).direct == old(self).direct,
            final(self).unflip == old(self).unflip,
            final(self).topology == old(self).topology,
            final(self).maintenance_slots == old(self).maintenance_slots,
            final(self).maintenance_current == old(self).maintenance_current,
            final(self).maintenance_submitted == old(self).maintenance_submitted,
            final(self).rejection_counts == old(self).rejection_counts,
            final(self).maintenance_bounds == old(self).maintenance_bounds,
            final(self).cursor_recovery == old(self).cursor_recovery,
            final(self).next_ticket == old(self).next_ticket,
            final(self).locked == old(self).locked,
            final(self).sequence == old(self).sequence,
            final(self).last_primary_crtcs == old(self).last_primary_crtcs,
            final(self).next_lock_serial == old(self).next_lock_serial,
    {
        let ordinal = PrimaryOrdinal(self.next_ordinal);
        self.next_ordinal = self.next_ordinal + 1;
        ordinal
    }

    /// Queue the newest composed generation for a CRTC; a CRTC keeps the
    /// ordinal it was first queued with.
    pub fn set_composed(&mut self, crtc: CrtcId, generation: u64) -> (r: Result<(), AdmissionError>)
        requires
            old(self).wf(),
            old(self).composed_map().contains_key(crtc) || old(self).ordinals_issued() < u64::MAX,
        ensures
            final(self).wf(),
            old(self).composed_map().contains_key(crtc) && generation <= old(self).composed_map()[crtc].generation ==> {
                &&& r == Err::<(), AdmissionError>(AdmissionError::StaleGeneration {
                    queued: old(self).composed_map()[crtc].generation,
                    offered: generation,
                })
                &&& *final(self) == *old(self)
            },
            !(old(self).composed_map().contains_key(crtc) && generation <= old(self).composed_map()[crtc].generation) ==> {
                &&& r is Ok
                &&& final(self).composed_map() == old(self).composed_map().insert(
                    crtc,
                    ComposedIntent {
                        generation,
                        ordinal: if old(self).composed_map().contains_key(crtc) {
                            old(self).composed_map()[crtc].ordinal
                        } else {
                            PrimaryOrdinal(old(self).ordinals_issued())
                        },
                    },
                )
                &&& final(self).ordinals_issued() == old(self).ordinals_issued() + if old(self).composed_map().contains_key(crtc) { 0int } else { 1int }
                &&& final(self).queued_direct() == old(self).queued_direct()
                &&& final(self).barrier() == old(self).barrier()
                &&& final(self).queued_topology() == old(self).queued_topology()
                &&& final(self).cursor_set() == old(self).cursor_set()
                &&& final(self).maintenance_part() == old(self).maintenance_part()
                &&& final(self).lock_part() == old(self).lock_part()
            },
    {
        proof {
            lemma_u32_keys_ordered();
        }
        let (present, current_generation, current_ordinal) = match self.composed.get(&crtc) {
            Some(current) => (true, current.generation, current.ordinal),
            None => (false, 0, PrimaryOrdinal(0)),
        };
        if present && generation <= current_generation {
            return Err(AdmissionError::StaleGeneration { queued: current_generation, offered: generation });
        }
        let ordinal = if present {
            current_ordinal
        } else {
            self.allocate_ordinal()
        };
        self.composed.insert(crtc, ComposedIntent { generation, ordinal });
        assert(self.bounds() =~= old(self).bounds());
        Ok(())
    }

    /// Queue a direct successor, displacing (and returning) an older one
    /// while keeping its ordinal.
    pub fn set_direct_successor(&mut self, successor: DirectSuccessor) -> (r: Result<Option<DirectSuccessor>, AdmissionError>)
        requires
            old(self).wf(),
            successor.crtcs@.is_empty() || old(self).barrier() is Some || old(self).queued_direct() is Some
                || old(self).ordinals_issued() < u64::MAX,
        ensures
            final(self).wf(),
            successor.crtcs@.is_empty() ==> r == Err::<Option<DirectSuccessor>, AdmissionError>(AdmissionError::EmptyCrtcSet) && *final(self) == *old(self),
            !successor.crtcs@.is_empty() && old(self).barrier() is Some ==> r == Err::<Option<DirectSuccessor>, AdmissionError>(AdmissionError::UnflipPending) && *final(self) == *old(self),
            !successor.crtcs@.is_empty() && old(self).barrier() is None && old(self).queued_direct() is Some
                && successor.source_generation <= old(self).queued_direct()->0.successor.source_generation ==> {
                &&& r == Err::<Option<DirectSuccessor>, AdmissionError>(AdmissionError::StaleGeneration {
                    queued: old(self).queued_direct()->0.successor.source_generation,
                    offered: successor.source_generation,
                })
                &&& *final(self) == *old(self)
            },
            !successor.crtcs@.is_empty() && old(self).barrier() is None && !(old(self).queued_direct() is Some
                && successor.source_generation <= old(self).queued_direct()->0.successor.source_generation) ==> {
                &&& r == Ok::<Option<DirectSuccessor>, AdmissionError>(match old(self).queued_direct() {
                    Some(q) => Some(q.successor),
                    None => None,
                })
                &&& final(self).queued_direct() == Some(QueuedDirect {
                    successor,
                    ordinal: match old(self).queued_direct() {
                        Some(q) => q.ordinal,
                        None => PrimaryOrdinal(old(self).ordinals_issued()),
                    },
                })
                &&& final(self).ordinals_issued() == old(self).ordinals_issued() + if old(self).queued_direct() is Some { 0int } else { 1int }
                &&& final(self).composed_map() == old(self).composed_map()
                &&& final(self).barrier() == old(self).barrier()
                &&& final(self).queued_topology() == old(self).queued_topology()
                &&& final(self).cursor_set() == old(self).cursor_set()
                &&& final(self).maintenance_part() == old(self).maintenance_part()
                &&& final(self).lock_part() == old(self).lock_part()
            },
    {
        proof {
            lemma_u32_keys_ordered();
        }
        if successor.crtcs.is_empty() {
            return Err(AdmissionError::EmptyCrtcSet);
        }
        if self.unflip.is_some() {
            return Err(AdmissionError::UnflipPending);
        }
        let ordinal = match &self.direct {
            Some(current) => {
                if successor.source_generation <= current.successor.source_generation {
                    return Err(AdmissionError::StaleGeneration {
                        queued: current.successor.source_generation,
                        offered: successor.source_generation,
                    });
                }
                current.ordinal
            },
            None => self.allocate_ordinal(),
        };
        let displaced = self.direct.take();
        self.direct = Some(QueuedDirect { successor, ordinal });
        assert(self.bounds() =~= old(self).bounds());
        match displaced {
            Some(queued) => Ok(Some(queued.successor)),
            None => Ok(None),
        }
    }

    /// Withdraw the queued successor if it carries `source_generation`.
    pub fn withdraw_direct(&mut self, source_generation: u64) -> (r: Option<DirectSuccessor>)
        requires
            old(self).wf(),
        ensures
            final(self).wf(),
            old(self).queued_direct() is Some && old(self).queued_direct()->0.successor.source_generation == source_generation ==> {
                &&& r == Some(old(self).queued_direct()->0.successor)
                &&& final(self).queued_direct() is None
            },
            !(old(self).queued_direct() is Some && old(self).queued_direct()->0.successor.source_generation == source_generation) ==> {
                &&& r is None
                &&& final(self).queued_direct() == old(self).queued_direct()
            },
            final(self).composed_map() == old(self).composed_map(),
            final(self).barrier() == old(self).barrier(),
            final(self).queued_topology() == old(self).queued_topology(),
            final(self).cursor_set() == old(self).cursor_set(),
            final(self).ordinals_issued() == old(self).ordinals_issued(),
            final(self).maintenance_part() == old(self).maintenance_part(),
            final(self).lock_part() == old(self).lock_part(),
    {
        let matches = match &self.direct {
            Some(queued) => queued.successor.source_generation == source_generation,
            None => false,
        };
        assert(self.bounds() =~= old(self).bounds());
        if matches {
            match self.direct.take() {
                Some(queued) => Some(queued.successor),
                None => None,
            }
        } else {
            None
        }
    }

    /// Raise (or widen) the unflip barrier; a queued successor is displaced
    /// and returned.
    pub fn request_unflip(&mut self, crtcs: BTreeSet<CrtcId>) -> (r: Result<Option<DirectSuccessor>, AdmissionError>)
        requires
            old(self).wf(),
        ensures
            final(self).wf(),
            crtcs@.is_empty() ==> r == Err::<Option<DirectSuccessor>, AdmissionError>(AdmissionError::EmptyCrtcSet) && *final(self) == *old(self),
            !crtcs@.is_empty() ==> {
                &&& r == Ok::<Option<DirectSuccessor>, AdmissionError>(match old(self).queued_direct() {
                    Some(q) => Some(q.successor),
                    None => None,
                })
                &&& final(self).barrier() == Some(match old(self).barrier() {
                    Some(b) => b.union(crtcs@),
                    None => crtcs@,
                })
                &&& final(self).queued_direct() is None
                &&& final(self).composed_map() == old(self).composed_map()
                &&& final(self).queued_topology() == old(self).queued_topology()
                &&& final(self).cursor_set() == old(self).cursor_set()
                &&& final(self).ordinals_issued() == old(self).ordinals_issued()
                &&& final(self).maintenance_part() == old(self).maintenance_part()
                &&& final(self).lock_part() == old(self).lock_part()
            },
    {
        proof {
            lemma_u32_keys_ordered();
        }
        if crtcs.is_empty() {
            return Err(AdmissionError::EmptyCrtcSet);
        }
        let widened = match self.unflip.take() {
            Some(barrier) => {
                let mut all = barrier.crtcs;
                let members = crate::sorted::set_members_u32(&crtcs);
                let mut i: usize = 0;
                while i < members.len()
                    invariant
                        crate::sorted::u32_keys_ordered(),
                        0 <= i <= members@.len(),
                        all@ == barrier.crtcs@.union(members@.subrange(0, i as int).to_set()),
                    decreases members@.len() - i,
                {
                    all.insert(members[i]);
                    proof {
                        assert(members@.subrange(0, i + 1) =~= members@.subrange(0, i as int).push(members@[i as int]));
                        members@.subrange(0, i as int).lemma_push_to_set_commute(members@[i as int]);
                    }
                    i = i + 1;
                }
                assert(members@.subrange(0, members@.len() as int) =~= members@);
                all
            },
            None => crtcs,
        };
        self.unflip = Some(UnflipBarrier { crtcs: widened });
        assert(self.bounds() =~= old(self).bounds());
        match self.direct.take() {
            Some(queued) => Ok(Some(queued.successor)),
            None => Ok(None),
        }
    }

    /// Queue a topology generation newer than the queued one.
    pub fn request_topology(&mut self, generation: u64) -> (r: Result<(), AdmissionError>)
        requires
            old(self).wf(),
        ensures
            final(self).wf(),
            old(self).queued_topology() is Some && generation <= old(self).queued_topology()->0 ==> {
                &&& r == Err::<(), AdmissionError>(AdmissionError::StaleGeneration { queued: old(self).queued_topology()->0, offered: generation })
                &&& *final(self) == *old(self)
            },
            !(old(self).queued_topology() is Some && generation <= old(self).queued_topology()->0) ==> {
                &&& r is Ok
                &&& final(self).queued_topology() == Some(generation)
                &&& final(self).composed_map() == old(self).composed_map()
                &&& final(self).queued_direct() == old(self).queued_direct()
                &&& final(self).barrier() == old(self).barrier()
                &&& final(self).cursor_set() == old(self).cursor_set()
                &&& final(self).ordinals_issued() == old(self).ordinals_issued()
                &&& final(self).maintenance_part() == old(self).maintenance_part()
                &&& final(self).lock_part() == old(self).lock_part()
            },
    {
        if let Some(queued) = self.topology {
            if generation <= queued {
                return Err(AdmissionError::StaleGeneration { queued, offered: generation });
            }
        }
        self.topology = Some(generation);
        assert(self.bounds() =~= old(self).bounds());
        Ok(())
    }

    pub fn request_cursor_recovery(&mut self, crtc: CrtcId)
        requires
            old(self).wf(),
        ensures
            final(self).wf(),
            final(self).cursor_set() == old(self).cursor_set().insert(crtc),
            final(self).composed_map() == old(self).composed_map(),
            final(self).queued_direct() == old(self).queued_direct(),
            final(self).barrier() == old(self).barrier(),
            final(self).queued_topology() == old(self).queued_topology(),
            final(self).ordinals_issued() == old(self).ordinals_issued(),
            final(self).maintenance_part() == old(self).maintenance_part(),
            final(self).lock_part() == old(self).lock_part(),
    {
        proof {
            lemma_u32_keys_ordered();
        }
        self.cursor_recovery.insert(crtc);
        assert(self.bounds() =~= old(self).bounds());
    }

    fn allocate_ticket(&mut self) -> (r: Result<AdmissionTicket, AdmissionError>)
        ensures
            old(self).next_ticket == u64::MAX ==> r == Err::<AdmissionTicket, AdmissionError>(AdmissionError::TicketOverflow) && *final(self) == *old(self),
            old(self).next_ticket < u64::MAX ==> {
                &&& r == Ok::<AdmissionTicket, AdmissionError>(AdmissionTicket(old(self).next_ticket))
                &&& final(self).next_ticket == old(self).next_ticket + 1
                &&& final(self).maintenance_slots == old(self).maintenance_slots
                &&& final(self).maintenance_current == old(self).maintenance_current
                &&& final(self).maintenance_submitted == old(self).maintenance_submitted
                &&& final(self).rejection_counts == old(self).rejection_counts
                &&& final(self).maintenance_bounds == old(self).maintenance_bounds
                &&& final(self).composed == old(self).composed
                &&& final(self).direct == old(self).direct
                &&& final(self).unflip == old(self).unflip
                &&& final(self).topology == old(self).topology
                &&& final(self).cursor_recovery == old(self).cursor_recovery
                &&& final(self).next_ordinal == old(self).next_ordinal
                &&& final(self).locked == old(self).locked
                &&& final(self).sequence == old(self).sequence
                &&& final(self).last_primary_crtcs == old(self).last_primary_crtcs
                &&& final(self).next_lock_serial == old(self).next_lock_serial
            },
    {
        if self.next_ticket == u64::MAX {
            return Err(AdmissionError::TicketOverflow);
        }
        let ticket = AdmissionTicket(self.next_ticket);
        self.next_ticket = self.next_ticket + 1;
        Ok(ticket)
    }

    /// Queue the latest desired maintenance generation for an identity.
    ///
    /// A generation already shown by the device is an omission, not a new
    /// intent. A generation offered while the identity is submitted receives a
    /// fresh ticket and is aged so it cannot be mistaken for new work.
    pub fn set_maintenance(&mut self, key: MaintenanceKey, generation: u64, behind_commit: bool) -> (r: Result<(), AdmissionError>)
        requires
            old(self).wf(),
        ensures
            final(self).wf(),
            final(self).primary_part() == old(self).primary_part(),
            final(self).lock_part() == old(self).lock_part(),
            old(self).slots().contains_key(key_code(key)) && generation <= old(self).slots()[key_code(key)].generation ==> {
                &&& r == Err::<(), AdmissionError>(AdmissionError::StaleGeneration {
                    queued: old(self).slots()[key_code(key)].generation,
                    offered: generation,
                })
                &&& *final(self) == *old(self)
            },
            !(old(self).slots().contains_key(key_code(key)) && generation <= old(self).slots()[key_code(key)].generation)
                && old(self).shown().get(key_code(key)) == Some(generation) ==> {
                &&& r is Ok
                &&& final(self).slots() == old(self).slots().remove(key_code(key))
                &&& final(self).shown() == old(self).shown()
                &&& final(self).submitted() == old(self).submitted()
                &&& final(self).rejections() == old(self).rejections()
                &&& final(self).bounds() == old(self).bounds()
                &&& final(self).tickets_issued() == old(self).tickets_issued()
            },
            !(old(self).slots().contains_key(key_code(key)) && generation <= old(self).slots()[key_code(key)].generation)
                && old(self).shown().get(key_code(key)) != Some(generation)
                && offer_needs_ticket(*old(self), key_code(key)) && old(self).tickets_issued() == u64::MAX ==> {
                &&& r == Err::<(), AdmissionError>(AdmissionError::TicketOverflow)
                &&& *final(self) == *old(self)
            },
            !(old(self).slots().contains_key(key_code(key)) && generation <= old(self).slots()[key_code(key)].generation)
                && old(self).shown().get(key_code(key)) != Some(generation)
                && !(offer_needs_ticket(*old(self), key_code(key)) && old(self).tickets_issued() == u64::MAX) ==> {
                let intent = offered_intent(*old(self), key_code(key), generation, behind_commit);
                let slots1 = old(self).slots().insert(key_code(key), intent);
                &&& r is Ok
                &&& final(self).slots() == slots1
                &&& final(self).bounds() == if intent.aged {
                    aged_bounds(old(self).bounds(), slots1, key_code(key), intent.ticket.0)
                } else {
                    old(self).bounds()
                }
                &&& final(self).tickets_issued() == old(self).tickets_issued() + if offer_needs_ticket(*old(self), key_code(key)) { 1int } else { 0int }
                &&& final(self).shown() == old(self).shown()
                &&& final(self).submitted() == old(self).submitted()
                &&& final(self).rejections() == old(self).rejections()
            },
    {
        proof {
            lemma_u64_keys_ordered();
            lemma_key_code(key);
        }
        let c = key.code();
        let current: Option<MaintenanceIntent> = match self.maintenance_slots.get(&c) {
            Some(intent) => Some(*intent),
            None => None,
        };
        if let Some(cur) = current {
            if generation <= cur.generation {
                return Err(AdmissionError::StaleGeneration { queued: cur.generation, offered: generation });
            }
        }
        let shown_now = match self.maintenance_current.get(&c) {
            Some(shown) => *shown == generation,
            None => false,
        };
        if shown_now {
            self.maintenance_slots.remove(&c);
            assert(self.bounds() =~= old(self).bounds());
            assert(self.maintenance_slots@ =~= old(self).maintenance_slots@.remove(c));
            return Ok(());
        }
        let submitted_ticket: Option<AdmissionTicket> = match self.maintenance_submitted.get(&c) {
            Some(submitted) => Some(submitted.ticket),
            None => None,
        };
        let (ticket, already_aged) = match current {
            Some(cur) => {
                let resubmitted = match submitted_ticket {
                    Some(t) => t.0 == cur.ticket.0,
                    None => false,
                };
                if resubmitted {
                    match self.allocate_ticket() {
                        Ok(t) => (t, true),
                        Err(e) => {
                            return Err(e);
                        },
                    }
                } else {
                    (cur.ticket, cur.aged)
                }
            },
            None => match self.allocate_ticket() {
                Ok(t) => (t, false),
                Err(e) => {
                    return Err(e);
                },
            },
        };
        let aged = already_aged || behind_commit || submitted_ticket.is_some();
        self.maintenance_slots.insert(c, MaintenanceIntent { generation, ticket, aged });
        let ghost slots1 = self.maintenance_slots@;
        assert(self.bounds() =~= old(self).bounds());
        if aged {
            self.age_maintenance(key);
            assert(aged_slots(slots1, c) =~= slots1);
        }
        Ok(())
    }

    /// Re-enter a carried maintenance generation after its terminal outcome.
    pub fn reenter(&mut self, key: MaintenanceKey, generation: u64, ticket: AdmissionTicket, kind: ReentryKind) -> (r: Reentry)
        requires
            old(self).wf(),
        ensures
            final(self).wf(),
            final(self).primary_part() == old(self).primary_part(),
            final(self).lock_part() == old(self).lock_part(),
            final(self).shown() == old(self).shown(),
            final(self).tickets_issued() == old(self).tickets_issued(),
            final(self).submitted() == if old(self).submitted().contains_key(key_code(key))
                && old(self).submitted()[key_code(key)] == (SubmittedMaintenance { generation, ticket }) {
                old(self).submitted().remove(key_code(key))
            } else {
                old(self).submitted()
            },
            final(self).rejections() == if kind == ReentryKind::Rejected {
                old(self).rejections().insert(key_code(key), bumped_rejections(old(self).rejections(), key_code(key)))
            } else {
                old(self).rejections()
            },
            kind == ReentryKind::Rejected && bumped_rejections(old(self).rejections(), key_code(key)) >= 2 ==> {
                &&& r == Reentry::Dropped
                &&& final(self).slots() == old(self).slots().remove(key_code(key))
                &&& final(self).bounds() == old(self).bounds().remove(key_code(key))
            },
            !(kind == ReentryKind::Rejected && bumped_rejections(old(self).rejections(), key_code(key)) >= 2) ==> {
                let intent = reentered_intent(old(self).slots(), key_code(key), generation, ticket);
                let slots1 = old(self).slots().insert(key_code(key), intent);
                &&& r == Reentry::Reentered
                &&& final(self).slots() == slots1
                &&& final(self).bounds() == aged_bounds(old(self).bounds(), slots1, key_code(key), intent.ticket.0)
            },
    {
        proof {
            lemma_u64_keys_ordered();
            lemma_key_code(key);
        }
        let c = key.code();
        let matches_submitted = match self.maintenance_submitted.get(&c) {
            Some(submitted) => submitted.generation == generation && submitted.ticket.0 == ticket.0,
            None => false,
        };
        if matches_submitted {
            self.maintenance_submitted.remove(&c);
        }
        assert(self.maintenance_submitted@ =~= (if old(self).submitted().contains_key(c) && old(self).submitted()[c] == (SubmittedMaintenance { generation, ticket }) {
            old(self).submitted().remove(c)
        } else {
            old(self).submitted()
        }));
        let rejection_count: u32 = match kind {
            ReentryKind::Rejected => {
                let prior: u32 = match self.rejection_counts.get(&c) {
                    Some(count) => *count,
                    None => 0,
                };
                let count: u32 = if prior < 2 {
                    prior + 1
                } else {
                    prior
                };
                self.rejection_counts.insert(c, count);
                count
            },
            ReentryKind::Unknown => match self.rejection_counts.get(&c) {
                Some(count) => *count,
                None => 0,
            },
        };
        if kind == ReentryKind::Rejected && rejection_count >= 2 {
            self.maintenance_slots.remove(&c);
            self.maintenance_bounds.remove(&c);
            assert(self.bounds() =~= old(self).bounds().remove(c));
            assert(self.maintenance_slots@ =~= old(self).maintenance_slots@.remove(c));
            return Reentry::Dropped;
        }
        let existing: Option<MaintenanceIntent> = match self.maintenance_slots.get(&c) {
            Some(intent) => Some(*intent),
            None => None,
        };
        let intent = match existing {
            Some(e) => {
                if e.generation >= generation {
                    MaintenanceIntent {
                        generation: e.generation,
                        ticket: if e.ticket.0 <= ticket.0 {
                            e.ticket
                        } else {
                            ticket
                        },
                        aged: true,
                    }
                } else {
                    MaintenanceIntent { generation, ticket, aged: true }
                }
            },
            None => MaintenanceIntent { generation, ticket, aged: true },
        };
        self.maintenance_slots.insert(c, intent);
        let ghost slots1 = self.maintenance_slots@;
        assert(self.bounds() =~= old(self).bounds());
        self.age_maintenance(key);
        assert(aged_slots(slots1, c) =~= slots1);
        Reentry::Reentered
    }

    /// Record the generation currently shown by the device.
    pub fn note_completed(&mut self, key: MaintenanceKey, generation: u64)
        requires
            old(self).wf(),
        ensures
            final(self).wf(),
            final(self).primary_part() == old(self).primary_part(),
            final(self).lock_part() == old(self).lock_part(),
            final(self).tickets_issued() == old(self).tickets_issued(),
            final(self).submitted() == if old(self).submitted().contains_key(key_code(key))
                && old(self).submitted()[key_code(key)].generation == generation {
                old(self).submitted().remove(key_code(key))
            } else {
                old(self).submitted()
            },
            old(self).slots().contains_key(key_code(key)) && old(self).slots()[key_code(key)].generation <= generation ==> {
                &&& final(self).slots() == old(self).slots().remove(key_code(key))
                &&& final(self).bounds() == old(self).bounds().remove(key_code(key))
            },
            !(old(self).slots().contains_key(key_code(key)) && old(self).slots()[key_code(key)].generation <= generation) ==> {
                &&& final(self).slots() == old(self).slots()
                &&& final(self).bounds() == old(self).bounds()
            },
            final(self).shown() == old(self).shown().insert(
                key_code(key),
                if old(self).shown().contains_key(key_code(key)) && old(self).shown()[key_code(key)] > generation {
                    old(self).shown()[key_code(key)]
                } else {
                    generation
                },
            ),
            final(self).rejections() == old(self).rejections().remove(key_code(key)),
    {
        proof {
            lemma_u64_keys_ordered();
            lemma_key_code(key);
        }
        let c = key.code();
        let matches_submitted = match self.maintenance_submitted.get(&c) {
            Some(submitted) => submitted.generation == generation,
            None => false,
        };
        if matches_submitted {
            self.maintenance_submitted.remove(&c);
        }
        assert(self.maintenance_submitted@ =~= (if old(self).submitted().contains_key(c) && old(self).submitted()[c].generation == generation {
            old(self).submitted().remove(c)
        } else {
            old(self).submitted()
        }));
        let clears = match self.maintenance_slots.get(&c) {
            Some(intent) => intent.generation <= generation,
            None => false,
        };
        if clears {
            self.maintenance_slots.remove(&c);
            self.maintenance_bounds.remove(&c);
            assert(self.maintenance_slots@ =~= old(self).maintenance_slots@.remove(c));
        }
        let shown: u64 = match self.maintenance_current.get(&c) {
            Some(current) => if *current > generation {
                *current
            } else {
                generation
            },
            None => generation,
        };
        self.maintenance_current.insert(c, shown);
        self.rejection_counts.remove(&c);
        assert(self.rejection_counts@ =~= old(self).rejection_counts@.remove(c));
        proof {
            if clears {
                assert(self.bounds() =~= old(self).bounds().remove(c));
            } else {
                assert(self.bounds() =~= old(self).bounds());
            }
        }
    }

    pub fn maintenance(&self, key: MaintenanceKey) -> (r: Option<MaintenanceIntent>)
        ensures
            r == self.slots().get(key_code(key)),
    {
        proof {
            lemma_u64_keys_ordered();
        }
        match self.maintenance_slots.get(&key.code()) {
            Some(intent) => Some(*intent),
            None => None,
        }
    }

    pub fn rejection_count(&self, key: MaintenanceKey) -> (r: u32)
        ensures
            r == (if self.rejections().contains_key(key_code(key)) { self.rejections()[key_code(key)] } else { 0 }),
    {
        proof {
            lemma_u64_keys_ordered();
        }
        match self.rejection_counts.get(&key.code()) {
            Some(count) => *count,
            None => 0,
        }
    }

    pub fn cursor_recovery(&self) -> (r: &BTreeSet<CrtcId>)
        ensures
            r@ == self.cursor_set(),
    {
        &self.cursor_recovery
    }

    pub fn composed(&self, crtc: CrtcId) -> (r: Option<ComposedIntent>)
        ensures
            r == self.composed_map().get(crtc),
    {
        proof {
            lemma_u32_keys_ordered();
        }
        match self.composed.get(&crtc) {
            Some(intent) => Some(*intent),
            None => None,
        }
    }

    pub fn direct(&self) -> (r: Option<&QueuedDirect>)
        ensures
            r is Some <==> self.queued_direct() is Some,
            r is Some ==> *r->0 == self.queued_direct()->0,
    {
        self.direct.as_ref()
    }

    pub fn unflip(&self) -> (r: Option<&UnflipBarrier>)
        ensures
            r is Some <==> self.barrier() is Some,
            r is Some ==> self.barrier() == Some(r->0.crtcs@),
    {
        self.unflip.as_ref()
    }

    pub fn topology(&self) -> (r: Option<u64>)
        ensures
            r == self.queued_topology(),
    {
        self.topology
    }
}

} // verus!
