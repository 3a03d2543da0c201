//! Locking a decision, then confirming or aborting it.
use vstd::prelude::*;

use std::collections::BTreeSet;

use super::bound::{counted_waits, BoundView};
use super::decide::{decided, same_successor, AdmissionDecision, Admitted, CarriedMaintenance};
use super::intents::{
    aged_bounds, aged_slots, is_key_code, key_code, lemma_key_code, Admission, ComposedIntent,
    MaintenanceIntent, QueuedDirect, SubmittedMaintenance,
};
use super::snapshot::ReadinessSnapshot;
use super::{AdmissionError, CrtcId};
use crate::sorted::{extend_u32, lemma_u32_keys_ordered, lemma_u64_keys_ordered, sets_equal_u32};

verus! {

broadcast use vstd::std_specs::btree::group_btree_axioms;

/// A locked decision; it must be confirmed or aborted.
#[derive(Debug)]
pub struct AdmissionToken {
    decision: AdmissionDecision,
    serial: u64,
}

impl AdmissionToken {
    pub closed spec fn spec_decision(&self) -> AdmissionDecision {
        self.decision
    }

    pub closed spec fn spec_serial(&self) -> u64 {
        self.serial
    }

    pub fn decision(&self) -> (r: &AdmissionDecision)
        ensures
            *r == self.spec_decision(),
    {
        &self.decision
    }
}

/// A source of lock serials shared among admissions: each serial it hands
/// out is fresh.
#[derive(Debug)]
pub struct LockSerials {
    next: u64,
}

impl LockSerials {
    pub closed spec fn spec_next(&self) -> u64 {
        self.next
    }

    pub fn new() -> (r: Self)
        ensures
            r.spec_next() == 0,
    {
        LockSerials { next: 0 }
    }
}

#[derive(Debug, Clone, PartialEq, Eq)]
pub struct Confirmed {
    pub decision: AdmissionDecision,
    pub sequence: u64,
}

/// Two admitted values name the same work.
pub open spec fn admitted_same(x: Admitted, y: Admitted) -> bool
    decreases x,
{
    match x {
        Admitted::Topology { tag } => y == (Admitted::Topology { tag }),
        Admitted::Unflip { crtcs } => y is Unflip && y->Unflip_crtcs@ == crtcs@,
        Admitted::Composed { crtc, generation } => y == (Admitted::Composed { crtc, generation }),
        Admitted::Direct { successor } => y is Direct && same_successor(successor, y->Direct_successor),
        Admitted::Maintenance { key, generation } => y == (Admitted::Maintenance { key, generation }),
        Admitted::Bundle { members } => y is Bundle && members_same(members@, y->Bundle_members@),
        Admitted::CursorRecovery { crtc } => y == (Admitted::CursorRecovery { crtc }),
    }
}

/// Two member lists name the same work, member by member.
pub open spec fn members_same(xs: Seq<Admitted>, ys: Seq<Admitted>) -> bool
    decreases xs,
{
    if xs.len() == 0 {
        ys.len() == 0
    } else {
        ys.len() == xs.len() && members_same(xs.drop_last(), ys.drop_last()) && admitted_same(xs.last(), ys.last())
    }
}

/// Two decisions admit, carry and age the same work.
pub open spec fn decision_same(x: AdmissionDecision, y: AdmissionDecision) -> bool {
    &&& x.tier == y.tier
    &&& admitted_same(x.admitted, y.admitted)
    &&& x.carried@ == y.carried@
    &&& x.combined_primary is Some == y.combined_primary is Some
    &&& x.combined_primary is Some ==> admitted_same(x.combined_primary->0, y.combined_primary->0)
    &&& x.ages@ == y.ages@
}

/// The CRTCs an admitted value flips a primary on.
pub open spec fn admitted_crtcs(x: Admitted) -> Set<CrtcId>
    decreases x,
{
    match x {
        Admitted::Topology { .. } => Set::empty(),
        Admitted::Unflip { crtcs } => crtcs@,
        Admitted::Composed { crtc, .. } => set![crtc],
        Admitted::Direct { successor } => successor.crtcs@,
        Admitted::Maintenance { .. } => Set::empty(),
        Admitted::Bundle { members } => members_crtcs(members@),
        Admitted::CursorRecovery { crtc } => set![crtc],
    }
}

pub open spec fn members_crtcs(xs: Seq<Admitted>) -> Set<CrtcId>
    decreases xs,
{
    if xs.len() == 0 {
        Set::empty()
    } else {
        members_crtcs(xs.drop_last()).union(admitted_crtcs(xs.last()))
    }
}

/// The CRTCs a decision flips a primary on: a maintenance decision's are
/// those of the primary it combined with.
pub open spec fn decision_crtcs(d: AdmissionDecision) -> Set<CrtcId> {
    if d.admitted is Maintenance {
        match d.combined_primary {
            Some(p) => admitted_crtcs(p),
            None => Set::empty(),
        }
    } else {
        admitted_crtcs(d.admitted)
    }
}

/// The state primary admission reads.
pub struct PrimaryState {
    pub composed: Map<CrtcId, ComposedIntent>,
    pub direct: Option<QueuedDirect>,
    pub barrier: Option<Set<CrtcId>>,
    pub topology: Option<u64>,
    pub cursor: Set<CrtcId>,
}

pub open spec fn primary_state(a: Admission) -> PrimaryState {
    PrimaryState {
        composed: a.composed_map(),
        direct: a.queued_direct(),
        barrier: a.barrier(),
        topology: a.queued_topology(),
        cursor: a.cursor_set(),
    }
}

/// The primary state after admitted work is taken out of the queue; work
/// queued again since the decision stays.
pub open spec fn consumed(st: PrimaryState, x: Admitted) -> PrimaryState
    decreases x,
{
    match x {
        Admitted::Topology { tag } => if st.topology == Some(tag) {
            PrimaryState { topology: None, ..st }
        } else {
            st
        },
        Admitted::Unflip { crtcs } => if st.barrier == Some(crtcs@) {
            PrimaryState { barrier: None, ..st }
        } else {
            st
        },
        Admitted::Composed { crtc, generation } => if st.composed.contains_key(crtc) && st.composed[crtc].generation == generation {
            PrimaryState { composed: st.composed.remove(crtc), ..st }
        } else {
            st
        },
        Admitted::Direct { successor } => if st.direct is Some && same_successor(st.direct->0.successor, successor) {
            PrimaryState { direct: None, ..st }
        } else {
            st
        },
        Admitted::Maintenance { .. } => st,
        Admitted::Bundle { members } => consumed_all(st, members@),
        Admitted::CursorRecovery { crtc } => PrimaryState { cursor: st.cursor.remove(crtc), ..st },
    }
}

pub open spec fn consumed_all(st: PrimaryState, xs: Seq<Admitted>) -> PrimaryState
    decreases xs,
{
    if xs.len() == 0 {
        st
    } else {
        consumed(consumed_all(st, xs.drop_last()), xs.last())
    }
}

/// The maintenance state: queued slots, shown generations, submitted work,
/// rejection counts, wait bounds and the ticket counter.
pub type MaintenanceState = (Map<u64, MaintenanceIntent>, Map<u64, u64>, Map<u64, SubmittedMaintenance>, Map<u64, u32>, Map<u64, BoundView>, u64);

/// Carried maintenance leaves its slot (if the slot still holds it), drops
/// its wait bound and is recorded as submitted.
pub open spec fn submitted_one(m: MaintenanceState, item: CarriedMaintenance) -> MaintenanceState {
    let c = key_code(item.key);
    (
        if m.0.contains_key(c) && m.0[c].generation == item.generation && m.0[c].ticket == item.ticket {
            m.0.remove(c)
        } else {
            m.0
        },
        m.1,
        m.2.insert(c, SubmittedMaintenance { generation: item.generation, ticket: item.ticket }),
        m.3,
        m.4.remove(c),
        m.5,
    )
}

pub open spec fn submitted_all(m: MaintenanceState, items: Seq<CarriedMaintenance>) -> MaintenanceState
    decreases items.len(),
{
    if items.len() == 0 {
        m
    } else {
        submitted_one(submitted_all(m, items.drop_last()), items.last())
    }
}

/// The maintenance state after the identity at `c` ages.
pub open spec fn aged_one(m: MaintenanceState, c: u64) -> MaintenanceState {
    (
        aged_slots(m.0, c),
        m.1,
        m.2,
        m.3,
        if m.0.contains_key(c) {
            aged_bounds(m.4, aged_slots(m.0, c), c, m.0[c].ticket.0)
        } else {
            m.4
        },
        m.5,
    )
}

pub open spec fn aged_all(m: MaintenanceState, keys: Seq<super::intents::MaintenanceKey>) -> MaintenanceState
    decreases keys.len(),
{
    if keys.len() == 0 {
        m
    } else {
        aged_one(aged_all(m, keys.drop_last()), key_code(keys.last()))
    }
}

/// Whether admitted work waits in order behind older maintenance tickets.
pub open spec fn counts_waits(x: Admitted) -> bool {
    !(x is Topology || x is Unflip || x is CursorRecovery)
}

/// The maintenance state after confirming `d`.
pub open spec fn confirmed_maintenance(m: MaintenanceState, d: AdmissionDecision) -> MaintenanceState {
    let counted: MaintenanceState = if counts_waits(d.admitted) {
        (m.0, m.1, m.2, m.3, counted_waits(m.4, d.carried@), m.5)
    } else {
        m
    };
    aged_all(submitted_all(counted, d.carried@), d.ages@)
}

/// The primary state after confirming `d`.
pub open spec fn confirmed_primary(st: PrimaryState, d: AdmissionDecision) -> PrimaryState {
    let first = consumed(st, d.admitted);
    match d.combined_primary {
        Some(p) => consumed(first, p),
        None => first,
    }
}

pub fn admitted_eq(x: &Admitted, y: &Admitted) -> (r: bool)
    ensures
        r == admitted_same(*x, *y),
    decreases x,
{
    match (x, y) {
        (Admitted::Topology { tag: a }, Admitted::Topology { tag: b }) => a == b,
        (Admitted::Unflip { crtcs: a }, Admitted::Unflip { crtcs: b }) => sets_equal_u32(a, b),
        (Admitted::Composed { crtc: a, generation: g }, Admitted::Composed { crtc: b, generation: h }) => a == b && g == h,
        (Admitted::Direct { successor: a }, Admitted::Direct { successor: b }) => {
            a.source_generation == b.source_generation && a.layout_generation == b.layout_generation && a.topology_generation
                == b.topology_generation && sets_equal_u32(&a.crtcs, &b.crtcs)
        },
        (Admitted::Maintenance { key: a, generation: g }, Admitted::Maintenance { key: b, generation: h }) => a == b && g == h,
        (Admitted::Bundle { members: a }, Admitted::Bundle { members: b }) => {
            if a.len() != b.len() {
                proof {
                    lemma_members_same_len(a@, b@);
                }
                return false;
            }
            let mut i: usize = 0;
            while i < a.len()
                invariant
                    *x == (Admitted::Bundle { members: *a }),
                    *y == (Admitted::Bundle { members: *b }),
                    a@.len() == b@.len(),
                    0 <= i <= a@.len(),
                    members_same(a@.subrange(0, i as int), b@.subrange(0, i as int)),
                decreases a@.len() - i,
            {
                proof {
                    assert(decreases_to!(*x => x->members));
                    assert(decreases_to!(*a => a@));
                    assert(decreases_to!(a@ => a@[i as int]));
                }
                let same = admitted_eq(&a[i], &b[i]);
                proof {
                    assert(a@.subrange(0, i + 1).drop_last() =~= a@.subrange(0, i as int));
                    assert(b@.subrange(0, i + 1).drop_last() =~= b@.subrange(0, i as int));
                }
                if !same {
                    proof {
                        let xs = a@.subrange(0, i + 1);
                        let ys = b@.subrange(0, i + 1);
                        assert(xs.last() == a@[i as int]);
                        assert(ys.last() == b@[i as int]);
                        assert(!admitted_same(xs.last(), ys.last()));
                        assert(!members_same(xs, ys));
                        if members_same(a@, b@) {
                            lemma_members_same_prefix(a@, b@, i + 1);
                        }
                        assert(!members_same(a@, b@));
                    }
                    return false;
                }
                i = i + 1;
            }
            assert(a@.subrange(0, a@.len() as int) =~= a@);
            assert(b@.subrange(0, b@.len() as int) =~= b@);
            true
        },
        (Admitted::CursorRecovery { crtc: a }, Admitted::CursorRecovery { crtc: b }) => a == b,
        _ => false,
    }
}

proof fn lemma_members_same_len(xs: Seq<Admitted>, ys: Seq<Admitted>)
    ensures
        members_same(xs, ys) ==> xs.len() == ys.len(),
    decreases xs.len(),
{
}

/// Lists that are the same are the same on every prefix.
proof fn lemma_members_same_prefix(xs: Seq<Admitted>, ys: Seq<Admitted>, n: int)
    requires
        0 <= n <= xs.len(),
        xs.len() == ys.len(),
        members_same(xs, ys),
    ensures
        members_same(xs.subrange(0, n), ys.subrange(0, n)),
    decreases xs.len(),
{
    if n == xs.len() {
        assert(xs.subrange(0, n) =~= xs);
        assert(ys.subrange(0, n) =~= ys);
    } else {
        lemma_members_same_prefix(xs.drop_last(), ys.drop_last(), n);
        assert(xs.drop_last().subrange(0, n) =~= xs.subrange(0, n));
        assert(ys.drop_last().subrange(0, n) =~= ys.subrange(0, n));
    }
}

pub fn decisions_equal(x: &AdmissionDecision, y: &AdmissionDecision) -> (r: bool)
    ensures
        r == decision_same(*x, *y),
{
    if x.tier != y.tier || !admitted_eq(&x.admitted, &y.admitted) {
        return false;
    }
    let combined = match (&x.combined_primary, &y.combined_primary) {
        (Some(a), Some(b)) => admitted_eq(a, b),
        (None, None) => true,
        _ => false,
    };
    if !combined {
        return false;
    }
    if x.carried.len() != y.carried.len() || x.ages.len() != y.ages.len() {
        return false;
    }
    let mut i: usize = 0;
    while i < x.carried.len()
        invariant
            x.carried@.len() == y.carried@.len(),
            0 <= i <= x.carried@.len(),
            forall|k: int| 0 <= k < i ==> x.carried@[k] == y.carried@[k],
        decreases x.carried@.len() - i,
    {
        if x.carried[i] != y.carried[i] {
            return false;
        }
        i = i + 1;
    }
    let mut j: usize = 0;
    while j < x.ages.len()
        invariant
            x.ages@.len() == y.ages@.len(),
            0 <= j <= x.ages@.len(),
            forall|k: int| 0 <= k < j ==> x.ages@[k] == y.ages@[k],
        decreases x.ages@.len() - j,
    {
        if x.ages[j] != y.ages[j] {
            return false;
        }
        j = j + 1;
    }
    assert(x.carried@ =~= y.carried@);
    assert(x.ages@ =~= y.ages@);
    true
}


fn admitted_primary_crtcs(x: &Admitted) -> (r: BTreeSet<CrtcId>)
    ensures
        r@ == admitted_crtcs(*x),
    decreases x,
{
    proof {
        lemma_u32_keys_ordered();
    }
    match x {
        Admitted::Topology { .. } => BTreeSet::new(),
        Admitted::Unflip { crtcs } => crtcs.clone(),
        Admitted::Composed { crtc, .. } => {
            let mut one: BTreeSet<CrtcId> = BTreeSet::new();
            one.insert(*crtc);
            assert(one@ =~= set![*crtc]);
            one
        },
        Admitted::Direct { successor } => successor.crtcs.clone(),
        Admitted::Maintenance { .. } => BTreeSet::new(),
        Admitted::Bundle { members } => {
            let mut out: BTreeSet<CrtcId> = BTreeSet::new();
            let mut i: usize = 0;
            while i < members.len()
                invariant
                    *x == (Admitted::Bundle { members: *members }),
                    0 <= i <= members@.len(),
                    out@ == members_crtcs(members@.subrange(0, i as int)),
                decreases members@.len() - i,
            {
                proof {
                    assert(decreases_to!(*x => x->members));
                    assert(decreases_to!(*members => members@));
                    assert(decreases_to!(members@ => members@[i as int]));
                }
                let part = admitted_primary_crtcs(&members[i]);
                extend_u32(&mut out, &part);
                proof {
                    assert(members@.subrange(0, i + 1).drop_last() =~= members@.subrange(0, i as int));
                }
                i = i + 1;
            }
            assert(members@.subrange(0, members@.len() as int) =~= members@);
            out
        },
        Admitted::CursorRecovery { crtc } => {
            let mut one: BTreeSet<CrtcId> = BTreeSet::new();
            one.insert(*crtc);
            assert(one@ =~= set![*crtc]);
            one
        },
    }
}

impl AdmissionDecision {
    /// The CRTCs this decision flips a primary on.
    pub fn primary_crtcs(&self) -> (r: BTreeSet<CrtcId>)
        ensures
            r@ == decision_crtcs(*self),
    {
        if let Admitted::Maintenance { .. } = self.admitted {
            match &self.combined_primary {
                Some(p) => admitted_primary_crtcs(p),
                None => BTreeSet::new(),
            }
        } else {
            admitted_primary_crtcs(&self.admitted)
        }
    }
}

impl Admission {
    fn consume(&mut self, x: &Admitted)
        requires
            old(self).wf(),
        ensures
            final(self).wf(),
            primary_state(*final(self)) == consumed(primary_state(*old(self)), *x),
            final(self).ordinals_issued() == old(self).ordinals_issued(),
            final(self).maintenance_part() == old(self).maintenance_part(),
            final(self).lock_part() == old(self).lock_part(),
        decreases x,
    {
        proof {
            lemma_u32_keys_ordered();
            old(self).lemma_reveal();
        }
        match x {
            Admitted::Topology { tag } => {
                if self.topology == Some(*tag) {
                    self.topology = None;
                }
            },
            Admitted::Unflip { crtcs } => {
                let same = match &self.unflip {
                    Some(barrier) => sets_equal_u32(&barrier.crtcs, crtcs),
                    None => false,
                };
                if same {
                    self.unflip = None;
                }
            },
            Admitted::Composed { crtc, generation } => {
                let matches = match self.composed.get(crtc) {
                    Some(intent) => intent.generation == *generation,
                    None => false,
                };
                if matches {
                    self.composed.remove(crtc);
                }
            },
            Admitted::Direct { successor } => {
                let same = match &self.direct {
                    Some(queued) => queued.successor.source_generation == successor.source_generation
                        && queued.successor.layout_generation == successor.layout_generation
                        && queued.successor.topology_generation == successor.topology_generation
                        && sets_equal_u32(&queued.successor.crtcs, &successor.crtcs),
                    None => false,
                };
                if same {
                    self.direct = None;
                }
            },
            Admitted::Maintenance { .. } => {},
            Admitted::Bundle { members } => {
                let mut i: usize = 0;
                while i < members.len()
                    invariant
                        *x == (Admitted::Bundle { members: *members }),
                        0 <= i <= members@.len(),
                        self.wf(),
                        primary_state(*self) == consumed_all(primary_state(*old(self)), members@.subrange(0, i as int)),
                        self.ordinals_issued() == old(self).ordinals_issued(),
                        self.maintenance_part() == old(self).maintenance_part(),
                        self.lock_part() == old(self).lock_part(),
                    decreases members@.len() - i,
                {
                    proof {
                        assert(decreases_to!(*x => x->members));
                        assert(decreases_to!(*members => members@));
                        assert(decreases_to!(members@ => members@[i as int]));
                    }
                    self.consume(&members[i]);
                    proof {
                        assert(members@.subrange(0, i + 1).drop_last() =~= members@.subrange(0, i as int));
                    }
                    i = i + 1;
                }
                assert(members@.subrange(0, members@.len() as int) =~= members@);
            },
            Admitted::CursorRecovery { crtc } => {
                self.cursor_recovery.remove(crtc);
            },
        }
        proof {
            self.lemma_reveal();
            assert(self.bounds() =~= old(self).bounds());
            if let Admitted::Composed { crtc, generation } = *x {
                assert(self.composed@ =~= primary_state(*old(self)).composed.remove(crtc) || self.composed@ == old(self).composed@);
            }
            if let Admitted::CursorRecovery { crtc } = *x {
                assert(self.cursor_recovery@ =~= old(self).cursor_recovery@.remove(crtc));
            }
        }
    }

    fn consume_maintenance(&mut self, item: &CarriedMaintenance)
        requires
            old(self).wf(),
        ensures
            final(self).wf(),
            final(self).maintenance_part() == submitted_one(old(self).maintenance_part(), *item),
            final(self).primary_part() == old(self).primary_part(),
            final(self).lock_part() == old(self).lock_part(),
    {
        proof {
            lemma_u64_keys_ordered();
            old(self).lemma_reveal();
            lemma_key_code(item.key);
        }
        let c = item.key.code();
        let matches = match self.maintenance_slots.get(&c) {
            Some(intent) => intent.generation == item.generation && intent.ticket == item.ticket,
            None => false,
        };
        if matches {
            self.maintenance_slots.remove(&c);
        }
        self.maintenance_bounds.remove(&c);
        self.maintenance_submitted.insert(c, SubmittedMaintenance { generation: item.generation, ticket: item.ticket });
        proof {
            self.lemma_reveal();
            assert(self.bounds() =~= old(self).bounds().remove(c));
            if matches {
                assert(self.maintenance_slots@ =~= old(self).maintenance_slots@.remove(c));
            }
        }
    }
}


impl Admission {
    /// Lock `decision` if nothing is locked and it is what `decide` gives for
    /// the snapshot, under this admission's next lock serial. Serials drawn
    /// here are fresh within this admission only: a token locked on one
    /// admission may carry a serial that another admission also issued.
    /// Where admissions must refuse each other's tokens, lock with
    /// `lock_from` and one shared `LockSerials`.
    pub fn lock(&mut self, decision: AdmissionDecision, snapshot: &ReadinessSnapshot) -> (r: Result<AdmissionToken, AdmissionError>)
        requires
            old(self).wf(),
            old(self).serials_issued() < u64::MAX,
        ensures
            final(self).wf(),
            old(self).lock_serial() is Some ==> r == Err::<AdmissionToken, AdmissionError>(AdmissionError::AlreadyLocked) && *final(self) == *old(self),
            old(self).lock_serial() is None ==> forall|current: Option<AdmissionDecision>| #[trigger] decided(*old(self), *snapshot, current) ==> {
                &&& (current is Some && decision_same(current->0, decision)) ==> {
                    &&& r is Ok
                    &&& r->Ok_0.spec_decision() == decision
                    &&& r->Ok_0.spec_serial() == old(self).serials_issued()
                    &&& final(self).lock_serial() == Some(old(self).serials_issued())
                    &&& final(self).serials_issued() == old(self).serials_issued() + 1
                    &&& final(self).sequence_number() == old(self).sequence_number()
                    &&& final(self).last_primary() == old(self).last_primary()
                    &&& final(self).primary_part() == old(self).primary_part()
                    &&& final(self).maintenance_part() == old(self).maintenance_part()
                }
                &&& !(current is Some && decision_same(current->0, decision)) ==> r == Err::<AdmissionToken, AdmissionError>(AdmissionError::DecisionMismatch)
                    && *final(self) == *old(self)
            },
    {
        proof {
            old(self).lemma_reveal();
        }
        let serial = self.next_lock_serial;
        let r = self.lock_as(decision, snapshot, serial);
        if r.is_ok() {
            let ghost mid = *self;
            proof {
                mid.lemma_reveal();
            }
            self.next_lock_serial = serial + 1;
            proof {
                self.lemma_reveal();
                assert(self.bounds() =~= mid.bounds());
            }
        }
        r
    }

    /// Lock `decision` under a serial drawn from a source the caller shares
    /// among admissions, so that no admission accepts another's token.
    pub fn lock_from(
        &mut self,
        serials: &mut LockSerials,
        decision: AdmissionDecision,
        snapshot: &ReadinessSnapshot,
    ) -> (r: Result<AdmissionToken, AdmissionError>)
        requires
            old(self).wf(),
            old(serials).spec_next() < u64::MAX,
        ensures
            final(self).wf(),
            r is Err ==> *final(serials) == *old(serials),
            r matches Ok(t) ==> t.spec_serial() == old(serials).spec_next() && final(serials).spec_next() == old(serials).spec_next() + 1,
            old(self).lock_serial() is Some ==> r == Err::<AdmissionToken, AdmissionError>(AdmissionError::AlreadyLocked) && *final(self) == *old(self),
            old(self).lock_serial() is None ==> forall|current: Option<AdmissionDecision>| #[trigger] decided(*old(self), *snapshot, current) ==> {
                &&& (current is Some && decision_same(current->0, decision)) ==> {
                    &&& r is Ok
                    &&& r->Ok_0.spec_decision() == decision
                    &&& final(self).lock_serial() == Some(old(serials).spec_next())
                    &&& final(self).serials_issued() == old(self).serials_issued()
                    &&& final(self).sequence_number() == old(self).sequence_number()
                    &&& final(self).last_primary() == old(self).last_primary()
                    &&& final(self).primary_part() == old(self).primary_part()
                    &&& final(self).maintenance_part() == old(self).maintenance_part()
                }
                &&& !(current is Some && decision_same(current->0, decision)) ==> r == Err::<AdmissionToken, AdmissionError>(AdmissionError::DecisionMismatch)
                    && *final(self) == *old(self)
            },
    {
        let serial = serials.next;
        let r = self.lock_as(decision, snapshot, serial);
        if r.is_ok() {
            serials.next = serial + 1;
        }
        r
    }

    fn lock_as(&mut self, decision: AdmissionDecision, snapshot: &ReadinessSnapshot, serial: u64) -> (r: Result<AdmissionToken, AdmissionError>)
        requires
            old(self).wf(),
        ensures
            final(self).wf(),
            r is Err ==> *final(self) == *old(self),
            r matches Ok(t) ==> {
                &&& t.spec_serial() == serial
                &&& final(self).lock_serial() == Some(serial)
                &&& final(self).serials_issued() == old(self).serials_issued()
                &&& final(self).sequence_number() == old(self).sequence_number()
                &&& final(self).last_primary() == old(self).last_primary()
                &&& final(self).primary_part() == old(self).primary_part()
                &&& final(self).maintenance_part() == old(self).maintenance_part()
            },
            old(self).lock_serial() is Some ==> r == Err::<AdmissionToken, AdmissionError>(AdmissionError::AlreadyLocked) && *final(self) == *old(self),
            old(self).lock_serial() is None ==> forall|current: Option<AdmissionDecision>| #[trigger] decided(*old(self), *snapshot, current) ==> {
                &&& (current is Some && decision_same(current->0, decision)) ==> {
                    &&& r is Ok
                    &&& r->Ok_0.spec_decision() == decision
                    &&& r->Ok_0.spec_serial() == serial
                    &&& final(self).lock_serial() == Some(serial)
                    &&& final(self).serials_issued() == old(self).serials_issued()
                    &&& final(self).sequence_number() == old(self).sequence_number()
                    &&& final(self).last_primary() == old(self).last_primary()
                    &&& final(self).primary_part() == old(self).primary_part()
                    &&& final(self).maintenance_part() == old(self).maintenance_part()
                }
                &&& !(current is Some && decision_same(current->0, decision)) ==> r == Err::<AdmissionToken, AdmissionError>(AdmissionError::DecisionMismatch)
                    && *final(self) == *old(self)
            },
    {
        proof {
            old(self).lemma_reveal();
        }
        if self.locked.is_some() {
            return Err(AdmissionError::AlreadyLocked);
        }
        let current = self.decide(snapshot);
        let matches = match &current {
            Some(d) => decisions_equal(d, &decision),
            None => false,
        };
        proof {
            assert forall|other: Option<AdmissionDecision>| #[trigger] decided(*old(self), *snapshot, other) implies (other is Some
                && decision_same(other->0, decision)) == matches by {
                super::unique::lemma_decide_is_deterministic(*old(self), *snapshot, other, current);
                super::unique::lemma_decide_is_deterministic(*old(self), *snapshot, current, other);
                if matches {
                    super::unique::lemma_decision_same_transitive(other->0, current->0, decision);
                }
                if other is Some && decision_same(other->0, decision) {
                    super::unique::lemma_decision_same_transitive(current->0, other->0, decision);
                }
            }
        }
        if !matches {
            return Err(AdmissionError::DecisionMismatch);
        }
        self.locked = Some(serial);
        proof {
            self.lemma_reveal();
            old(self).lemma_reveal();
            assert(self.bounds() =~= old(self).bounds());
        }
        Ok(AdmissionToken { decision, serial })
    }

    /// Apply a locked decision: take the admitted work out of the queue,
    /// hand carried maintenance to the device, age what was left ready, and
    /// remember the CRTCs this admission flipped.
    pub fn confirm(&mut self, token: AdmissionToken) -> (r: Result<Confirmed, AdmissionError>)
        requires
            old(self).wf(),
            old(self).lock_serial() == Some(token.spec_serial()) ==> old(self).sequence_number() < u64::MAX,
        ensures
            final(self).wf(),
            old(self).lock_serial() != Some(token.spec_serial()) ==> r == Err::<Confirmed, AdmissionError>(AdmissionError::TokenMismatch) && *final(self) == *old(self),
            old(self).lock_serial() == Some(token.spec_serial()) ==> {
                &&& r == Ok::<Confirmed, AdmissionError>(Confirmed { decision: token.spec_decision(), sequence: (old(self).sequence_number() + 1) as u64 })
                &&& primary_state(*final(self)) == confirmed_primary(primary_state(*old(self)), token.spec_decision())
                &&& final(self).ordinals_issued() == old(self).ordinals_issued()
                &&& final(self).maintenance_part() == confirmed_maintenance(old(self).maintenance_part(), token.spec_decision())
                &&& final(self).last_primary() == decision_crtcs(token.spec_decision())
                &&& final(self).lock_serial() is None
                &&& final(self).sequence_number() == old(self).sequence_number() + 1
                &&& final(self).serials_issued() == old(self).serials_issued()
            },
    {
        proof {
            old(self).lemma_reveal();
        }
        let AdmissionToken { decision, serial } = token;
        let held = match self.locked {
            Some(locked) => locked == serial,
            None => false,
        };
        if !held {
            return Err(AdmissionError::TokenMismatch);
        }
        let ghost m0 = self.maintenance_part();
        let ghost st0 = primary_state(*self);
        let ghost p0 = self.primary_part();
        if !(matches!(decision.admitted, Admitted::Topology { .. }) || matches!(decision.admitted, Admitted::Unflip { .. })
            || matches!(decision.admitted, Admitted::CursorRecovery { .. })) {
            self.count_older_ticket_waits(&decision.carried);
        }
        let ghost m1 = self.maintenance_part();
        proof {
            self.lemma_reveal();
            old(self).lemma_reveal();
            assert(m1 == (if counts_waits(decision.admitted) {
                (m0.0, m0.1, m0.2, m0.3, counted_waits(m0.4, decision.carried@), m0.5)
            } else {
                m0
            }));
        }
        assert(self.primary_part() == p0);
        assert(primary_state(*self) == st0);
        self.consume(&decision.admitted);
        if let Some(combined) = &decision.combined_primary {
            self.consume(combined);
        }
        assert(primary_state(*self) == confirmed_primary(st0, decision));
        proof {
            self.lemma_reveal();
        }
        let mut i: usize = 0;
        while i < decision.carried.len()
            invariant
                self.wf(),
                0 <= i <= decision.carried@.len(),
                self.maintenance_part() == submitted_all(m1, decision.carried@.subrange(0, i as int)),
                primary_state(*self) == confirmed_primary(st0, decision),
                self.ordinals_issued() == old(self).ordinals_issued(),
                self.lock_part() == old(self).lock_part(),
            decreases decision.carried@.len() - i,
        {
            let ghost pp = self.primary_part();
            proof {
                self.lemma_reveal();
            }
            self.consume_maintenance(&decision.carried[i]);
            proof {
                assert(decision.carried@.subrange(0, i + 1).drop_last() =~= decision.carried@.subrange(0, i as int));
                self.lemma_reveal();
                assert(self.primary_part() == pp);
            }
            i = i + 1;
        }
        assert(decision.carried@.subrange(0, decision.carried@.len() as int) =~= decision.carried@);
        let ghost m2 = self.maintenance_part();
        let mut j: usize = 0;
        while j < decision.ages.len()
            invariant
                self.wf(),
                0 <= j <= decision.ages@.len(),
                self.maintenance_part() == aged_all(m2, decision.ages@.subrange(0, j as int)),
                primary_state(*self) == confirmed_primary(st0, decision),
                self.ordinals_issued() == old(self).ordinals_issued(),
                self.lock_part() == old(self).lock_part(),
            decreases decision.ages@.len() - j,
        {
            let ghost before = self.maintenance_part();
            let ghost pp = self.primary_part();
            proof {
                self.lemma_reveal();
            }
            self.age_maintenance(decision.ages[j]);
            proof {
                assert(decision.ages@.subrange(0, j + 1).drop_last() =~= decision.ages@.subrange(0, j as int));
                self.lemma_reveal();
                assert(self.primary_part() == pp);
                assert(self.maintenance_part() == aged_one(before, key_code(decision.ages@[j as int])));
            }
            j = j + 1;
        }
        assert(decision.ages@.subrange(0, decision.ages@.len() as int) =~= decision.ages@);
        proof {
            self.lemma_reveal();
        }
        let crtcs = decision.primary_crtcs();
        self.last_primary_crtcs = crtcs;
        self.locked = None;
        self.sequence = self.sequence + 1;
        proof {
            self.lemma_reveal();
        }
        Ok(Confirmed { decision, sequence: self.sequence })
    }

    /// Release the lock without applying the decision.
    pub fn abort(&mut self, token: AdmissionToken) -> (r: Result<(), AdmissionError>)
        requires
            old(self).wf(),
        ensures
            final(self).wf(),
            old(self).lock_serial() != Some(token.spec_serial()) ==> r == Err::<(), AdmissionError>(AdmissionError::TokenMismatch) && *final(self) == *old(self),
            old(self).lock_serial() == Some(token.spec_serial()) ==> {
                &&& r is Ok
                &&& final(self).lock_serial() is None
                &&& final(self).sequence_number() == old(self).sequence_number()
                &&& final(self).last_primary() == old(self).last_primary()
                &&& final(self).serials_issued() == old(self).serials_issued()
                &&& final(self).primary_part() == old(self).primary_part()
                &&& final(self).maintenance_part() == old(self).maintenance_part()
            },
    {
        proof {
            old(self).lemma_reveal();
        }
        let held = match self.locked {
            Some(locked) => locked == token.serial,
            None => false,
        };
        if !held {
            return Err(AdmissionError::TokenMismatch);
        }
        self.locked = None;
        proof {
            self.lemma_reveal();
            old(self).lemma_reveal();
            assert(self.bounds() =~= old(self).bounds());
        }
        Ok(())
    }

    pub fn is_locked(&self) -> (r: bool)
        ensures
            r == self.lock_serial() is Some,
    {
        proof {
            self.lemma_reveal();
        }
        self.locked.is_some()
    }

    pub fn sequence(&self) -> (r: u64)
        ensures
            r == self.sequence_number(),
    {
        proof {
            self.lemma_reveal();
        }
        self.sequence
    }
}

} // verus!
