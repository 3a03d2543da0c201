//! Which queued intent the device admits next.
use vstd::prelude::*;

use std::collections::BTreeSet;

use super::intents::{
    copy_successor, is_key_code, key_code, key_of_code, lemma_code_key, lemma_key_code, Admission,
    AdmissionTicket, DirectSuccessor, MaintenanceKey, PrimaryOrdinal, QueuedDirect,
};
use super::snapshot::{IntentKey, Readiness, ReadinessSnapshot};
use super::CrtcId;
use crate::sorted::{lemma_u32_keys_ordered, lemma_u64_keys_ordered, map_keys_u32, map_keys_u64, set_members_u32};

verus! {

#[derive(Debug, Clone, Copy, PartialEq, Eq, Structural, PartialOrd, Ord)]
pub enum Tier {
    Topology,
    Unflip,
    DirectSuccessor,
    AgedMaintenance,
    Bundle,
    Primary,
    Maintenance,
}

#[derive(Debug, PartialEq, Eq)]
pub enum Admitted {
    Topology { tag: u64 },
    Unflip { crtcs: BTreeSet<CrtcId> },
    Composed { crtc: CrtcId, generation: u64 },
    Direct { successor: DirectSuccessor },
    Maintenance { key: MaintenanceKey, generation: u64 },
    Bundle { members: Vec<Admitted> },
    CursorRecovery { crtc: CrtcId },
}

impl Clone for Admitted {
    fn clone(&self) -> (r: Self)
        decreases self,
    {
        match self {
            Admitted::Topology { tag } => Admitted::Topology { tag: *tag },
            Admitted::Unflip { crtcs } => Admitted::Unflip { crtcs: crtcs.clone() },
            Admitted::Composed { crtc, generation } => Admitted::Composed { crtc: *crtc, generation: *generation },
            Admitted::Direct { successor } => Admitted::Direct { successor: copy_successor(successor) },
            Admitted::Maintenance { key, generation } => Admitted::Maintenance { key: *key, generation: *generation },
            Admitted::Bundle { members } => {
                let mut out: Vec<Admitted> = Vec::new();
                let mut i: usize = 0;
                while i < members.len()
                    invariant
                        0 <= i <= members@.len(),
                        *self == (Admitted::Bundle { members: *members }),
                    decreases members@.len() - i,
                {
                    proof {
                        assert(decreases_to!(*self => self->members));
                        assert(decreases_to!(*members => members@));
                        assert(decreases_to!(members@ => members@[i as int]));
                        assert(decreases_to!(*self => members@[i as int]));
                    }
                    out.push(members[i].clone());
                    i = i + 1;
                }
                Admitted::Bundle { members: out }
            },
            Admitted::CursorRecovery { crtc } => Admitted::CursorRecovery { crtc: *crtc },
        }
    }
}

#[derive(Debug, Clone, Copy, PartialEq, Eq, Structural)]
pub struct CarriedMaintenance {
    pub key: MaintenanceKey,
    pub generation: u64,
    pub ticket: AdmissionTicket,
}

#[derive(Debug, Clone, PartialEq, Eq)]
pub struct AdmissionDecision {
    pub tier: Tier,
    pub admitted: Admitted,
    pub carried: Vec<CarriedMaintenance>,
    pub combined_primary: Option<Admitted>,
    /// The ready maintenance identities left behind, once each, in key order.
    pub ages: Vec<MaintenanceKey>,
}


broadcast use vstd::std_specs::btree::group_btree_axioms;

/// The snapshot reports the intent ready.
pub open spec fn ready(s: ReadinessSnapshot, k: IntentKey) -> bool {
    s.spec_readiness(k) == Some(Readiness::Ready)
}

/// Primary work on the CRTC waits behind the unflip barrier or a cursor recovery.
pub open spec fn blocked(a: Admission, crtc: CrtcId) -> bool {
    (a.barrier() is Some && a.barrier()->0.contains(crtc)) || a.cursor_set().contains(crtc)
}

/// The readiness key of the maintenance queued at position `c`.
pub open spec fn maintenance_intent_key(a: Admission, c: u64) -> IntentKey {
    IntentKey::Maintenance { key: key_of_code(c), generation: a.slots()[c].generation }
}

/// Maintenance is queued at position `c` and reported ready.
pub open spec fn maintenance_ready(a: Admission, s: ReadinessSnapshot, c: u64) -> bool {
    a.slots().contains_key(c) && ready(s, maintenance_intent_key(a, c))
}

/// A composed intent that can be admitted on its CRTC.
pub open spec fn composed_candidate(a: Admission, s: ReadinessSnapshot, crtc: CrtcId) -> bool {
    &&& a.composed_map().contains_key(crtc)
    &&& !blocked(a, crtc)
    &&& ready(s, IntentKey::Composed { crtc, generation: a.composed_map()[crtc].generation })
}

pub open spec fn direct_key(q: QueuedDirect) -> IntentKey {
    IntentKey::Direct { source_generation: q.successor.source_generation }
}

/// Queued maintenance on a CRTC of the successor that may not ride with it.
pub open spec fn direct_has_incompatible(a: Admission, s: ReadinessSnapshot, q: QueuedDirect) -> bool {
    exists|c: u64|
        #![trigger a.slots().contains_key(c)]
        a.slots().contains_key(c) && q.successor.crtcs@.contains(key_of_code(c).crtc) && !s.spec_compatible(maintenance_intent_key(a, c), direct_key(q))
}

/// The queued direct successor can be admitted.
pub open spec fn direct_candidate(a: Admission, s: ReadinessSnapshot) -> bool {
    &&& a.queued_direct() is Some
    &&& a.queued_direct()->0.successor.layout_generation == s.layout()
    &&& a.queued_direct()->0.successor.topology_generation == s.topology()
    &&& forall|x: CrtcId| #[trigger] a.queued_direct()->0.successor.crtcs@.contains(x) ==> !blocked(a, x)
    &&& ready(s, direct_key(a.queued_direct()->0))
    &&& !direct_has_incompatible(a, s, a.queued_direct()->0)
}

pub open spec fn direct_crtcs(a: Admission) -> Set<CrtcId> {
    a.queued_direct()->0.successor.crtcs@
}

/// A primary candidate: its CRTCs and its readiness key.
pub open spec fn is_candidate(a: Admission, s: ReadinessSnapshot, crtcs: Set<CrtcId>, intent: IntentKey) -> bool {
    match intent {
        IntentKey::Composed { crtc, generation } => composed_candidate(a, s, crtc) && generation == a.composed_map()[crtc].generation
            && crtcs == set![crtc],
        IntentKey::Direct { source_generation } => direct_candidate(a, s) && source_generation
            == a.queued_direct()->0.successor.source_generation && crtcs == direct_crtcs(a),
        _ => false,
    }
}

/// The ordinal a candidate was queued with.
pub open spec fn candidate_ordinal(a: Admission, intent: IntentKey) -> u64 {
    match intent {
        IntentKey::Composed { crtc, .. } => a.composed_map()[crtc].ordinal.0,
        _ => a.queued_direct()->0.ordinal.0,
    }
}

/// CRTCs of candidates that got no primary in the last admission: round
/// robin owes them a turn.
pub open spec fn owed_set(a: Admission, s: ReadinessSnapshot) -> Set<CrtcId> {
    Set::new(
        |x: CrtcId|
            (composed_candidate(a, s, x) && !a.last_primary().contains(x)) || (direct_candidate(a, s) && direct_crtcs(a).contains(x)
                && direct_crtcs(a).disjoint(a.last_primary())),
    )
}

/// Round robin lets primary work on these CRTCs go now.
pub open spec fn allows(a: Admission, s: ReadinessSnapshot, crtcs: Set<CrtcId>) -> bool {
    crtcs.disjoint(a.last_primary()) || owed_set(a, s).is_empty()
}

/// The carried form of the maintenance queued at position `c`.
pub open spec fn carried_item(a: Admission, c: u64) -> CarriedMaintenance {
    CarriedMaintenance { key: key_of_code(c), generation: a.slots()[c].generation, ticket: a.slots()[c].ticket }
}

/// `carried` holds, once each and in key order, the queued maintenance at
/// exactly the positions `pred` picks.
pub open spec fn carries_exactly(a: Admission, carried: Seq<CarriedMaintenance>, pred: spec_fn(u64) -> bool) -> bool {
    &&& forall|i: int| 0 <= i < carried.len() ==> a.slots().contains_key(key_code(#[trigger] carried[i].key)) && pred(key_code(carried[i].key))
        && carried[i] == carried_item(a, key_code(carried[i].key))
    &&& forall|c: u64| a.slots().contains_key(c) && #[trigger] pred(c) ==> exists|i: int| 0 <= i < carried.len() && key_code(#[trigger] carried[i].key) == c
    &&& forall|i: int, j: int| 0 <= i < carried.len() && 0 <= j < carried.len() && i != j ==> #[trigger] carried[i].key != #[trigger] carried[j].key
    &&& forall|i: int, j: int| 0 <= i < j < carried.len() ==> key_code(#[trigger] carried[i].key) < key_code(#[trigger] carried[j].key)
}

/// The maintenance at `c` may ride with a primary on these CRTCs.
pub open spec fn rides_with(a: Admission, s: ReadinessSnapshot, c: u64, crtcs: Set<CrtcId>, intent: IntentKey) -> bool {
    maintenance_ready(a, s, c) && crtcs.contains(key_of_code(c).crtc) && s.spec_compatible(maintenance_intent_key(a, c), intent)
}

/// Ready maintenance that was not carried ages, once each, in key order.
pub open spec fn ages_exactly(a: Admission, s: ReadinessSnapshot, d: AdmissionDecision) -> bool {
    &&& d.ages@.no_duplicates()
    &&& forall|i: int, j: int| 0 <= i < j < d.ages@.len() ==> key_code(#[trigger] d.ages@[i]) < key_code(#[trigger] d.ages@[j])
    &&& forall|k: MaintenanceKey| d.ages@.contains(k) <==> (maintenance_ready(a, s, key_code(k)) && !(exists|i: int|
        0 <= i < d.carried@.len() && #[trigger] d.carried@[i].key == k))
}

pub open spec fn same_successor(x: DirectSuccessor, y: DirectSuccessor) -> bool {
    &&& x.source_generation == y.source_generation
    &&& x.layout_generation == y.layout_generation
    &&& x.topology_generation == y.topology_generation
    &&& x.crtcs@ == y.crtcs@
}

/// The admitted form of a candidate.
pub open spec fn admits_candidate(a: Admission, admitted: Admitted, intent: IntentKey) -> bool {
    match intent {
        IntentKey::Composed { crtc, generation } => admitted == (Admitted::Composed { crtc, generation }),
        _ => admitted matches Admitted::Direct { successor } && same_successor(successor, a.queued_direct()->0.successor),
    }
}

/// The CRTCs a candidate's primary work lands on.
pub open spec fn cand_crtcs(a: Admission, intent: IntentKey) -> Set<CrtcId> {
    match intent {
        IntentKey::Composed { crtc, .. } => set![crtc],
        _ => direct_crtcs(a),
    }
}

/// A primary the maintenance at `c` may combine with.
pub open spec fn partner(a: Admission, s: ReadinessSnapshot, c: u64, intent: IntentKey) -> bool {
    &&& is_candidate(a, s, cand_crtcs(a, intent), intent)
    &&& cand_crtcs(a, intent).contains(key_of_code(c).crtc)
    &&& allows(a, s, cand_crtcs(a, intent))
    &&& s.spec_compatible(maintenance_intent_key(a, c), intent)
}

/// A decision whose only content is what it admits.
pub open spec fn plain_decision(a: Admission, s: ReadinessSnapshot, d: AdmissionDecision, tier: Tier) -> bool {
    &&& d.tier == tier
    &&& d.carried@.len() == 0
    &&& d.combined_primary is None
    &&& ages_exactly(a, s, d)
}

/// A primary decision for one candidate, carrying what may ride with it.
pub open spec fn primary_decision_for(a: Admission, s: ReadinessSnapshot, d: AdmissionDecision, tier: Tier, intent: IntentKey) -> bool {
    &&& d.tier == tier
    &&& admits_candidate(a, d.admitted, intent)
    &&& d.combined_primary is None
    &&& carries_exactly(a, d.carried@, |m: u64| rides_with(a, s, m, cand_crtcs(a, intent), intent))
    &&& ages_exactly(a, s, d)
}

/// A maintenance decision for the identity at `c`, combined with the
/// earliest-queued primary it may ride with, if any.
pub open spec fn maintenance_decision_for(a: Admission, s: ReadinessSnapshot, d: AdmissionDecision, tier: Tier, c: u64) -> bool {
    &&& d.tier == tier
    &&& d.admitted == (Admitted::Maintenance { key: key_of_code(c), generation: a.slots()[c].generation })
    &&& ages_exactly(a, s, d)
    &&& (exists|intent: IntentKey| #[trigger] partner(a, s, c, intent)) ==> exists|intent: IntentKey| {
        &&& #[trigger] partner(a, s, c, intent)
        &&& forall|other: IntentKey| #[trigger] partner(a, s, c, other) ==> candidate_ordinal(a, intent) <= candidate_ordinal(a, other)
        &&& d.combined_primary is Some
        &&& admits_candidate(a, d.combined_primary->0, intent)
        &&& carries_exactly(a, d.carried@, |m: u64| rides_with(a, s, m, cand_crtcs(a, intent), intent))
    }
    &&& !(exists|intent: IntentKey| #[trigger] partner(a, s, c, intent)) ==> {
        &&& d.combined_primary is None
        &&& d.carried@ == seq![carried_item(a, c)]
    }
}

/// Private working form of a primary candidate.
struct Candidate {
    ordinal: PrimaryOrdinal,
    crtcs: BTreeSet<CrtcId>,
    intent: IntentKey,
}

spec fn candidate_ok(a: Admission, s: ReadinessSnapshot, c: Candidate) -> bool {
    is_candidate(a, s, c.crtcs@, c.intent) && c.ordinal.0 == candidate_ordinal(a, c.intent)
}

/// The candidates list every candidate once.
spec fn candidates_exact(a: Admission, s: ReadinessSnapshot, cands: Seq<Candidate>) -> bool {
    &&& forall|i: int| 0 <= i < cands.len() ==> candidate_ok(a, s, #[trigger] cands[i])
    &&& forall|crtc: CrtcId| #[trigger] composed_candidate(a, s, crtc) ==> exists|i: int| 0 <= i < cands.len()
        && #[trigger] cands[i].intent == (IntentKey::Composed { crtc, generation: a.composed_map()[crtc].generation })
    &&& direct_candidate(a, s) ==> exists|i: int| 0 <= i < cands.len() && #[trigger] cands[i].intent == direct_key(a.queued_direct()->0)
    &&& forall|i: int, j: int| 0 <= i < cands.len() && 0 <= j < cands.len() && i != j ==> #[trigger] cands[i].intent != #[trigger] cands[j].intent
}

/// Composed candidates come in increasing CRTC order.
spec fn composed_ordered(cands: Seq<Candidate>) -> bool {
    forall|x: int, y: int| 0 <= x < y < cands.len() && (#[trigger] cands[x]).intent is Composed && (#[trigger] cands[y]).intent is Composed
        ==> cands[x].intent->Composed_crtc < cands[y].intent->Composed_crtc
}

impl Admission {
    fn primary_is_blocked(&self, crtc: CrtcId) -> (r: bool)
        ensures
            r == blocked(*self, crtc),
    {
        proof {
            lemma_u32_keys_ordered();
        }
        let barred = match self.unflip() {
            Some(barrier) => barrier.crtcs.contains(&crtc),
            None => false,
        };
        barred || self.cursor_recovery().contains(&crtc)
    }

    fn direct_has_incompatible_maintenance(&self, q: &QueuedDirect, snapshot: &ReadinessSnapshot) -> (r: bool)
        requires
            self.wf(),
        ensures
            r == direct_has_incompatible(*self, *snapshot, *q),
    {
        proof {
            lemma_u64_keys_ordered();
            lemma_u32_keys_ordered();
            self.lemma_reveal();
            self.lemma_wf_codes();
        }
        let direct = IntentKey::Direct { source_generation: q.successor.source_generation };
        let codes = map_keys_u64(&self.maintenance_slots);
        let mut i: usize = 0;
        while i < codes.len()
            invariant
                crate::sorted::u64_keys_ordered(),
                crate::sorted::u32_keys_ordered(),
                self.wf(),
                self.slots() == self.maintenance_slots@,
                forall|c: u64| #[trigger] self.slots().contains_key(c) ==> is_key_code(c),
                codes@.to_set() == self.slots().dom(),
                0 <= i <= codes@.len(),
                direct == direct_key(*q),
                forall|k: int| 0 <= k < i ==> !(q.successor.crtcs@.contains(key_of_code(#[trigger] codes@[k]).crtc)
                    && !snapshot.spec_compatible(maintenance_intent_key(*self, codes@[k]), direct)),
            decreases codes@.len() - i,
        {
            let c = codes[i];
            assert(codes@.to_set().contains(c));
            let intent = *self.maintenance_slots.get(&c).unwrap();
            let key = MaintenanceKey::from_code(c);
            let maintenance = IntentKey::Maintenance { key, generation: intent.generation };
            if q.successor.crtcs.contains(&key.crtc) && !snapshot.is_compatible(maintenance, direct) {
                return true;
            }
            i = i + 1;
        }
        proof {
            assert forall|c: u64| #[trigger] self.slots().contains_key(c) implies !(q.successor.crtcs@.contains(key_of_code(c).crtc)
                && !snapshot.spec_compatible(maintenance_intent_key(*self, c), direct)) by {
                assert(codes@.to_set().contains(c));
                let k = choose|k: int| 0 <= k < codes@.len() && codes@[k] == c;
            }
        }
        false
    }

    fn primary_candidates(&self, snapshot: &ReadinessSnapshot) -> (r: Vec<Candidate>)
        requires
            self.wf(),
        ensures
            candidates_exact(*self, *snapshot, r@),
            composed_ordered(r@),
    {
        proof {
            lemma_u32_keys_ordered();
            self.lemma_reveal();
        }
        let mut candidates: Vec<Candidate> = Vec::new();
        let crtcs = map_keys_u32(&self.composed);
        let mut i: usize = 0;
        while i < crtcs.len()
            invariant
                crate::sorted::u32_keys_ordered(),
                self.wf(),
                self.composed_map() == self.composed@,
                crtcs@.to_set() == self.composed_map().dom(),
                crtcs@.no_duplicates(),
                0 <= i <= crtcs@.len(),
                forall|k: int| 0 <= k < candidates@.len() ==> candidate_ok(*self, *snapshot, #[trigger] candidates@[k]),
                forall|k: int| 0 <= k < candidates@.len() ==> (#[trigger] candidates@[k]).intent is Composed,
                forall|k: int| 0 <= k < i && composed_candidate(*self, *snapshot, #[trigger] crtcs@[k]) ==> exists|j: int| 0 <= j < candidates@.len()
                    && #[trigger] candidates@[j].intent == (IntentKey::Composed { crtc: crtcs@[k], generation: self.composed_map()[crtcs@[k]].generation }),
                forall|j: int| 0 <= j < candidates@.len() ==> exists|k: int| 0 <= k < i && (#[trigger] candidates@[j]).intent->Composed_crtc == crtcs@[k],
                forall|x: int, y: int| 0 <= x < candidates@.len() && 0 <= y < candidates@.len() && x != y ==> #[trigger] candidates@[x].intent != #[trigger] candidates@[y].intent,
                crate::sorted::strictly_increasing(crtcs@),
                composed_ordered(candidates@),
            decreases crtcs@.len() - i,
        {
            let crtc = crtcs[i];
            assert(crtcs@.to_set().contains(crtc));
            let composed = *self.composed.get(&crtc).unwrap();
            if !self.primary_is_blocked(crtc) {
                let intent = IntentKey::Composed { crtc, generation: composed.generation };
                if snapshot.is_ready(intent) {
                    let mut one: BTreeSet<CrtcId> = BTreeSet::new();
                    one.insert(crtc);
                    assert(one@ =~= set![crtc]);
                    let ghost before = candidates@;
                    proof {
                        assert forall|j: int| 0 <= j < before.len() implies before[j].intent != intent by {
                            let k = choose|k: int| 0 <= k < i && before[j].intent->Composed_crtc == crtcs@[k];
                            assert(crtcs@[k] != crtcs@[i as int]);
                        }
                    }
                    candidates.push(Candidate { ordinal: composed.ordinal, crtcs: one, intent });
                    proof {
                        assert forall|x: int, y: int| 0 <= x < y < candidates@.len() && (#[trigger] candidates@[x]).intent is Composed
                            && (#[trigger] candidates@[y]).intent is Composed implies candidates@[x].intent->Composed_crtc
                            < candidates@[y].intent->Composed_crtc by {
                            if y == candidates@.len() - 1 {
                                assert(candidates@[x] == before[x]);
                                let k = choose|k: int| 0 <= k < i && before[x].intent->Composed_crtc == crtcs@[k];
                                assert(crtcs@[k] < crtcs@[i as int]);
                            } else {
                                assert(candidates@[x] == before[x] && candidates@[y] == before[y]);
                            }
                        }
                        assert forall|j: int| 0 <= j < candidates@.len() implies exists|k: int| 0 <= k < i + 1 && (#[trigger] candidates@[j]).intent->Composed_crtc == crtcs@[k] by {
                            if j < before.len() {
                                assert(candidates@[j] == before[j]);
                                let k = choose|k: int| 0 <= k < i && before[j].intent->Composed_crtc == crtcs@[k];
                            } else {
                                assert(candidates@[j].intent->Composed_crtc == crtcs@[i as int]);
                            }
                        }
                        assert forall|k: int| 0 <= k < i + 1 && composed_candidate(*self, *snapshot, #[trigger] crtcs@[k]) implies exists|j: int| 0 <= j < candidates@.len()
                            && #[trigger] candidates@[j].intent == (IntentKey::Composed { crtc: crtcs@[k], generation: self.composed_map()[crtcs@[k]].generation }) by {
                            if k == i {
                                assert(candidates@[before.len() as int].intent == intent);
                            } else {
                                let j = choose|j: int| 0 <= j < before.len() && #[trigger] before[j].intent == (IntentKey::Composed { crtc: crtcs@[k], generation: self.composed_map()[crtcs@[k]].generation });
                                assert(candidates@[j] == before[j]);
                            }
                        }
                    }
                }
            }
            i = i + 1;
        }
        proof {
            assert forall|crtc: CrtcId| #[trigger] composed_candidate(*self, *snapshot, crtc) implies exists|j: int| 0 <= j < candidates@.len()
                && #[trigger] candidates@[j].intent == (IntentKey::Composed { crtc, generation: self.composed_map()[crtc].generation }) by {
                assert(crtcs@.to_set().contains(crtc));
                let k = choose|k: int| 0 <= k < crtcs@.len() && crtcs@[k] == crtc;
                assert(composed_candidate(*self, *snapshot, crtcs@[k]));
            }
        }
        let ghost composed_only = candidates@;
        if let Some(direct) = self.direct() {
            if direct.successor.layout_generation == snapshot.current_layout() && direct.successor.topology_generation
                == snapshot.current_topology() {
                let members = set_members_u32(&direct.successor.crtcs);
                let mut any_blocked = false;
                let mut k: usize = 0;
                while k < members.len()
                    invariant
                        0 <= k <= members@.len(),
                        any_blocked == exists|m: int| 0 <= m < k && blocked(*self, #[trigger] members@[m]),
                    decreases members@.len() - k,
                {
                    if self.primary_is_blocked(members[k]) {
                        any_blocked = true;
                    }
                    k = k + 1;
                }
                proof {
                    assert(any_blocked <==> exists|x: CrtcId| #[trigger] direct.successor.crtcs@.contains(x) && blocked(*self, x)) by {
                        if any_blocked {
                            let m = choose|m: int| 0 <= m < members@.len() && blocked(*self, #[trigger] members@[m]);
                            assert(members@.to_set().contains(members@[m]));
                        }
                        if exists|x: CrtcId| #[trigger] direct.successor.crtcs@.contains(x) && blocked(*self, x) {
                            let x = choose|x: CrtcId| #[trigger] direct.successor.crtcs@.contains(x) && blocked(*self, x);
                            assert(members@.to_set().contains(x));
                            let m = choose|m: int| 0 <= m < members@.len() && members@[m] == x;
                            assert(blocked(*self, members@[m]));
                        }
                    }
                }
                if !any_blocked {
                    let intent = IntentKey::Direct { source_generation: direct.successor.source_generation };
                    if snapshot.is_ready(intent) && !self.direct_has_incompatible_maintenance(direct, snapshot) {
                        candidates.push(Candidate { ordinal: direct.ordinal, crtcs: direct.successor.crtcs.clone(), intent });
                        proof {
                            assert forall|x: int, y: int| 0 <= x < y < candidates@.len() && (#[trigger] candidates@[x]).intent is Composed
                                && (#[trigger] candidates@[y]).intent is Composed implies candidates@[x].intent->Composed_crtc
                                < candidates@[y].intent->Composed_crtc by {
                                assert(candidates@[x] == composed_only[x]);
                                if y < composed_only.len() {
                                    assert(candidates@[y] == composed_only[y]);
                                }
                            }
                            assert(candidates@[composed_only.len() as int].intent == intent);
                            assert forall|crtc: CrtcId| #[trigger] composed_candidate(*self, *snapshot, crtc) implies exists|j: int| 0 <= j < candidates@.len()
                                && #[trigger] candidates@[j].intent == (IntentKey::Composed { crtc, generation: self.composed_map()[crtc].generation }) by {
                                let j = choose|j: int| 0 <= j < composed_only.len() && #[trigger] composed_only[j].intent == (IntentKey::Composed { crtc, generation: self.composed_map()[crtc].generation });
                                assert(candidates@[j] == composed_only[j]);
                            }
                        }
                    }
                }
            }
        }
        candidates
    }

    fn disjoint_from_last(&self, crtcs: &BTreeSet<CrtcId>) -> (r: bool)
        ensures
            r == crtcs@.disjoint(self.last_primary()),
    {
        proof {
            lemma_u32_keys_ordered();
            self.lemma_reveal();
        }
        let members = set_members_u32(crtcs);
        let mut i: usize = 0;
        while i < members.len()
            invariant
                crate::sorted::u32_keys_ordered(),
                self.last_primary() == self.last_primary_crtcs@,
                members@.to_set() == crtcs@,
                0 <= i <= members@.len(),
                forall|k: int| 0 <= k < i ==> !self.last_primary().contains(#[trigger] members@[k]),
            decreases members@.len() - i,
        {
            if self.last_primary_crtcs.contains(&members[i]) {
                assert(members@.to_set().contains(members@[i as int]));
                return false;
            }
            i = i + 1;
        }
        proof {
            assert forall|x: CrtcId| crtcs@.contains(x) implies !self.last_primary().contains(x) by {
                assert(members@.to_set().contains(x));
                let k = choose|k: int| 0 <= k < members@.len() && members@[k] == x;
            }
        }
        true
    }

    fn owed_crtcs(&self, cands: &Vec<Candidate>) -> (r: BTreeSet<CrtcId>)
        ensures
            r@ == owed_from(cands@, self.last_primary()),
    {
        proof {
            lemma_u32_keys_ordered();
        }
        let mut owed: BTreeSet<CrtcId> = BTreeSet::new();
        let mut i: usize = 0;
        while i < cands.len()
            invariant
                crate::sorted::u32_keys_ordered(),
                0 <= i <= cands@.len(),
                owed@ == owed_from(cands@.subrange(0, i as int), self.last_primary()),
            decreases cands@.len() - i,
        {
            let ghost before = owed@;
            if self.disjoint_from_last(&cands[i].crtcs) {
                let members = set_members_u32(&cands[i].crtcs);
                let mut k: usize = 0;
                while k < members.len()
                    invariant
                        crate::sorted::u32_keys_ordered(),
                        0 <= k <= members@.len(),
                        owed@ == before.union(members@.subrange(0, k as int).to_set()),
                    decreases members@.len() - k,
                {
                    owed.insert(members[k]);
                    proof {
                        assert(members@.subrange(0, k + 1) =~= members@.subrange(0, k as int).push(members@[k as int]));
                        members@.subrange(0, k as int).lemma_push_to_set_commute(members@[k as int]);
                    }
                    k = k + 1;
                }
                assert(members@.subrange(0, members@.len() as int) =~= members@);
            }
            proof {
                let prev = cands@.subrange(0, i as int);
                let next = cands@.subrange(0, i + 1);
                assert forall|x: CrtcId| owed@.contains(x) == owed_from(next, self.last_primary()).contains(x) by {
                    if owed_from(prev, self.last_primary()).contains(x) {
                        let k = choose|k: int| 0 <= k < prev.len() && (#[trigger] prev[k]).crtcs@.contains(x) && prev[k].crtcs@.disjoint(self.last_primary());
                        assert(next[k] == prev[k]);
                    }
                    if owed_from(next, self.last_primary()).contains(x) {
                        let k = choose|k: int| 0 <= k < next.len() && (#[trigger] next[k]).crtcs@.contains(x) && next[k].crtcs@.disjoint(self.last_primary());
                        if k < i {
                            assert(prev[k] == next[k]);
                        }
                    }
                    if cands@[i as int].crtcs@.contains(x) && cands@[i as int].crtcs@.disjoint(self.last_primary()) {
                        assert(next[i as int] == cands@[i as int]);
                    }
                }
                assert(owed@ =~= owed_from(next, self.last_primary()));
            }
            i = i + 1;
        }
        assert(cands@.subrange(0, cands@.len() as int) =~= cands@);
        owed
    }

    fn candidate_allowed(&self, cand: &Candidate, owed: &BTreeSet<CrtcId>) -> (r: bool)
        ensures
            r == (cand.crtcs@.disjoint(self.last_primary()) || owed@.is_empty()),
    {
        self.disjoint_from_last(&cand.crtcs) || owed.is_empty()
    }

    fn admitted_for(&self, snapshot: &ReadinessSnapshot, cand: &Candidate) -> (r: Admitted)
        requires
            candidate_ok(*self, *snapshot, *cand),
        ensures
            admits_candidate(*self, r, cand.intent),
    {
        match cand.intent {
            IntentKey::Composed { crtc, generation } => Admitted::Composed { crtc, generation },
            _ => {
                let q = self.direct().unwrap();
                Admitted::Direct { successor: copy_successor(&q.successor) }
            },
        }
    }

    fn carried_for(&self, snapshot: &ReadinessSnapshot, cands: &Vec<Candidate>, idx: &Vec<usize>) -> (r: Vec<CarriedMaintenance>)
        requires
            self.wf(),
            forall|j: int| 0 <= j < idx@.len() ==> idx@[j] < cands@.len(),
        ensures
            carries_exactly(*self, r@, |m: u64| rides_with_some(*self, *snapshot, m, cands@, idx@)),
    {
        proof {
            lemma_u64_keys_ordered();
            lemma_u32_keys_ordered();
            self.lemma_reveal();
            self.lemma_wf_codes();
        }
        let ghost pred = |m: u64| rides_with_some(*self, *snapshot, m, cands@, idx@);
        let codes = map_keys_u64(&self.maintenance_slots);
        let mut out: Vec<CarriedMaintenance> = Vec::new();
        let mut i: usize = 0;
        while i < codes.len()
            invariant
                crate::sorted::u64_keys_ordered(),
                crate::sorted::u32_keys_ordered(),
                self.slots() == self.maintenance_slots@,
                forall|c: u64| #[trigger] self.slots().contains_key(c) ==> is_key_code(c),
                codes@.to_set() == self.slots().dom(),
                codes@.no_duplicates(),
                0 <= i <= codes@.len(),
                forall|j: int| 0 <= j < idx@.len() ==> idx@[j] < cands@.len(),
                pred == (|m: u64| rides_with_some(*self, *snapshot, m, cands@, idx@)),
                forall|k: int| 0 <= k < out@.len() ==> self.slots().contains_key(key_code(#[trigger] out@[k].key)) && pred(key_code(out@[k].key))
                    && out@[k] == carried_item(*self, key_code(out@[k].key)),
                forall|k: int| 0 <= k < out@.len() ==> exists|m: int| 0 <= m < i && codes@[m] == key_code(#[trigger] out@[k].key),
                forall|m: int| 0 <= m < i && #[trigger] pred(codes@[m]) ==> exists|k: int| 0 <= k < out@.len() && key_code(#[trigger] out@[k].key) == codes@[m],
                forall|x: int, y: int| 0 <= x < out@.len() && 0 <= y < out@.len() && x != y ==> #[trigger] out@[x].key != #[trigger] out@[y].key,
                crate::sorted::strictly_increasing_u64(codes@),
                forall|x: int, y: int| 0 <= x < y < out@.len() ==> key_code(#[trigger] out@[x].key) < key_code(#[trigger] out@[y].key),
            decreases codes@.len() - i,
        {
            let c = codes[i];
            assert(codes@.to_set().contains(c));
            let intent = *self.maintenance_slots.get(&c).unwrap();
            let key = MaintenanceKey::from_code(c);
            let maintenance = IntentKey::Maintenance { key, generation: intent.generation };
            let mut rides = false;
            if snapshot.is_ready(maintenance) {
                let mut j: usize = 0;
                while j < idx.len()
                    invariant
                        crate::sorted::u32_keys_ordered(),
                        0 <= j <= idx@.len(),
                        forall|k: int| 0 <= k < idx@.len() ==> idx@[k] < cands@.len(),
                        rides == exists|k: int| 0 <= k < j && cands@[idx@[k] as int].crtcs@.contains(key.crtc)
                            && snapshot.spec_compatible(maintenance, #[trigger] cands@[idx@[k] as int].intent),
                    decreases idx@.len() - j,
                {
                    let cand = &cands[idx[j]];
                    if cand.crtcs.contains(&key.crtc) && snapshot.is_compatible(maintenance, cand.intent) {
                        rides = true;
                    }
                    j = j + 1;
                }
            }
            assert(maintenance == maintenance_intent_key(*self, c));
            assert(rides == pred(c)) by {
                if pred(c) {
                    let k = choose|k: int| 0 <= k < idx@.len() && rides_with(*self, *snapshot, c, cands@[idx@[k] as int].crtcs@, #[trigger] cands@[idx@[k] as int].intent);
                }
            }
            let ghost before = out@;
            if rides {
                proof {
                    assert forall|k: int| 0 <= k < before.len() implies before[k].key != key by {
                        let m = choose|m: int| 0 <= m < i && codes@[m] == key_code(before[k].key);
                        lemma_key_code(before[k].key);
                        lemma_key_code(key);
                        assert(codes@[m] != codes@[i as int]);
                    }
                }
                out.push(CarriedMaintenance { key, generation: intent.generation, ticket: intent.ticket });
                proof {
                    lemma_key_code(key);
                    assert forall|x: int, y: int| 0 <= x < y < out@.len() implies key_code(#[trigger] out@[x].key) < key_code(#[trigger] out@[y].key) by {
                        if y == out@.len() - 1 {
                            assert(out@[x] == before[x]);
                            let m = choose|m: int| 0 <= m < i && codes@[m] == key_code(before[x].key);
                            assert(codes@[m] < codes@[i as int]);
                        } else {
                            assert(out@[x] == before[x] && out@[y] == before[y]);
                        }
                    }
                }
            }
            proof {
                assert forall|k: int| 0 <= k < out@.len() implies exists|m: int| 0 <= m < i + 1 && codes@[m] == key_code(#[trigger] out@[k].key) by {
                    if k < before.len() {
                        assert(out@[k] == before[k]);
                        let m = choose|m: int| 0 <= m < i && codes@[m] == key_code(before[k].key);
                    } else {
                        assert(codes@[i as int] == key_code(out@[k].key));
                    }
                }
                assert forall|m: int| 0 <= m < i + 1 && #[trigger] pred(codes@[m]) implies exists|k: int| 0 <= k < out@.len() && key_code(#[trigger] out@[k].key) == codes@[m] by {
                    if m == i {
                        assert(key_code(out@[before.len() as int].key) == c);
                    } else {
                        let k = choose|k: int| 0 <= k < before.len() && key_code(#[trigger] before[k].key) == codes@[m];
                        assert(out@[k] == before[k]);
                    }
                }
            }
            i = i + 1;
        }
        proof {
            assert forall|c: u64| self.slots().contains_key(c) && #[trigger] pred(c) implies exists|k: int| 0 <= k < out@.len() && key_code(#[trigger] out@[k].key) == c by {
                assert(codes@.to_set().contains(c));
                let m = choose|m: int| 0 <= m < codes@.len() && codes@[m] == c;
                assert(pred(codes@[m]));
            }
        }
        out
    }

    fn decision(&self, snapshot: &ReadinessSnapshot, tier: Tier, admitted: Admitted, carried: Vec<CarriedMaintenance>) -> (r: AdmissionDecision)
        requires
            self.wf(),
        ensures
            r.tier == tier,
            r.admitted == admitted,
            r.carried == carried,
            r.combined_primary is None,
            ages_exactly(*self, *snapshot, r),
    {
        proof {
            lemma_u64_keys_ordered();
            self.lemma_reveal();
            self.lemma_wf_codes();
        }
        let codes = map_keys_u64(&self.maintenance_slots);
        let mut ages: Vec<MaintenanceKey> = Vec::new();
        let mut i: usize = 0;
        while i < codes.len()
            invariant
                crate::sorted::u64_keys_ordered(),
                self.slots() == self.maintenance_slots@,
                forall|c: u64| #[trigger] self.slots().contains_key(c) ==> is_key_code(c),
                codes@.to_set() == self.slots().dom(),
                codes@.no_duplicates(),
                0 <= i <= codes@.len(),
                ages@.no_duplicates(),
                forall|k: MaintenanceKey| ages@.contains(k) <==> (exists|m: int| 0 <= m < i && codes@[m] == key_code(k)) && maintenance_ready(*self, *snapshot, key_code(k))
                    && !(exists|x: int| 0 <= x < carried@.len() && #[trigger] carried@[x].key == k),
                crate::sorted::strictly_increasing_u64(codes@),
                forall|x: int, y: int| 0 <= x < y < ages@.len() ==> key_code(#[trigger] ages@[x]) < key_code(#[trigger] ages@[y]),
            decreases codes@.len() - i,
        {
            let c = codes[i];
            assert(codes@.to_set().contains(c));
            let intent = *self.maintenance_slots.get(&c).unwrap();
            let key = MaintenanceKey::from_code(c);
            let mut was_carried = false;
            let mut j: usize = 0;
            while j < carried.len()
                invariant
                    0 <= j <= carried@.len(),
                    was_carried == exists|x: int| 0 <= x < j && #[trigger] carried@[x].key == key,
                decreases carried@.len() - j,
            {
                if carried[j].key == key {
                    was_carried = true;
                }
                j = j + 1;
            }
            let ghost before = ages@;
            if snapshot.is_ready(IntentKey::Maintenance { key, generation: intent.generation }) && !was_carried {
                proof {
                    assert(!before.contains(key)) by {
                        if before.contains(key) {
                            let m = choose|m: int| 0 <= m < i && codes@[m] == key_code(key);
                            assert(codes@[m] == codes@[i as int]);
                        }
                    }
                }
                ages.push(key);
                proof {
                    lemma_key_code(key);
                    assert forall|x: int, y: int| 0 <= x < y < ages@.len() implies key_code(#[trigger] ages@[x]) < key_code(#[trigger] ages@[y]) by {
                        if y == ages@.len() - 1 {
                            assert(ages@[x] == before[x]);
                            assert(before.contains(before[x]));
                            let m = choose|m: int| 0 <= m < i && codes@[m] == key_code(before[x]);
                            assert(codes@[m] < codes@[i as int]);
                        } else {
                            assert(ages@[x] == before[x] && ages@[y] == before[y]);
                        }
                    }
                    assert forall|x: int, y: int| 0 <= x < ages@.len() && 0 <= y < ages@.len() && x != y implies ages@[x] != ages@[y] by {
                        if x < before.len() && y < before.len() {
                            assert(ages@[x] == before[x] && ages@[y] == before[y]);
                        } else if x < before.len() {
                            assert(before.contains(before[x]));
                        } else if y < before.len() {
                            assert(before.contains(before[y]));
                        }
                    }
                }
            }
            proof {
                assert forall|k: MaintenanceKey| ages@.contains(k) <==> (exists|m: int| 0 <= m < i + 1 && codes@[m] == key_code(k)) && maintenance_ready(*self, *snapshot, key_code(k))
                    && !(exists|x: int| 0 <= x < carried@.len() && #[trigger] carried@[x].key == k) by {
                    lemma_key_code(k);
                    lemma_key_code(key);
                    if ages@.contains(k) && !before.contains(k) {
                        let x = choose|x: int| 0 <= x < ages@.len() && ages@[x] == k;
                        if x < before.len() {
                            assert(before[x] == k);
                        }
                        assert(k == key);
                    }
                    if before.contains(k) {
                        let x = choose|x: int| 0 <= x < before.len() && before[x] == k;
                        assert(ages@[x] == k);
                    }
                    if key_code(k) == codes@[i as int] {
                        assert(k == key);
                        if ages@.contains(k) && before.contains(k) {
                            let m = choose|m: int| 0 <= m < i && codes@[m] == key_code(k);
                            assert(codes@[m] == codes@[i as int]);
                        }
                        if (maintenance_ready(*self, *snapshot, key_code(k)) && !(exists|x: int| 0 <= x < carried@.len() && #[trigger] carried@[x].key == k)) {
                            assert(ages@[ages@.len() - 1] == k);
                        }
                    }
                }
            }
            i = i + 1;
        }
        proof {
            assert forall|k: MaintenanceKey| maintenance_ready(*self, *snapshot, key_code(k)) implies exists|m: int| 0 <= m < codes@.len() && codes@[m] == key_code(k) by {
                assert(codes@.to_set().contains(key_code(k)));
            }
        }
        AdmissionDecision { tier, admitted, carried, combined_primary: None, ages }
    }
}

/// CRTCs of listed candidates that got no primary in the last admission.
spec fn owed_from(cands: Seq<Candidate>, last: Set<CrtcId>) -> Set<CrtcId> {
    Set::new(|x: CrtcId| exists|i: int| 0 <= i < cands.len() && (#[trigger] cands[i]).crtcs@.contains(x) && cands[i].crtcs@.disjoint(last))
}

/// The maintenance at `m` may ride with one of the chosen candidates.
spec fn rides_with_some(a: Admission, s: ReadinessSnapshot, m: u64, cands: Seq<Candidate>, idx: Seq<usize>) -> bool {
    exists|j: int| 0 <= j < idx.len() && rides_with(a, s, m, cands[idx[j] as int].crtcs@, #[trigger] cands[idx[j] as int].intent)
}


/// The maintenance at `c1` comes before the one at `c2`: older ticket first,
/// then key order.
pub open spec fn maintenance_before(a: Admission, c1: u64, c2: u64) -> bool {
    a.slots()[c1].ticket.0 < a.slots()[c2].ticket.0 || (a.slots()[c1].ticket.0 == a.slots()[c2].ticket.0 && c1 <= c2)
}

/// Ready maintenance of the given age, and, where asked, with a primary to ride with.
pub open spec fn maintenance_pick(a: Admission, s: ReadinessSnapshot, c: u64, aged: bool, with_partner: bool) -> bool {
    &&& maintenance_ready(a, s, c)
    &&& a.slots()[c].aged == aged
    &&& with_partner ==> exists|intent: IntentKey| #[trigger] partner(a, s, c, intent)
}

/// `c` is the first of the picked maintenance.
pub open spec fn first_pick(a: Admission, s: ReadinessSnapshot, c: u64, aged: bool, with_partner: bool) -> bool {
    &&& maintenance_pick(a, s, c, aged, with_partner)
    &&& forall|d: u64| #[trigger] maintenance_pick(a, s, d, aged, with_partner) ==> maintenance_before(a, c, d)
}

proof fn lemma_owed(a: Admission, s: ReadinessSnapshot, cands: Seq<Candidate>)
    requires
        candidates_exact(a, s, cands),
    ensures
        owed_from(cands, a.last_primary()) == owed_set(a, s),
{
    assert forall|x: CrtcId| owed_from(cands, a.last_primary()).contains(x) == owed_set(a, s).contains(x) by {
        if owed_from(cands, a.last_primary()).contains(x) {
            let i = choose|i: int| 0 <= i < cands.len() && (#[trigger] cands[i]).crtcs@.contains(x) && cands[i].crtcs@.disjoint(a.last_primary());
            assert(candidate_ok(a, s, cands[i]));
            match cands[i].intent {
                IntentKey::Composed { crtc, generation } => {
                    assert(cands[i].crtcs@.contains(crtc));
                }
                _ => {}
            }
        }
        if owed_set(a, s).contains(x) {
            if composed_candidate(a, s, x) && !a.last_primary().contains(x) {
                let i = choose|i: int| 0 <= i < cands.len() && #[trigger] cands[i].intent == (IntentKey::Composed { crtc: x, generation: a.composed_map()[x].generation });
                assert(candidate_ok(a, s, cands[i]));
                assert(cands[i].crtcs@.contains(x));
                assert(cands[i].crtcs@.disjoint(a.last_primary()));
            } else {
                let i = choose|i: int| 0 <= i < cands.len() && #[trigger] cands[i].intent == direct_key(a.queued_direct()->0);
                assert(candidate_ok(a, s, cands[i]));
                assert(cands[i].crtcs@.contains(x));
            }
        }
    }
    assert(owed_from(cands, a.last_primary()) =~= owed_set(a, s));
}

proof fn lemma_candidate_listed(a: Admission, s: ReadinessSnapshot, cands: Seq<Candidate>, intent: IntentKey)
    requires
        candidates_exact(a, s, cands),
        is_candidate(a, s, cand_crtcs(a, intent), intent),
    ensures
        exists|i: int| 0 <= i < cands.len() && #[trigger] cands[i].intent == intent,
{
    match intent {
        IntentKey::Composed { crtc, generation } => {
            assert(composed_candidate(a, s, crtc));
        }
        _ => {
            assert(direct_candidate(a, s));
        }
    }
}

impl Admission {
    /// The earliest-queued primary the maintenance at `c` may combine with.
    fn maintenance_partner(&self, snapshot: &ReadinessSnapshot, c: u64, cands: &Vec<Candidate>, owed: &BTreeSet<CrtcId>) -> (r: Option<usize>)
        requires
            self.wf(),
            self.slots().contains_key(c),
            candidates_exact(*self, *snapshot, cands@),
            owed@ == owed_set(*self, *snapshot),
        ensures
            r is None ==> !exists|intent: IntentKey| #[trigger] partner(*self, *snapshot, c, intent),
            r is Some ==> {
                &&& r->0 < cands@.len()
                &&& partner(*self, *snapshot, c, cands@[r->0 as int].intent)
                &&& forall|other: IntentKey| #[trigger] partner(*self, *snapshot, c, other) ==> candidate_ordinal(*self, cands@[r->0 as int].intent)
                    <= candidate_ordinal(*self, other)
            },
    {
        proof {
            lemma_u64_keys_ordered();
            lemma_u32_keys_ordered();
            self.lemma_reveal();
            self.lemma_wf_codes();
        }
        let intent = *self.maintenance_slots.get(&c).unwrap();
        let key = MaintenanceKey::from_code(c);
        let maintenance = IntentKey::Maintenance { key, generation: intent.generation };
        assert(maintenance == maintenance_intent_key(*self, c));
        let mut best: Option<usize> = None;
        let mut i: usize = 0;
        while i < cands.len()
            invariant
                crate::sorted::u32_keys_ordered(),
                candidates_exact(*self, *snapshot, cands@),
                owed@ == owed_set(*self, *snapshot),
                maintenance == maintenance_intent_key(*self, c),
                key == key_of_code(c),
                0 <= i <= cands@.len(),
                best is None ==> forall|k: int| 0 <= k < i ==> !partner(*self, *snapshot, c, #[trigger] cands@[k].intent),
                best is Some ==> {
                    &&& best->0 < i
                    &&& partner(*self, *snapshot, c, cands@[best->0 as int].intent)
                    &&& forall|k: int| 0 <= k < i && partner(*self, *snapshot, c, #[trigger] cands@[k].intent) ==> cands@[best->0 as int].ordinal.0
                        <= cands@[k].ordinal.0
                },
            decreases cands@.len() - i,
        {
            let cand = &cands[i];
            assert(candidate_ok(*self, *snapshot, cands@[i as int]));
            let fits = cand.crtcs.contains(&key.crtc) && self.candidate_allowed(cand, owed) && snapshot.is_compatible(maintenance, cand.intent);
            assert(fits == partner(*self, *snapshot, c, cands@[i as int].intent));
            if fits {
                best = match best {
                    Some(b) => if cand.ordinal.0 < cands[b].ordinal.0 {
                        Some(i)
                    } else {
                        Some(b)
                    },
                    None => Some(i),
                };
            }
            i = i + 1;
        }
        proof {
            assert forall|other: IntentKey| #[trigger] partner(*self, *snapshot, c, other) implies (best is Some && candidate_ordinal(*self, cands@[best->0 as int].intent)
                <= candidate_ordinal(*self, other)) by {
                lemma_candidate_listed(*self, *snapshot, cands@, other);
                let k = choose|k: int| 0 <= k < cands@.len() && #[trigger] cands@[k].intent == other;
                assert(candidate_ok(*self, *snapshot, cands@[k]));
                assert(partner(*self, *snapshot, c, cands@[k].intent));
                if best is Some {
                    assert(candidate_ok(*self, *snapshot, cands@[best->0 as int]));
                }
            }
        }
        best
    }

    fn maintenance_decision(
        &self,
        snapshot: &ReadinessSnapshot,
        tier: Tier,
        c: u64,
        cands: &Vec<Candidate>,
        owed: &BTreeSet<CrtcId>,
    ) -> (r: AdmissionDecision)
        requires
            self.wf(),
            self.slots().contains_key(c),
            candidates_exact(*self, *snapshot, cands@),
            owed@ == owed_set(*self, *snapshot),
        ensures
            maintenance_decision_for(*self, *snapshot, r, tier, c),
    {
        proof {
            lemma_u64_keys_ordered();
            self.lemma_reveal();
            self.lemma_wf_codes();
        }
        let intent = *self.maintenance_slots.get(&c).unwrap();
        let key = MaintenanceKey::from_code(c);
        let admitted = Admitted::Maintenance { key, generation: intent.generation };
        match self.maintenance_partner(snapshot, c, cands, owed) {
            Some(i) => {
                let combined = self.admitted_for(snapshot, &cands[i]);
                let mut idx: Vec<usize> = Vec::new();
                idx.push(i);
                let carried = self.carried_for(snapshot, cands, &idx);
                let ghost chosen = cands@[i as int].intent;
                proof {
                    assert(candidate_ok(*self, *snapshot, cands@[i as int]));
                    assert((|m: u64| rides_with_some(*self, *snapshot, m, cands@, idx@)) =~= (|m: u64| rides_with(*self, *snapshot, m, cand_crtcs(*self, chosen), chosen))) by {
                        assert forall|m: u64| rides_with_some(*self, *snapshot, m, cands@, idx@) == rides_with(*self, *snapshot, m, cand_crtcs(*self, chosen), chosen) by {
                            if rides_with(*self, *snapshot, m, cand_crtcs(*self, chosen), chosen) {
                                assert(idx@[0] == i);
                                assert(rides_with(*self, *snapshot, m, cands@[idx@[0] as int].crtcs@, cands@[idx@[0] as int].intent));
                            }
                        }
                    }
                }
                let mut d = self.decision(snapshot, tier, admitted, carried);
                d.combined_primary = Some(combined);
                proof {
                    assert(ages_exactly(*self, *snapshot, d));
                    assert(partner(*self, *snapshot, c, chosen));
                }
                d
            },
            None => {
                let mut carried: Vec<CarriedMaintenance> = Vec::new();
                carried.push(CarriedMaintenance { key, generation: intent.generation, ticket: intent.ticket });
                assert(carried@ =~= seq![carried_item(*self, c)]);
                self.decision(snapshot, tier, admitted, carried)
            },
        }
    }

    /// The first ready maintenance of the given age (and, where asked, with a
    /// primary to ride with), by ticket then key.
    fn first_maintenance(
        &self,
        snapshot: &ReadinessSnapshot,
        aged: bool,
        with_partner: bool,
        cands: &Vec<Candidate>,
        owed: &BTreeSet<CrtcId>,
    ) -> (r: Option<u64>)
        requires
            self.wf(),
            candidates_exact(*self, *snapshot, cands@),
            owed@ == owed_set(*self, *snapshot),
        ensures
            r is None ==> forall|c: u64| !#[trigger] maintenance_pick(*self, *snapshot, c, aged, with_partner),
            r is Some ==> first_pick(*self, *snapshot, r->0, aged, with_partner),
    {
        proof {
            lemma_u64_keys_ordered();
            self.lemma_reveal();
            self.lemma_wf_codes();
        }
        let codes = map_keys_u64(&self.maintenance_slots);
        let mut best: Option<u64> = None;
        let mut i: usize = 0;
        while i < codes.len()
            invariant
                crate::sorted::u64_keys_ordered(),
                self.wf(),
                candidates_exact(*self, *snapshot, cands@),
                owed@ == owed_set(*self, *snapshot),
                self.slots() == self.maintenance_slots@,
                forall|c: u64| #[trigger] self.slots().contains_key(c) ==> is_key_code(c),
                codes@.to_set() == self.slots().dom(),
                0 <= i <= codes@.len(),
                best is None ==> forall|k: int| 0 <= k < i ==> !maintenance_pick(*self, *snapshot, #[trigger] codes@[k], aged, with_partner),
                best is Some ==> {
                    &&& maintenance_pick(*self, *snapshot, best->0, aged, with_partner)
                    &&& forall|k: int| 0 <= k < i && maintenance_pick(*self, *snapshot, #[trigger] codes@[k], aged, with_partner) ==> maintenance_before(*self, best->0, codes@[k])
                },
            decreases codes@.len() - i,
        {
            let c = codes[i];
            assert(codes@.to_set().contains(c));
            let intent = *self.maintenance_slots.get(&c).unwrap();
            let key = MaintenanceKey::from_code(c);
            let mut picked = intent.aged == aged && snapshot.is_ready(IntentKey::Maintenance { key, generation: intent.generation });
            if picked && with_partner {
                picked = self.maintenance_partner(snapshot, c, cands, owed).is_some();
            }
            assert(picked == maintenance_pick(*self, *snapshot, c, aged, with_partner));
            if picked {
                best = match best {
                    Some(b) => {
                        let current = *self.maintenance_slots.get(&b).unwrap();
                        if intent.ticket.0 < current.ticket.0 || (intent.ticket.0 == current.ticket.0 && c < b) {
                            Some(c)
                        } else {
                            Some(b)
                        }
                    },
                    None => Some(c),
                };
            }
            i = i + 1;
        }
        proof {
            assert forall|d: u64| #[trigger] maintenance_pick(*self, *snapshot, d, aged, with_partner) implies best is Some && maintenance_before(*self, best->0, d) by {
                assert(codes@.to_set().contains(d));
                let k = choose|k: int| 0 <= k < codes@.len() && codes@[k] == d;
                assert(maintenance_pick(*self, *snapshot, codes@[k], aged, with_partner));
            }
        }
        best
    }
}


/// A cursor recovery queued on the CRTC and reported ready.
pub open spec fn cursor_ready(a: Admission, s: ReadinessSnapshot, crtc: CrtcId) -> bool {
    a.cursor_set().contains(crtc) && ready(s, IntentKey::CursorRecovery { crtc })
}

/// Every ready aged maintenance may ride with the queued successor.
pub open spec fn absorbs_ready_aged(a: Admission, s: ReadinessSnapshot) -> bool {
    forall|c: u64|
        #![trigger a.slots().contains_key(c)]
        a.slots().contains_key(c) && a.slots()[c].aged && maintenance_ready(a, s, c) ==> direct_crtcs(a).contains(key_of_code(c).crtc)
            && s.spec_compatible(maintenance_intent_key(a, c), direct_key(a.queued_direct()->0))
}

/// A retirement wake lets the queued successor go before other primaries,
/// when round robin allows it and it covers every owed CRTC.
pub open spec fn direct_goes_first(a: Admission, s: ReadinessSnapshot) -> bool {
    &&& s.wake()
    &&& direct_candidate(a, s)
    &&& allows(a, s, direct_crtcs(a))
    &&& owed_set(a, s).subset_of(direct_crtcs(a))
}

/// CRTCs whose composed candidates belong to the homogeneous group.
pub open spec fn bundle_crtcs(a: Admission, s: ReadinessSnapshot) -> Set<CrtcId> {
    Set::new(|x: CrtcId| composed_candidate(a, s, x) && s.group().contains(x))
}

/// Two or more group members can flip together.
pub open spec fn bundle_ready(a: Admission, s: ReadinessSnapshot) -> bool {
    &&& a.barrier() is None
    &&& a.cursor_set().is_empty()
    &&& bundle_crtcs(a, s).len() >= 2
    &&& (bundle_crtcs(a, s).disjoint(a.last_primary()) || owed_set(a, s).is_empty())
}

pub open spec fn composed_admitted(a: Admission, crtc: CrtcId) -> Admitted {
    Admitted::Composed { crtc, generation: a.composed_map()[crtc].generation }
}

pub open spec fn composed_key(a: Admission, crtc: CrtcId) -> IntentKey {
    IntentKey::Composed { crtc, generation: a.composed_map()[crtc].generation }
}

/// A bundle of every group member in CRTC order, carrying what may ride
/// with any of them.
pub open spec fn bundle_decision(a: Admission, s: ReadinessSnapshot, d: AdmissionDecision) -> bool {
    &&& d.tier == Tier::Bundle
    &&& d.admitted is Bundle
    &&& d.admitted->Bundle_members@.len() == bundle_crtcs(a, s).len()
    &&& forall|i: int| 0 <= i < d.admitted->Bundle_members@.len() ==> exists|crtc: CrtcId| bundle_crtcs(a, s).contains(crtc)
        && #[trigger] d.admitted->Bundle_members@[i] == composed_admitted(a, crtc)
    &&& forall|crtc: CrtcId| #[trigger] bundle_crtcs(a, s).contains(crtc) ==> exists|i: int| 0 <= i < d.admitted->Bundle_members@.len()
        && #[trigger] d.admitted->Bundle_members@[i] == composed_admitted(a, crtc)
    &&& forall|i: int, j: int| 0 <= i < j < d.admitted->Bundle_members@.len() ==> (#[trigger] d.admitted->Bundle_members@[i])->Composed_crtc
        < (#[trigger] d.admitted->Bundle_members@[j])->Composed_crtc
    &&& d.combined_primary is None
    &&& carries_exactly(a, d.carried@, |m: u64| exists|crtc: CrtcId| #[trigger] bundle_crtcs(a, s).contains(crtc) && rides_with(a, s, m, set![crtc], composed_key(a, crtc)))
    &&& ages_exactly(a, s, d)
}

/// An allowed candidate queued before every other allowed candidate.
pub open spec fn first_allowed(a: Admission, s: ReadinessSnapshot, intent: IntentKey) -> bool {
    &&& is_candidate(a, s, cand_crtcs(a, intent), intent)
    &&& allows(a, s, cand_crtcs(a, intent))
    &&& forall|other: IntentKey| #[trigger] is_candidate(a, s, cand_crtcs(a, other), other) && allows(a, s, cand_crtcs(a, other)) ==> candidate_ordinal(a, intent)
        <= candidate_ordinal(a, other)
}

/// What `decide` returns: the first tier with ready work wins.
pub open spec fn decided(a: Admission, s: ReadinessSnapshot, r: Option<AdmissionDecision>) -> bool {
    if a.queued_topology() is Some {
        r is Some && plain_decision(a, s, r->0, Tier::Topology) && r->0.admitted == (Admitted::Topology { tag: a.queued_topology()->0 })
    } else if a.barrier() is Some && ready(s, IntentKey::Unflip) {
        r is Some && plain_decision(a, s, r->0, Tier::Unflip) && r->0.admitted is Unflip && r->0.admitted->Unflip_crtcs@ == a.barrier()->0
    } else if exists|crtc: CrtcId| #[trigger] cursor_ready(a, s, crtc) {
        &&& r is Some
        &&& plain_decision(a, s, r->0, Tier::Unflip)
        &&& r->0.admitted is CursorRecovery
        &&& cursor_ready(a, s, r->0.admitted->CursorRecovery_crtc)
        &&& forall|x: CrtcId| #[trigger] cursor_ready(a, s, x) ==> r->0.admitted->CursorRecovery_crtc <= x
    } else if direct_goes_first(a, s) && absorbs_ready_aged(a, s) {
        r is Some && primary_decision_for(a, s, r->0, Tier::DirectSuccessor, direct_key(a.queued_direct()->0))
    } else if exists|c: u64| #[trigger] maintenance_pick(a, s, c, true, false) {
        r is Some && exists|c: u64| #[trigger] first_pick(a, s, c, true, false) && maintenance_decision_for(a, s, r->0, Tier::AgedMaintenance, c)
    } else if bundle_ready(a, s) {
        r is Some && bundle_decision(a, s, r->0)
    } else if direct_goes_first(a, s) {
        r is Some && primary_decision_for(a, s, r->0, Tier::Primary, direct_key(a.queued_direct()->0))
    } else if exists|intent: IntentKey| #[trigger] is_candidate(a, s, cand_crtcs(a, intent), intent) && allows(a, s, cand_crtcs(a, intent)) {
        r is Some && exists|intent: IntentKey| #[trigger] first_allowed(a, s, intent) && primary_decision_for(a, s, r->0, Tier::Primary, intent)
    } else if exists|c: u64| #[trigger] maintenance_pick(a, s, c, false, true) {
        r is Some && exists|c: u64| #[trigger] first_pick(a, s, c, false, true) && maintenance_decision_for(a, s, r->0, Tier::Maintenance, c)
    } else if exists|c: u64| #[trigger] maintenance_pick(a, s, c, false, false) {
        r is Some && exists|c: u64| #[trigger] first_pick(a, s, c, false, false) && maintenance_decision_for(a, s, r->0, Tier::Maintenance, c)
    } else {
        r is None
    }
}


/// The primary work `adm` lands on avoids every CRTC under the unflip
/// barrier and every CRTC with a queued cursor recovery.
pub open spec fn lands_clear(a: Admission, adm: Admitted) -> bool {
    match adm {
        Admitted::Composed { crtc, .. } => !a.cursor_set().contains(crtc) && !(a.barrier() is Some && a.barrier()->0.contains(crtc)),
        Admitted::Direct { successor } => forall|x: CrtcId|
            #[trigger] successor.crtcs@.contains(x) ==> !a.cursor_set().contains(x) && !(a.barrier() is Some && a.barrier()->0.contains(x)),
        Admitted::Bundle { members } => forall|i: int|
            0 <= i < members@.len() && (#[trigger] members@[i]) is Composed ==> !a.cursor_set().contains(members@[i]->Composed_crtc)
                && !(a.barrier() is Some && a.barrier()->0.contains(members@[i]->Composed_crtc)),
        _ => true,
    }
}

/// A candidate's admitted form lands clear of held CRTCs.
proof fn lemma_candidate_lands_clear(a: Admission, s: ReadinessSnapshot, intent: IntentKey, adm: Admitted)
    requires
        is_candidate(a, s, cand_crtcs(a, intent), intent),
        admits_candidate(a, adm, intent),
    ensures
        lands_clear(a, adm),
{
    match intent {
        IntentKey::Composed { crtc, generation } => {},
        _ => {
            let q = a.queued_direct()->0;
            assert forall|x: CrtcId| #[trigger] adm->Direct_successor.crtcs@.contains(x) implies !a.cursor_set().contains(x) && !(
            a.barrier() is Some && a.barrier()->0.contains(x)) by {
                assert(q.successor.crtcs@.contains(x));
                assert(!blocked(a, x));
            }
        },
    }
}

/// Law: no decision admits primary work on a CRTC held back for the unflip
/// barrier or for a queued cursor recovery, neither as what it admits nor
/// as the primary a maintenance admission combines with.
pub proof fn lemma_primary_work_avoids_held_crtcs(a: Admission, s: ReadinessSnapshot, r: Option<AdmissionDecision>)
    requires
        decided(a, s, r),
    ensures
        r matches Some(d) ==> lands_clear(a, d.admitted) && (d.combined_primary matches Some(p) ==> lands_clear(a, p)),
{
    if a.queued_topology() is Some {
    } else if a.barrier() is Some && ready(s, IntentKey::Unflip) {
    } else if exists|crtc: CrtcId| #[trigger] cursor_ready(a, s, crtc) {
    } else if direct_goes_first(a, s) && absorbs_ready_aged(a, s) {
        lemma_candidate_lands_clear(a, s, direct_key(a.queued_direct()->0), r->0.admitted);
    } else if exists|c: u64| #[trigger] maintenance_pick(a, s, c, true, false) {
        let c = choose|c: u64| #[trigger] first_pick(a, s, c, true, false) && maintenance_decision_for(a, s, r->0, Tier::AgedMaintenance, c);
        lemma_maintenance_partner_lands_clear(a, s, r->0, Tier::AgedMaintenance, c);
    } else if bundle_ready(a, s) {
    } else if direct_goes_first(a, s) {
        lemma_candidate_lands_clear(a, s, direct_key(a.queued_direct()->0), r->0.admitted);
    } else if exists|intent: IntentKey| #[trigger] is_candidate(a, s, cand_crtcs(a, intent), intent) && allows(a, s, cand_crtcs(a, intent)) {
        let intent = choose|intent: IntentKey| #[trigger] first_allowed(a, s, intent) && primary_decision_for(a, s, r->0, Tier::Primary, intent);
        lemma_candidate_lands_clear(a, s, intent, r->0.admitted);
    } else if exists|c: u64| #[trigger] maintenance_pick(a, s, c, false, true) {
        let c = choose|c: u64| #[trigger] first_pick(a, s, c, false, true) && maintenance_decision_for(a, s, r->0, Tier::Maintenance, c);
        lemma_maintenance_partner_lands_clear(a, s, r->0, Tier::Maintenance, c);
    } else if exists|c: u64| #[trigger] maintenance_pick(a, s, c, false, false) {
        let c = choose|c: u64| #[trigger] first_pick(a, s, c, false, false) && maintenance_decision_for(a, s, r->0, Tier::Maintenance, c);
        lemma_maintenance_partner_lands_clear(a, s, r->0, Tier::Maintenance, c);
    }
}

/// The primary a maintenance admission combines with lands clear.
proof fn lemma_maintenance_partner_lands_clear(a: Admission, s: ReadinessSnapshot, d: AdmissionDecision, tier: Tier, c: u64)
    requires
        maintenance_decision_for(a, s, d, tier, c),
    ensures
        lands_clear(a, d.admitted) && (d.combined_primary matches Some(p) ==> lands_clear(a, p)),
{
    if exists|intent: IntentKey| #[trigger] partner(a, s, c, intent) {
        let intent = choose|intent: IntentKey|
            {
                &&& #[trigger] partner(a, s, c, intent)
                &&& forall|other: IntentKey| #[trigger] partner(a, s, c, other) ==> candidate_ordinal(a, intent) <= candidate_ordinal(a, other)
                &&& d.combined_primary is Some
                &&& admits_candidate(a, d.combined_primary->0, intent)
                &&& carries_exactly(a, d.carried@, |m: u64| rides_with(a, s, m, cand_crtcs(a, intent), intent))
            };
        lemma_candidate_lands_clear(a, s, intent, d.combined_primary->0);
    }
}

impl Admission {
    /// The smallest CRTC with a ready cursor recovery.
    fn first_ready_cursor(&self, snapshot: &ReadinessSnapshot) -> (r: Option<CrtcId>)
        ensures
            r is None ==> forall|x: CrtcId| !#[trigger] cursor_ready(*self, *snapshot, x),
            r is Some ==> cursor_ready(*self, *snapshot, r->0) && forall|x: CrtcId| #[trigger] cursor_ready(*self, *snapshot, x) ==> r->0 <= x,
    {
        let members = set_members_u32(self.cursor_recovery());
        let mut best: Option<CrtcId> = None;
        let mut i: usize = 0;
        while i < members.len()
            invariant
                members@.to_set() == self.cursor_set(),
                0 <= i <= members@.len(),
                best is None ==> forall|k: int| 0 <= k < i ==> !cursor_ready(*self, *snapshot, #[trigger] members@[k]),
                best is Some ==> cursor_ready(*self, *snapshot, best->0) && forall|k: int| 0 <= k < i && cursor_ready(*self, *snapshot, #[trigger] members@[k]) ==> best->0 <= members@[k],
            decreases members@.len() - i,
        {
            let crtc = members[i];
            assert(members@.to_set().contains(crtc));
            if snapshot.is_ready(IntentKey::CursorRecovery { crtc }) {
                best = match best {
                    Some(b) => if crtc < b {
                        Some(crtc)
                    } else {
                        Some(b)
                    },
                    None => Some(crtc),
                };
            }
            i = i + 1;
        }
        proof {
            assert forall|x: CrtcId| #[trigger] cursor_ready(*self, *snapshot, x) implies best is Some && best->0 <= x by {
                assert(members@.to_set().contains(x));
                let k = choose|k: int| 0 <= k < members@.len() && members@[k] == x;
                assert(cursor_ready(*self, *snapshot, members@[k]));
            }
        }
        best
    }

    /// The position of the direct candidate, if it is one.
    fn find_direct(&self, snapshot: &ReadinessSnapshot, cands: &Vec<Candidate>) -> (r: Option<usize>)
        requires
            candidates_exact(*self, *snapshot, cands@),
        ensures
            r is None <==> !direct_candidate(*self, *snapshot),
            r is Some ==> r->0 < cands@.len() && cands@[r->0 as int].intent == direct_key(self.queued_direct()->0),
    {
        let mut i: usize = 0;
        while i < cands.len()
            invariant
                candidates_exact(*self, *snapshot, cands@),
                0 <= i <= cands@.len(),
                forall|k: int| 0 <= k < i ==> (#[trigger] cands@[k]).intent !is Direct,
            decreases cands@.len() - i,
        {
            if let IntentKey::Direct { .. } = cands[i].intent {
                assert(candidate_ok(*self, *snapshot, cands@[i as int]));
                return Some(i);
            }
            i = i + 1;
        }
        proof {
            if direct_candidate(*self, *snapshot) {
                let k = choose|k: int| 0 <= k < cands@.len() && #[trigger] cands@[k].intent == direct_key(self.queued_direct()->0);
            }
        }
        None
    }

    fn covers(&self, owed: &BTreeSet<CrtcId>, crtcs: &BTreeSet<CrtcId>) -> (r: bool)
        ensures
            r == owed@.subset_of(crtcs@),
    {
        proof {
            lemma_u32_keys_ordered();
        }
        let members = set_members_u32(owed);
        let mut i: usize = 0;
        while i < members.len()
            invariant
                crate::sorted::u32_keys_ordered(),
                members@.to_set() == owed@,
                0 <= i <= members@.len(),
                forall|k: int| 0 <= k < i ==> crtcs@.contains(#[trigger] members@[k]),
            decreases members@.len() - i,
        {
            if !crtcs.contains(&members[i]) {
                assert(members@.to_set().contains(members@[i as int]));
                return false;
            }
            i = i + 1;
        }
        proof {
            assert forall|x: CrtcId| owed@.contains(x) implies crtcs@.contains(x) by {
                assert(members@.to_set().contains(x));
                let k = choose|k: int| 0 <= k < members@.len() && members@[k] == x;
            }
        }
        true
    }

    fn direct_absorbs_all_ready_aged(&self, snapshot: &ReadinessSnapshot, cand: &Candidate) -> (r: bool)
        requires
            self.wf(),
            direct_candidate(*self, *snapshot),
            cand.intent == direct_key(self.queued_direct()->0),
            cand.crtcs@ == direct_crtcs(*self),
        ensures
            r == absorbs_ready_aged(*self, *snapshot),
    {
        proof {
            lemma_u64_keys_ordered();
            lemma_u32_keys_ordered();
            self.lemma_reveal();
            self.lemma_wf_codes();
        }
        let codes = map_keys_u64(&self.maintenance_slots);
        let mut i: usize = 0;
        while i < codes.len()
            invariant
                crate::sorted::u64_keys_ordered(),
                crate::sorted::u32_keys_ordered(),
                self.slots() == self.maintenance_slots@,
                forall|c: u64| #[trigger] self.slots().contains_key(c) ==> is_key_code(c),
                codes@.to_set() == self.slots().dom(),
                0 <= i <= codes@.len(),
                cand.intent == direct_key(self.queued_direct()->0),
                cand.crtcs@ == direct_crtcs(*self),
                forall|k: int| 0 <= k < i ==> {
                    let c = #[trigger] codes@[k];
                    self.slots()[c].aged && maintenance_ready(*self, *snapshot, c) ==> direct_crtcs(*self).contains(key_of_code(c).crtc)
                        && snapshot.spec_compatible(maintenance_intent_key(*self, c), direct_key(self.queued_direct()->0))
                },
            decreases codes@.len() - i,
        {
            let c = codes[i];
            assert(codes@.to_set().contains(c));
            let intent = *self.maintenance_slots.get(&c).unwrap();
            let key = MaintenanceKey::from_code(c);
            let maintenance = IntentKey::Maintenance { key, generation: intent.generation };
            if intent.aged && snapshot.is_ready(maintenance) {
                if !(cand.crtcs.contains(&key.crtc) && snapshot.is_compatible(maintenance, cand.intent)) {
                    return false;
                }
            }
            i = i + 1;
        }
        proof {
            assert forall|c: u64| #![trigger self.slots().contains_key(c)] self.slots().contains_key(c) && self.slots()[c].aged && maintenance_ready(*self, *snapshot, c) implies direct_crtcs(*self).contains(key_of_code(c).crtc)
                && snapshot.spec_compatible(maintenance_intent_key(*self, c), direct_key(self.queued_direct()->0)) by {
                assert(codes@.to_set().contains(c));
                let k = choose|k: int| 0 <= k < codes@.len() && codes@[k] == c;
            }
        }
        true
    }

    fn primary_decision(&self, snapshot: &ReadinessSnapshot, tier: Tier, cands: &Vec<Candidate>, i: usize) -> (r: AdmissionDecision)
        requires
            self.wf(),
            i < cands@.len(),
            candidate_ok(*self, *snapshot, cands@[i as int]),
        ensures
            primary_decision_for(*self, *snapshot, r, tier, cands@[i as int].intent),
    {
        let admitted = self.admitted_for(snapshot, &cands[i]);
        let mut idx: Vec<usize> = Vec::new();
        idx.push(i);
        let carried = self.carried_for(snapshot, cands, &idx);
        let ghost chosen = cands@[i as int].intent;
        proof {
            assert((|m: u64| rides_with_some(*self, *snapshot, m, cands@, idx@)) =~= (|m: u64| rides_with(*self, *snapshot, m, cand_crtcs(*self, chosen), chosen))) by {
                assert forall|m: u64| rides_with_some(*self, *snapshot, m, cands@, idx@) == rides_with(*self, *snapshot, m, cand_crtcs(*self, chosen), chosen) by {
                    if rides_with(*self, *snapshot, m, cand_crtcs(*self, chosen), chosen) {
                        assert(idx@[0] == i);
                        assert(rides_with(*self, *snapshot, m, cands@[idx@[0] as int].crtcs@, cands@[idx@[0] as int].intent));
                    }
                }
            }
        }
        self.decision(snapshot, tier, admitted, carried)
    }

    /// The allowed candidate queued first.
    fn first_allowed_candidate(&self, snapshot: &ReadinessSnapshot, cands: &Vec<Candidate>, owed: &BTreeSet<CrtcId>) -> (r: Option<usize>)
        requires
            candidates_exact(*self, *snapshot, cands@),
            owed@ == owed_set(*self, *snapshot),
        ensures
            r is None ==> !exists|intent: IntentKey| #[trigger] is_candidate(*self, *snapshot, cand_crtcs(*self, intent), intent) && allows(*self, *snapshot, cand_crtcs(*self, intent)),
            r is Some ==> r->0 < cands@.len() && first_allowed(*self, *snapshot, cands@[r->0 as int].intent),
    {
        let mut best: Option<usize> = None;
        let mut i: usize = 0;
        while i < cands.len()
            invariant
                candidates_exact(*self, *snapshot, cands@),
                owed@ == owed_set(*self, *snapshot),
                0 <= i <= cands@.len(),
                best is None ==> forall|k: int| 0 <= k < i ==> !allows(*self, *snapshot, (#[trigger] cands@[k]).crtcs@),
                best is Some ==> {
                    &&& best->0 < i
                    &&& allows(*self, *snapshot, cands@[best->0 as int].crtcs@)
                    &&& forall|k: int| 0 <= k < i && allows(*self, *snapshot, (#[trigger] cands@[k]).crtcs@) ==> cands@[best->0 as int].ordinal.0 <= cands@[k].ordinal.0
                },
            decreases cands@.len() - i,
        {
            if self.candidate_allowed(&cands[i], owed) {
                best = match best {
                    Some(b) => if cands[i].ordinal.0 < cands[b].ordinal.0 {
                        Some(i)
                    } else {
                        Some(b)
                    },
                    None => Some(i),
                };
            }
            i = i + 1;
        }
        proof {
            assert forall|other: IntentKey| #[trigger] is_candidate(*self, *snapshot, cand_crtcs(*self, other), other) && allows(*self, *snapshot, cand_crtcs(*self, other))
                implies best is Some && candidate_ordinal(*self, cands@[best->0 as int].intent) <= candidate_ordinal(*self, other) by {
                lemma_candidate_listed(*self, *snapshot, cands@, other);
                let k = choose|k: int| 0 <= k < cands@.len() && #[trigger] cands@[k].intent == other;
                assert(candidate_ok(*self, *snapshot, cands@[k]));
                if best is Some {
                    assert(candidate_ok(*self, *snapshot, cands@[best->0 as int]));
                }
            }
            if best is Some {
                assert(candidate_ok(*self, *snapshot, cands@[best->0 as int]));
            }
        }
        best
    }
}


spec fn member_crtc(cands: Seq<Candidate>, idx: Seq<usize>, j: int) -> CrtcId {
    cands[idx[j] as int].intent->Composed_crtc
}

/// The chosen candidates are the group members, once each.
spec fn bundle_indices(a: Admission, s: ReadinessSnapshot, cands: Seq<Candidate>, idx: Seq<usize>) -> bool {
    &&& forall|j: int| 0 <= j < idx.len() ==> #[trigger] idx[j] < cands.len()
    &&& forall|j: int| 0 <= j < idx.len() ==> (#[trigger] cands[idx[j] as int]).intent is Composed
        && bundle_crtcs(a, s).contains(cands[idx[j] as int].intent->Composed_crtc)
    &&& forall|crtc: CrtcId| #[trigger] bundle_crtcs(a, s).contains(crtc) ==> exists|j: int| 0 <= j < idx.len() && member_crtc(cands, idx, j) == crtc
    &&& forall|j1: int, j2: int| 0 <= j1 < idx.len() && 0 <= j2 < idx.len() && j1 != j2 ==> member_crtc(cands, idx, j1) != member_crtc(cands, idx, j2)
    &&& forall|j1: int, j2: int| 0 <= j1 < j2 < idx.len() ==> member_crtc(cands, idx, j1) < member_crtc(cands, idx, j2)
    &&& idx.len() == bundle_crtcs(a, s).len()
}

impl Admission {
    fn bundle_candidate(&self, snapshot: &ReadinessSnapshot, cands: &Vec<Candidate>, owed: &BTreeSet<CrtcId>) -> (r: Option<Vec<usize>>)
        requires
            self.wf(),
            candidates_exact(*self, *snapshot, cands@),
            composed_ordered(cands@),
            owed@ == owed_set(*self, *snapshot),
        ensures
            r is Some <==> bundle_ready(*self, *snapshot),
            r is Some ==> bundle_indices(*self, *snapshot, cands@, r->0@),
    {
        proof {
            lemma_u32_keys_ordered();
            self.lemma_reveal();
        }
        let mut idx: Vec<usize> = Vec::new();
        let mut i: usize = 0;
        while i < cands.len()
            invariant
                candidates_exact(*self, *snapshot, cands@),
                0 <= i <= cands@.len(),
                forall|j: int| 0 <= j < idx@.len() ==> #[trigger] idx@[j] < i,
                forall|j: int| 0 <= j < idx@.len() ==> (#[trigger] cands@[idx@[j] as int]).intent is Composed
                    && bundle_crtcs(*self, *snapshot).contains(cands@[idx@[j] as int].intent->Composed_crtc),
                forall|k: int| 0 <= k < i && (#[trigger] cands@[k]).intent is Composed && snapshot.group().contains(cands@[k].intent->Composed_crtc)
                    ==> exists|j: int| 0 <= j < idx@.len() && idx@[j] == k,
                forall|j1: int, j2: int| 0 <= j1 < idx@.len() && 0 <= j2 < idx@.len() && j1 != j2 ==> idx@[j1] != idx@[j2],
                forall|j1: int, j2: int| 0 <= j1 < j2 < idx@.len() ==> idx@[j1] < idx@[j2],
            decreases cands@.len() - i,
        {
            if let IntentKey::Composed { crtc, .. } = cands[i].intent {
                if snapshot.in_group(crtc) {
                    assert(candidate_ok(*self, *snapshot, cands@[i as int]));
                    let ghost before = idx@;
                    idx.push(i);
                    proof {
                        assert forall|k: int| 0 <= k < i + 1 && (#[trigger] cands@[k]).intent is Composed && snapshot.group().contains(cands@[k].intent->Composed_crtc)
                            implies exists|j: int| 0 <= j < idx@.len() && idx@[j] == k by {
                            if k == i {
                                assert(idx@[before.len() as int] == k);
                            } else {
                                let j = choose|j: int| 0 <= j < before.len() && before[j] == k;
                                assert(idx@[j] == k);
                            }
                        }
                    }
                }
            }
            i = i + 1;
        }
        let ghost cr = Seq::new(idx@.len(), |j: int| member_crtc(cands@, idx@, j));
        proof {
            assert forall|j1: int, j2: int| 0 <= j1 < idx@.len() && 0 <= j2 < idx@.len() && j1 != j2 implies member_crtc(cands@, idx@, j1)
                != member_crtc(cands@, idx@, j2) by {
                assert(candidate_ok(*self, *snapshot, cands@[idx@[j1] as int]));
                assert(candidate_ok(*self, *snapshot, cands@[idx@[j2] as int]));
                assert(cands@[idx@[j1] as int].intent != cands@[idx@[j2] as int].intent);
            }
            assert forall|crtc: CrtcId| #[trigger] bundle_crtcs(*self, *snapshot).contains(crtc) implies exists|j: int| 0 <= j < idx@.len()
                && member_crtc(cands@, idx@, j) == crtc by {
                assert(composed_candidate(*self, *snapshot, crtc));
                assert(snapshot.group().contains(crtc));
                let k = choose|k: int| 0 <= k < cands@.len() && #[trigger] cands@[k].intent == (IntentKey::Composed { crtc, generation: self.composed_map()[crtc].generation });
                assert(cands@[k].intent is Composed && snapshot.group().contains(cands@[k].intent->Composed_crtc));
                let j = choose|j: int| 0 <= j < idx@.len() && idx@[j] == k;
                assert(member_crtc(cands@, idx@, j) == crtc);
            }
            assert forall|j1: int, j2: int| 0 <= j1 < j2 < idx@.len() implies member_crtc(cands@, idx@, j1) < member_crtc(cands@, idx@, j2) by {
                assert(idx@[j1] < idx@[j2]);
                assert(cands@[idx@[j1] as int].intent is Composed && cands@[idx@[j2] as int].intent is Composed);
            }
            assert(cr.no_duplicates());
            assert(cr.to_set() =~= bundle_crtcs(*self, *snapshot)) by {
                assert forall|x: CrtcId| cr.to_set().contains(x) implies bundle_crtcs(*self, *snapshot).contains(x) by {
                    let j = choose|j: int| 0 <= j < cr.len() && cr[j] == x;
                    assert(cands@[idx@[j] as int].intent is Composed);
                }
                assert forall|x: CrtcId| bundle_crtcs(*self, *snapshot).contains(x) implies cr.to_set().contains(x) by {
                    let j = choose|j: int| 0 <= j < idx@.len() && member_crtc(cands@, idx@, j) == x;
                    assert(cr[j] == x);
                }
            }
            cr.unique_seq_to_set();
        }
        if self.unflip().is_some() || !self.cursor_recovery().is_empty() {
            return None;
        }
        if idx.len() < 2 {
            return None;
        }
        let mut disjoint = true;
        let mut j: usize = 0;
        while j < idx.len()
            invariant
                0 <= j <= idx@.len(),
                forall|k: int| 0 <= k < idx@.len() ==> #[trigger] idx@[k] < cands@.len(),
                forall|k: int| 0 <= k < idx@.len() ==> (#[trigger] cands@[idx@[k] as int]).intent is Composed,
                disjoint == forall|k: int| 0 <= k < j ==> !self.last_primary().contains(#[trigger] member_crtc(cands@, idx@, k)),
            decreases idx@.len() - j,
        {
            if let IntentKey::Composed { crtc, .. } = cands[idx[j]].intent {
                proof {
                    self.lemma_reveal();
                    lemma_u32_keys_ordered();
                }
                assert(member_crtc(cands@, idx@, j as int) == crtc);
                if self.last_primary_crtcs.contains(&crtc) {
                    disjoint = false;
                }
            }
            proof {
                assert(disjoint == forall|k: int| 0 <= k < j + 1 ==> !self.last_primary().contains(#[trigger] member_crtc(cands@, idx@, k))) by {
                    if !disjoint {
                        if exists|k: int| 0 <= k < j && self.last_primary().contains(#[trigger] member_crtc(cands@, idx@, k)) {
                            let k = choose|k: int| 0 <= k < j && self.last_primary().contains(#[trigger] member_crtc(cands@, idx@, k));
                        } else {
                            assert(self.last_primary().contains(member_crtc(cands@, idx@, j as int)));
                        }
                    }
                }
            }
            j = j + 1;
        }
        proof {
            assert(disjoint == bundle_crtcs(*self, *snapshot).disjoint(self.last_primary())) by {
                if disjoint {
                    assert forall|x: CrtcId| bundle_crtcs(*self, *snapshot).contains(x) implies !self.last_primary().contains(x) by {
                        let k = choose|k: int| 0 <= k < idx@.len() && member_crtc(cands@, idx@, k) == x;
                    }
                } else {
                    let k = choose|k: int| 0 <= k < idx@.len() && self.last_primary().contains(#[trigger] member_crtc(cands@, idx@, k));
                    assert(bundle_crtcs(*self, *snapshot).contains(member_crtc(cands@, idx@, k)));
                }
            }
        }
        if disjoint || owed.is_empty() {
            Some(idx)
        } else {
            None
        }
    }

    fn bundle_decision(&self, snapshot: &ReadinessSnapshot, cands: &Vec<Candidate>, idx: &Vec<usize>) -> (r: AdmissionDecision)
        requires
            self.wf(),
            candidates_exact(*self, *snapshot, cands@),
            bundle_indices(*self, *snapshot, cands@, idx@),
        ensures
            bundle_decision(*self, *snapshot, r),
    {
        assert(forall|j: int| 0 <= j < idx@.len() ==> #[trigger] idx@[j] < cands@.len());
        let mut members: Vec<Admitted> = Vec::new();
        let mut j: usize = 0;
        while j < idx.len()
            invariant
                candidates_exact(*self, *snapshot, cands@),
                bundle_indices(*self, *snapshot, cands@, idx@),
                0 <= j <= idx@.len(),
                members@.len() == j,
                forall|k: int| 0 <= k < j ==> #[trigger] members@[k] == composed_admitted(*self, member_crtc(cands@, idx@, k)),
            decreases idx@.len() - j,
        {
            let i = idx[j];
            assert(candidate_ok(*self, *snapshot, cands@[i as int]));
            if let IntentKey::Composed { crtc, generation } = cands[i].intent {
                members.push(Admitted::Composed { crtc, generation });
            }
            j = j + 1;
        }
        let carried = self.carried_for(snapshot, cands, idx);
        let ghost bundle = bundle_crtcs(*self, *snapshot);
        proof {
            assert((|m: u64| rides_with_some(*self, *snapshot, m, cands@, idx@)) =~= (|m: u64| exists|crtc: CrtcId| #[trigger] bundle.contains(crtc)
                && rides_with(*self, *snapshot, m, set![crtc], composed_key(*self, crtc)))) by {
                assert forall|m: u64| rides_with_some(*self, *snapshot, m, cands@, idx@) == exists|crtc: CrtcId| #[trigger] bundle.contains(crtc)
                    && rides_with(*self, *snapshot, m, set![crtc], composed_key(*self, crtc)) by {
                    if rides_with_some(*self, *snapshot, m, cands@, idx@) {
                        let j = choose|j: int| 0 <= j < idx@.len() && rides_with(*self, *snapshot, m, cands@[idx@[j] as int].crtcs@, #[trigger] cands@[idx@[j] as int].intent);
                        assert(candidate_ok(*self, *snapshot, cands@[idx@[j] as int]));
                        assert(bundle.contains(member_crtc(cands@, idx@, j)));
                    }
                    if exists|crtc: CrtcId| #[trigger] bundle.contains(crtc) && rides_with(*self, *snapshot, m, set![crtc], composed_key(*self, crtc)) {
                        let crtc = choose|crtc: CrtcId| #[trigger] bundle.contains(crtc) && rides_with(*self, *snapshot, m, set![crtc], composed_key(*self, crtc));
                        let j = choose|j: int| 0 <= j < idx@.len() && member_crtc(cands@, idx@, j) == crtc;
                        assert(candidate_ok(*self, *snapshot, cands@[idx@[j] as int]));
                        assert(rides_with(*self, *snapshot, m, cands@[idx@[j] as int].crtcs@, cands@[idx@[j] as int].intent));
                    }
                }
            }
            assert forall|crtc: CrtcId| #[trigger] bundle.contains(crtc) implies exists|i: int| 0 <= i < members@.len() && #[trigger] members@[i] == composed_admitted(*self, crtc) by {
                let j = choose|j: int| 0 <= j < idx@.len() && member_crtc(cands@, idx@, j) == crtc;
                assert(members@[j] == composed_admitted(*self, crtc));
            }
            assert forall|i: int| 0 <= i < members@.len() implies exists|crtc: CrtcId| bundle.contains(crtc) && #[trigger] members@[i] == composed_admitted(*self, crtc) by {
                assert(bundle.contains(member_crtc(cands@, idx@, i)));
            }
        }
        self.decision(snapshot, Tier::Bundle, Admitted::Bundle { members }, carried)
    }
}


impl Admission {
    /// Choose the next admission from the queued intents and the readiness
    /// each reported: topology first, then the unflip barrier and cursor
    /// recovery, then a woken direct successor that absorbs all aged
    /// maintenance, aged maintenance, a homogeneous bundle, primaries in
    /// round-robin ordinal order, and finally fresh maintenance.
    pub fn decide(&self, snapshot: &ReadinessSnapshot) -> (r: Option<AdmissionDecision>)
        requires
            self.wf(),
        ensures
            decided(*self, *snapshot, r),
    {
        if let Some(tag) = self.topology() {
            return Some(self.decision(snapshot, Tier::Topology, Admitted::Topology { tag }, Vec::new()));
        }
        if let Some(unflip) = self.unflip() {
            if snapshot.is_ready(IntentKey::Unflip) {
                return Some(self.decision(snapshot, Tier::Unflip, Admitted::Unflip { crtcs: unflip.crtcs.clone() }, Vec::new()));
            }
        }
        if let Some(crtc) = self.first_ready_cursor(snapshot) {
            return Some(self.decision(snapshot, Tier::Unflip, Admitted::CursorRecovery { crtc }, Vec::new()));
        }
        let cands = self.primary_candidates(snapshot);
        let owed = self.owed_crtcs(&cands);
        proof {
            lemma_owed(*self, *snapshot, cands@);
        }
        let direct_index = self.find_direct(snapshot, &cands);
        let direct_first = match direct_index {
            Some(i) => {
                assert(candidate_ok(*self, *snapshot, cands@[i as int]));
                snapshot.wakes_retirement() && self.candidate_allowed(&cands[i], &owed) && self.covers(&owed, &cands[i].crtcs)
            },
            None => false,
        };
        assert(direct_first == direct_goes_first(*self, *snapshot));
        if direct_first {
            let i = direct_index.unwrap();
            assert(candidate_ok(*self, *snapshot, cands@[i as int]));
            if self.direct_absorbs_all_ready_aged(snapshot, &cands[i]) {
                return Some(self.primary_decision(snapshot, Tier::DirectSuccessor, &cands, i));
            }
        }
        if let Some(c) = self.first_maintenance(snapshot, true, false, &cands, &owed) {
            return Some(self.maintenance_decision(snapshot, Tier::AgedMaintenance, c, &cands, &owed));
        }
        if let Some(idx) = self.bundle_candidate(snapshot, &cands, &owed) {
            return Some(self.bundle_decision(snapshot, &cands, &idx));
        }
        if direct_first {
            let i = direct_index.unwrap();
            assert(candidate_ok(*self, *snapshot, cands@[i as int]));
            return Some(self.primary_decision(snapshot, Tier::Primary, &cands, i));
        }
        if let Some(i) = self.first_allowed_candidate(snapshot, &cands, &owed) {
            assert(candidate_ok(*self, *snapshot, cands@[i as int]));
            return Some(self.primary_decision(snapshot, Tier::Primary, &cands, i));
        }
        if let Some(c) = self.first_maintenance(snapshot, false, true, &cands, &owed) {
            return Some(self.maintenance_decision(snapshot, Tier::Maintenance, c, &cands, &owed));
        }
        if let Some(c) = self.first_maintenance(snapshot, false, false, &cands, &owed) {
            return Some(self.maintenance_decision(snapshot, Tier::Maintenance, c, &cands, &owed));
        }
        None
    }
}

} // verus!
