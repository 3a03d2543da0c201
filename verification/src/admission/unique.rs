//! `decide` is a function of the queued intents and the readiness snapshot:
//! any two decisions it may return for them admit, carry and age the same
//! work in the same order.
use vstd::prelude::*;

use super::decide::{
    admits_candidate, ages_exactly, bundle_crtcs, bundle_decision, cand_crtcs, candidate_ordinal, carried_item, carries_exactly,
    composed_admitted, composed_key, cursor_ready, decided, direct_key, first_allowed, first_pick, is_candidate,
    maintenance_decision_for, maintenance_pick, partner, plain_decision, primary_decision_for, rides_with, AdmissionDecision,
    Admitted, CarriedMaintenance, Tier,
};
use super::intents::{key_code, lemma_key_code_injective, Admission, MaintenanceKey};
use super::snapshot::ReadinessSnapshot;
use super::snapshot::IntentKey;
use super::token::{admitted_same, decision_same, members_same};
use super::CrtcId;
use crate::sorted::{lemma_increasing_same_members, lemma_increasing_same_members_u64, strictly_increasing, strictly_increasing_u64};

verus! {

/// Every admitted value names the same work as itself.
pub proof fn lemma_admitted_same_reflexive(x: Admitted)
    ensures
        admitted_same(x, x),
    decreases x,
{
    match x {
        Admitted::Bundle { members } => {
            lemma_members_same_reflexive(members@);
        },
        _ => {},
    }
}

/// Every member list names the same work as itself.
pub proof fn lemma_members_same_reflexive(xs: Seq<Admitted>)
    ensures
        members_same(xs, xs),
    decreases xs,
{
    if xs.len() > 0 {
        lemma_members_same_reflexive(xs.drop_last());
        lemma_admitted_same_reflexive(xs.last());
    }
}

/// The positions of a carried list, in order.
pub open spec fn carried_codes(x: Seq<CarriedMaintenance>) -> Seq<u64> {
    x.map_values(|m: CarriedMaintenance| key_code(m.key))
}

/// Two lists that carry exactly the positions one predicate picks, in key
/// order, are the same list.
proof fn lemma_carried_unique(a: Admission, x: Seq<CarriedMaintenance>, y: Seq<CarriedMaintenance>, p: spec_fn(u64) -> bool, q: spec_fn(u64) -> bool)
    requires
        carries_exactly(a, x, p),
        carries_exactly(a, y, q),
        forall|m: u64| #[trigger] p(m) == q(m),
    ensures
        x == y,
{
    let cx = carried_codes(x);
    let cy = carried_codes(y);
    assert(strictly_increasing_u64(cx)) by {
        assert forall|i: int, j: int| 0 <= i < j < cx.len() implies cx[i] < cx[j] by {
            assert(key_code(x[i].key) < key_code(x[j].key));
        }
    }
    assert(strictly_increasing_u64(cy)) by {
        assert forall|i: int, j: int| 0 <= i < j < cy.len() implies cy[i] < cy[j] by {
            assert(key_code(y[i].key) < key_code(y[j].key));
        }
    }
    assert forall|v: u64| cx.contains(v) <==> cy.contains(v) by {
        if cx.contains(v) {
            let i = choose|i: int| 0 <= i < cx.len() && cx[i] == v;
            assert(a.slots().contains_key(key_code(x[i].key)) && p(key_code(x[i].key)));
            assert(q(v));
            let j = choose|j: int| 0 <= j < y.len() && key_code(#[trigger] y[j].key) == v;
            assert(cy[j] == v);
        }
        if cy.contains(v) {
            let j = choose|j: int| 0 <= j < cy.len() && cy[j] == v;
            assert(a.slots().contains_key(key_code(y[j].key)) && q(key_code(y[j].key)));
            assert(p(v));
            let i = choose|i: int| 0 <= i < x.len() && key_code(#[trigger] x[i].key) == v;
            assert(cx[i] == v);
        }
    }
    lemma_increasing_same_members_u64(cx, cy);
    assert forall|i: int| 0 <= i < x.len() implies x[i] == y[i] by {
        assert(cx[i] == cy[i]);
        assert(x[i] == carried_item(a, key_code(x[i].key)));
        assert(y[i] == carried_item(a, key_code(y[i].key)));
    }
    assert(x =~= y);
}

/// The positions of an aged list, in order.
pub open spec fn age_codes(x: Seq<MaintenanceKey>) -> Seq<u64> {
    x.map_values(|k: MaintenanceKey| key_code(k))
}

/// Decisions that carry the same work age the same work, in key order.
proof fn lemma_ages_unique(a: Admission, s: ReadinessSnapshot, d1: AdmissionDecision, d2: AdmissionDecision)
    requires
        ages_exactly(a, s, d1),
        ages_exactly(a, s, d2),
        d1.carried@ == d2.carried@,
    ensures
        d1.ages@ == d2.ages@,
{
    let x = d1.ages@;
    let y = d2.ages@;
    let cx = age_codes(x);
    let cy = age_codes(y);
    assert(strictly_increasing_u64(cx)) by {
        assert forall|i: int, j: int| 0 <= i < j < cx.len() implies cx[i] < cx[j] by {
            assert(key_code(x[i]) < key_code(x[j]));
        }
    }
    assert(strictly_increasing_u64(cy)) by {
        assert forall|i: int, j: int| 0 <= i < j < cy.len() implies cy[i] < cy[j] by {
            assert(key_code(y[i]) < key_code(y[j]));
        }
    }
    assert forall|v: u64| cx.contains(v) <==> cy.contains(v) by {
        if cx.contains(v) {
            let i = choose|i: int| 0 <= i < cx.len() && cx[i] == v;
            assert(x.contains(x[i]));
            assert(y.contains(x[i]));
            let j = choose|j: int| 0 <= j < y.len() && y[j] == x[i];
            assert(cy[j] == v);
        }
        if cy.contains(v) {
            let j = choose|j: int| 0 <= j < cy.len() && cy[j] == v;
            assert(y.contains(y[j]));
            assert(x.contains(y[j]));
            let i = choose|i: int| 0 <= i < x.len() && x[i] == y[j];
            assert(cx[i] == v);
        }
    }
    lemma_increasing_same_members_u64(cx, cy);
    assert forall|i: int| 0 <= i < x.len() implies x[i] == y[i] by {
        assert(cx[i] == cy[i]);
        lemma_key_code_injective(x[i], y[i]);
    }
    assert(x =~= y);
}

/// The CRTCs of a list of composed members, in order.
pub open spec fn member_crtcs(xs: Seq<Admitted>) -> Seq<CrtcId> {
    xs.map_values(|m: Admitted| m->Composed_crtc)
}

/// Two member lists that hold the composed work of exactly one set of CRTCs,
/// in CRTC order, are the same list.
proof fn lemma_members_unique(a: Admission, xs: Seq<Admitted>, ys: Seq<Admitted>, crtcs: Set<CrtcId>)
    requires
        forall|i: int| 0 <= i < xs.len() ==> exists|c: CrtcId| crtcs.contains(c) && #[trigger] xs[i] == composed_admitted(a, c),
        forall|c: CrtcId| #[trigger] crtcs.contains(c) ==> exists|i: int| 0 <= i < xs.len() && #[trigger] xs[i] == composed_admitted(a, c),
        forall|i: int, j: int| 0 <= i < j < xs.len() ==> (#[trigger] xs[i])->Composed_crtc < (#[trigger] xs[j])->Composed_crtc,
        forall|i: int| 0 <= i < ys.len() ==> exists|c: CrtcId| crtcs.contains(c) && #[trigger] ys[i] == composed_admitted(a, c),
        forall|c: CrtcId| #[trigger] crtcs.contains(c) ==> exists|i: int| 0 <= i < ys.len() && #[trigger] ys[i] == composed_admitted(a, c),
        forall|i: int, j: int| 0 <= i < j < ys.len() ==> (#[trigger] ys[i])->Composed_crtc < (#[trigger] ys[j])->Composed_crtc,
    ensures
        xs == ys,
{
    let cx = member_crtcs(xs);
    let cy = member_crtcs(ys);
    assert(strictly_increasing(cx)) by {
        assert forall|i: int, j: int| 0 <= i < j < cx.len() implies cx[i] < cx[j] by {
            assert(xs[i]->Composed_crtc < xs[j]->Composed_crtc);
        }
    }
    assert(strictly_increasing(cy)) by {
        assert forall|i: int, j: int| 0 <= i < j < cy.len() implies cy[i] < cy[j] by {
            assert(ys[i]->Composed_crtc < ys[j]->Composed_crtc);
        }
    }
    assert forall|v: CrtcId| cx.contains(v) <==> cy.contains(v) by {
        if cx.contains(v) {
            let i = choose|i: int| 0 <= i < cx.len() && cx[i] == v;
            let c = choose|c: CrtcId| crtcs.contains(c) && #[trigger] xs[i] == composed_admitted(a, c);
            assert(c == v);
            let j = choose|j: int| 0 <= j < ys.len() && #[trigger] ys[j] == composed_admitted(a, c);
            assert(cy[j] == v);
        }
        if cy.contains(v) {
            let j = choose|j: int| 0 <= j < cy.len() && cy[j] == v;
            let c = choose|c: CrtcId| crtcs.contains(c) && #[trigger] ys[j] == composed_admitted(a, c);
            assert(c == v);
            let i = choose|i: int| 0 <= i < xs.len() && #[trigger] xs[i] == composed_admitted(a, c);
            assert(cx[i] == v);
        }
    }
    lemma_increasing_same_members(cx, cy);
    assert forall|i: int| 0 <= i < xs.len() implies xs[i] == ys[i] by {
        assert(cx[i] == cy[i]);
        let c = choose|c: CrtcId| crtcs.contains(c) && #[trigger] xs[i] == composed_admitted(a, c);
        let d = choose|d: CrtcId| crtcs.contains(d) && #[trigger] ys[i] == composed_admitted(a, d);
    }
    assert(xs =~= ys);
}

/// Naming the same work is transitive for admitted values.
pub proof fn lemma_admitted_same_transitive(x: Admitted, y: Admitted, z: Admitted)
    requires
        admitted_same(x, y),
        admitted_same(y, z),
    ensures
        admitted_same(x, z),
    decreases x,
{
    match x {
        Admitted::Bundle { members } => {
            lemma_members_same_transitive(members@, y->Bundle_members@, z->Bundle_members@);
        },
        _ => {},
    }
}

/// Naming the same work is transitive for member lists.
pub proof fn lemma_members_same_transitive(xs: Seq<Admitted>, ys: Seq<Admitted>, zs: Seq<Admitted>)
    requires
        members_same(xs, ys),
        members_same(ys, zs),
    ensures
        members_same(xs, zs),
    decreases xs,
{
    if xs.len() > 0 {
        lemma_members_same_transitive(xs.drop_last(), ys.drop_last(), zs.drop_last());
        lemma_admitted_same_transitive(xs.last(), ys.last(), zs.last());
    }
}

/// Naming the same work is transitive for decisions.
pub proof fn lemma_decision_same_transitive(x: AdmissionDecision, y: AdmissionDecision, z: AdmissionDecision)
    requires
        decision_same(x, y),
        decision_same(y, z),
    ensures
        decision_same(x, z),
{
    lemma_admitted_same_transitive(x.admitted, y.admitted, z.admitted);
    if x.combined_primary is Some {
        lemma_admitted_same_transitive(x.combined_primary->0, y.combined_primary->0, z.combined_primary->0);
    }
}

/// At most one queued maintenance comes first among those picked.
proof fn lemma_first_pick_unique(a: Admission, s: ReadinessSnapshot, c1: u64, c2: u64, aged: bool, with_partner: bool)
    requires
        first_pick(a, s, c1, aged, with_partner),
        first_pick(a, s, c2, aged, with_partner),
    ensures
        c1 == c2,
{
    assert(maintenance_pick(a, s, c2, aged, with_partner));
    assert(maintenance_pick(a, s, c1, aged, with_partner));
}

/// Two candidates queued with the same ordinal are the same candidate.
proof fn lemma_candidates_by_ordinal(a: Admission, s: ReadinessSnapshot, i1: IntentKey, i2: IntentKey)
    requires
        a.wf(),
        is_candidate(a, s, cand_crtcs(a, i1), i1),
        is_candidate(a, s, cand_crtcs(a, i2), i2),
        candidate_ordinal(a, i1) == candidate_ordinal(a, i2),
    ensures
        i1 == i2,
{
    a.lemma_wf_codes();
    match i1 {
        IntentKey::Composed { crtc: c1, .. } => match i2 {
            IntentKey::Composed { crtc: c2, .. } => {
                if c1 != c2 {
                    assert(a.composed_map()[c1].ordinal != a.composed_map()[c2].ordinal);
                }
            },
            _ => {
                assert(a.composed_map()[c1].ordinal != a.queued_direct()->0.ordinal);
            },
        },
        _ => match i2 {
            IntentKey::Composed { crtc: c2, .. } => {
                assert(a.composed_map()[c2].ordinal != a.queued_direct()->0.ordinal);
            },
            _ => {},
        },
    }
}

/// Two admitted forms of one candidate name the same work.
proof fn lemma_admits_same(a: Admission, x: Admitted, y: Admitted, intent: IntentKey)
    requires
        admits_candidate(a, x, intent),
        admits_candidate(a, y, intent),
    ensures
        admitted_same(x, y),
{
    lemma_admitted_same_reflexive(x);
}

/// Two primary decisions for one candidate name the same work.
proof fn lemma_primary_same(a: Admission, s: ReadinessSnapshot, d1: AdmissionDecision, d2: AdmissionDecision, tier: Tier, intent: IntentKey)
    requires
        primary_decision_for(a, s, d1, tier, intent),
        primary_decision_for(a, s, d2, tier, intent),
    ensures
        decision_same(d1, d2),
{
    lemma_admits_same(a, d1.admitted, d2.admitted, intent);
    let p = |m: u64| rides_with(a, s, m, cand_crtcs(a, intent), intent);
    lemma_carried_unique(a, d1.carried@, d2.carried@, p, p);
    lemma_ages_unique(a, s, d1, d2);
}

/// Two maintenance decisions for one queued maintenance name the same work.
proof fn lemma_maintenance_same(a: Admission, s: ReadinessSnapshot, d1: AdmissionDecision, d2: AdmissionDecision, tier: Tier, c: u64)
    requires
        a.wf(),
        maintenance_decision_for(a, s, d1, tier, c),
        maintenance_decision_for(a, s, d2, tier, c),
    ensures
        decision_same(d1, d2),
{
    lemma_admitted_same_reflexive(d1.admitted);
    if exists|intent: IntentKey| #[trigger] partner(a, s, c, intent) {
        let i1 = choose|intent: IntentKey| {
            &&& #[trigger] partner(a, s, c, intent)
            &&& forall|other: IntentKey| #[trigger] partner(a, s, c, other) ==> candidate_ordinal(a, intent) <= candidate_ordinal(a, other)
            &&& d1.combined_primary is Some
            &&& admits_candidate(a, d1.combined_primary->0, intent)
            &&& carries_exactly(a, d1.carried@, |m: u64| rides_with(a, s, m, cand_crtcs(a, intent), intent))
        };
        let i2 = choose|intent: IntentKey| {
            &&& #[trigger] partner(a, s, c, intent)
            &&& forall|other: IntentKey| #[trigger] partner(a, s, c, other) ==> candidate_ordinal(a, intent) <= candidate_ordinal(a, other)
            &&& d2.combined_primary is Some
            &&& admits_candidate(a, d2.combined_primary->0, intent)
            &&& carries_exactly(a, d2.carried@, |m: u64| rides_with(a, s, m, cand_crtcs(a, intent), intent))
        };
        assert(partner(a, s, c, i1) && partner(a, s, c, i2));
        lemma_candidates_by_ordinal(a, s, i1, i2);
        lemma_admits_same(a, d1.combined_primary->0, d2.combined_primary->0, i1);
        let p = |m: u64| rides_with(a, s, m, cand_crtcs(a, i1), i1);
        lemma_carried_unique(a, d1.carried@, d2.carried@, p, p);
    } else {
        assert(d1.carried@ == d2.carried@);
    }
    lemma_ages_unique(a, s, d1, d2);
}

/// Law: `decide` is a function of the queued intents and the snapshot. Any
/// two results it may give for them agree on whether anything is admitted,
/// and then admit, carry, combine and age the same work in the same order.
pub proof fn lemma_decide_is_deterministic(a: Admission, s: ReadinessSnapshot, r1: Option<AdmissionDecision>, r2: Option<AdmissionDecision>)
    requires
        a.wf(),
        decided(a, s, r1),
        decided(a, s, r2),
    ensures
        r1 is Some <==> r2 is Some,
        r1 is Some ==> decision_same(r1->0, r2->0),
{
    if a.queued_topology() is Some {
        let (d1, d2) = (r1->0, r2->0);
        lemma_admitted_same_reflexive(d1.admitted);
        assert(d1.carried@ =~= d2.carried@);
        lemma_ages_unique(a, s, d1, d2);
    } else if a.barrier() is Some && super::decide::ready(s, IntentKey::Unflip) {
        let (d1, d2) = (r1->0, r2->0);
        assert(d1.carried@ =~= d2.carried@);
        lemma_ages_unique(a, s, d1, d2);
    } else if exists|crtc: CrtcId| #[trigger] cursor_ready(a, s, crtc) {
        let (d1, d2) = (r1->0, r2->0);
        assert(cursor_ready(a, s, d1.admitted->CursorRecovery_crtc));
        assert(cursor_ready(a, s, d2.admitted->CursorRecovery_crtc));
        lemma_admitted_same_reflexive(d1.admitted);
        assert(d1.carried@ =~= d2.carried@);
        lemma_ages_unique(a, s, d1, d2);
    } else if super::decide::direct_goes_first(a, s) && super::decide::absorbs_ready_aged(a, s) {
        lemma_primary_same(a, s, r1->0, r2->0, Tier::DirectSuccessor, direct_key(a.queued_direct()->0));
    } else if exists|c: u64| #[trigger] maintenance_pick(a, s, c, true, false) {
        let c1 = choose|c: u64| #[trigger] first_pick(a, s, c, true, false) && maintenance_decision_for(a, s, r1->0, Tier::AgedMaintenance, c);
        let c2 = choose|c: u64| #[trigger] first_pick(a, s, c, true, false) && maintenance_decision_for(a, s, r2->0, Tier::AgedMaintenance, c);
        lemma_first_pick_unique(a, s, c1, c2, true, false);
        lemma_maintenance_same(a, s, r1->0, r2->0, Tier::AgedMaintenance, c1);
    } else if super::decide::bundle_ready(a, s) {
        let (d1, d2) = (r1->0, r2->0);
        assert(bundle_decision(a, s, d1) && bundle_decision(a, s, d2));
        let m1 = d1.admitted->Bundle_members@;
        let m2 = d2.admitted->Bundle_members@;
        lemma_members_unique(a, m1, m2, bundle_crtcs(a, s));
        lemma_members_same_reflexive(m1);
        let p = |m: u64| exists|crtc: CrtcId| #[trigger] bundle_crtcs(a, s).contains(crtc) && rides_with(a, s, m, set![crtc], composed_key(a, crtc));
        lemma_carried_unique(a, d1.carried@, d2.carried@, p, p);
        lemma_ages_unique(a, s, d1, d2);
    } else if super::decide::direct_goes_first(a, s) {
        lemma_primary_same(a, s, r1->0, r2->0, Tier::Primary, direct_key(a.queued_direct()->0));
    } else if exists|intent: IntentKey| #[trigger] is_candidate(a, s, cand_crtcs(a, intent), intent) && super::decide::allows(a, s, cand_crtcs(a, intent)) {
        let i1 = choose|intent: IntentKey| #[trigger] first_allowed(a, s, intent) && primary_decision_for(a, s, r1->0, Tier::Primary, intent);
        let i2 = choose|intent: IntentKey| #[trigger] first_allowed(a, s, intent) && primary_decision_for(a, s, r2->0, Tier::Primary, intent);
        lemma_candidates_by_ordinal(a, s, i1, i2);
        lemma_primary_same(a, s, r1->0, r2->0, Tier::Primary, i1);
    } else if exists|c: u64| #[trigger] maintenance_pick(a, s, c, false, true) {
        let c1 = choose|c: u64| #[trigger] first_pick(a, s, c, false, true) && maintenance_decision_for(a, s, r1->0, Tier::Maintenance, c);
        let c2 = choose|c: u64| #[trigger] first_pick(a, s, c, false, true) && maintenance_decision_for(a, s, r2->0, Tier::Maintenance, c);
        lemma_first_pick_unique(a, s, c1, c2, false, true);
        lemma_maintenance_same(a, s, r1->0, r2->0, Tier::Maintenance, c1);
    } else if exists|c: u64| #[trigger] maintenance_pick(a, s, c, false, false) {
        let c1 = choose|c: u64| #[trigger] first_pick(a, s, c, false, false) && maintenance_decision_for(a, s, r1->0, Tier::Maintenance, c);
        let c2 = choose|c: u64| #[trigger] first_pick(a, s, c, false, false) && maintenance_decision_for(a, s, r2->0, Tier::Maintenance, c);
        lemma_first_pick_unique(a, s, c1, c2, false, false);
        lemma_maintenance_same(a, s, r1->0, r2->0, Tier::Maintenance, c1);
    }
}

} // verus!
