//! How long an aged maintenance identity has waited behind older tickets.
use vstd::prelude::*;

use std::collections::BTreeSet;

use super::intents::{
    aged_bounds, aged_slots, is_key_code, key_code, key_of_code, older_aged_for, Admission,
    AdmissionTicket, MaintenanceIntent, MaintenanceKey,
};
use super::CarriedMaintenance;
use crate::sorted::{lemma_u64_keys_ordered, map_keys_u64};

verus! {

broadcast use vstd::std_specs::btree::group_btree_axioms;

/// The wait record of one aged identity.
#[derive(Debug, Clone)]
pub struct MaintenanceBound {
    pub ticket: AdmissionTicket,
    pub waited: u64,
    /// Positions of the aged identities with older tickets.
    pub older_aged: BTreeSet<u64>,
}

/// The mathematical content of a wait record.
pub struct BoundView {
    pub ticket: u64,
    pub waited: u64,
    pub older: Set<u64>,
}

pub open spec fn bound_view(b: MaintenanceBound) -> BoundView {
    BoundView { ticket: b.ticket.0, waited: b.waited, older: b.older_aged@ }
}

/// An identity has waited through more older-ticket admissions than twice
/// the number of older aged identities it knows of.
pub open spec fn violates(b: BoundView) -> bool {
    b.waited > 2 * b.older.len()
}

/// The wait records after one admission that carried `carried`: a record
/// whose identity was not carried counts a wait when anything older rode.
pub open spec fn counted_waits(bounds: Map<u64, BoundView>, carried: Seq<CarriedMaintenance>) -> Map<u64, BoundView> {
    Map::new(
        |c: u64| bounds.contains_key(c),
        |c: u64|
            if !(exists|i: int| 0 <= i < carried.len() && key_code(#[trigger] carried[i].key) == c) && (exists|i: int|
                0 <= i < carried.len() && #[trigger] carried[i].ticket.0 < bounds[c].ticket) {
                BoundView { waited: if bounds[c].waited < u64::MAX { (bounds[c].waited + 1) as u64 } else { u64::MAX }, ..bounds[c] }
            } else {
                bounds[c]
            },
    )
}

impl Admission {
    /// Reports an aged identity that has waited through more older-ticket
    /// maintenance admissions than its growing allowance permits; the first
    /// such identity in key order.
    pub fn bound_violation(&self) -> (r: Option<MaintenanceKey>)
        requires
            self.wf(),
        ensures
            r is None <==> (forall|c: u64| #[trigger] self.bounds().contains_key(c) ==> !violates(self.bounds()[c])),
            r is Some ==> {
                &&& self.bounds().contains_key(key_code(r->0))
                &&& violates(self.bounds()[key_code(r->0)])
                &&& forall|c: u64| #[trigger] self.bounds().contains_key(c) && violates(self.bounds()[c]) ==> key_code(r->0) <= c
            },
            r is None <==> (forall|c: u64| #[trigger] self.bounds().contains_key(c) ==> self.bounds()[c].waited <= 2
                * self.bounds()[c].older.len()),
            r is Some ==> self.bounds()[key_code(r->0)].waited > 2 * self.bounds()[key_code(r->0)].older.len() && forall|c: u64|
                #[trigger] self.bounds().contains_key(c) && self.bounds()[c].waited > 2 * self.bounds()[c].older.len() ==> key_code(r->0) <= c,
    {
        proof {
            lemma_u64_keys_ordered();
            self.lemma_reveal();
        }
        let codes = map_keys_u64(&self.maintenance_bounds);
        let mut best: Option<u64> = None;
        let mut i: usize = 0;
        while i < codes.len()
            invariant
                crate::sorted::u64_keys_ordered(),
                self.wf(),
                codes@.to_set() == self.maintenance_bounds@.dom(),
                0 <= i <= codes@.len(),
                self.bounds() == Map::new(|c: u64| self.maintenance_bounds@.contains_key(c), |c: u64| bound_view(self.maintenance_bounds@[c])),
                best is None ==> forall|k: int| 0 <= k < i ==> !violates(self.bounds()[#[trigger] codes@[k]]),
                best is Some ==> {
                    &&& self.bounds().contains_key(best->0)
                    &&& violates(self.bounds()[best->0])
                    &&& forall|k: int| 0 <= k < i && violates(self.bounds()[#[trigger] codes@[k]]) ==> best->0 <= codes@[k]
                },
            decreases codes@.len() - i,
        {
            let c = codes[i];
            assert(codes@.to_set().contains(c));
            let bound = self.maintenance_bounds.get(&c).unwrap();
            let known = bound.older_aged.len() as u64;
            let allowance: u64 = if known > u64::MAX / 2 {
                u64::MAX
            } else {
                known * 2
            };
            if bound.waited > allowance {
                best = match best {
                    Some(b) => if c < b { Some(c) } else { Some(b) },
                    None => Some(c),
                };
            }
            i = i + 1;
        }
        proof {
            assert forall|c: u64| #[trigger] self.bounds().contains_key(c) implies exists|k: int| 0 <= k < codes@.len() && codes@[k] == c by {
                assert(codes@.to_set().contains(c));
            }
        }
        match best {
            Some(c) => {
                assert(self.maintenance_bounds@.contains_key(c));
                assert(is_key_code(c));
                Some(MaintenanceKey::from_code(c))
            },
            None => None,
        }
    }

    /// Mark the identity aged and keep the wait records in step with it.
    pub(crate) fn age_maintenance(&mut self, key: MaintenanceKey)
        requires
            old(self).wf(),
        ensures
            final(self).wf(),
            final(self).primary_part() == old(self).primary_part(),
            final(self).lock_part() == old(self).lock_part(),
            final(self).shown() == old(self).shown(),
            final(self).submitted() == old(self).submitted(),
            final(self).rejections() == old(self).rejections(),
            final(self).tickets_issued() == old(self).tickets_issued(),
            final(self).slots() == aged_slots(old(self).slots(), key_code(key)),
            old(self).slots().contains_key(key_code(key)) ==> final(self).bounds() == aged_bounds(
                old(self).bounds(),
                aged_slots(old(self).slots(), key_code(key)),
                key_code(key),
                old(self).slots()[key_code(key)].ticket.0,
            ),
            !old(self).slots().contains_key(key_code(key)) ==> final(self).bounds() == old(self).bounds(),
    {
        proof {
            lemma_u64_keys_ordered();
            old(self).lemma_reveal();
        }
        let c = key.code();
        let intent = match self.maintenance_slots.get(&c) {
            Some(intent) => *intent,
            None => {
                return;
            },
        };
        let ticket = intent.ticket;
        self.maintenance_slots.insert(c, MaintenanceIntent { generation: intent.generation, ticket, aged: true });
        let ghost slots1 = self.maintenance_slots@;
        let ghost old_bounds = old(self).bounds();
        let ghost target = aged_bounds(old_bounds, slots1, c, ticket.0);
        assert(slots1 == aged_slots(old(self).slots(), c));
        let own = match self.maintenance_bounds.get(&c) {
            Some(bound) => MaintenanceBound { ticket, waited: bound.waited, older_aged: bound.older_aged.clone() },
            None => {
                let codes = map_keys_u64(&self.maintenance_slots);
                let mut older: BTreeSet<u64> = BTreeSet::new();
                let mut i: usize = 0;
                while i < codes.len()
                    invariant
                        crate::sorted::u64_keys_ordered(),
                        codes@.to_set() == slots1.dom(),
                        self.maintenance_slots@ == slots1,
                        0 <= i <= codes@.len(),
                        older@ == older_aged_for(slots1, c, ticket.0).intersect(codes@.subrange(0, i as int).to_set()),
                        forall|x: u64| #[trigger] slots1.contains_key(x) ==> is_key_code(x),
                        forall|x: u64| #[trigger] older@.contains(x) ==> is_key_code(x),
                    decreases codes@.len() - i,
                {
                    let o = codes[i];
                    assert(codes@.to_set().contains(o));
                    if o != c {
                        let other = *self.maintenance_slots.get(&o).unwrap();
                        if other.aged && other.ticket.0 < ticket.0 {
                            older.insert(o);
                        }
                    }
                    proof {
                        assert(codes@.subrange(0, i + 1) =~= codes@.subrange(0, i as int).push(o));
                        codes@.subrange(0, i as int).lemma_push_to_set_commute(o);
                        assert(older@ =~= older_aged_for(slots1, c, ticket.0).intersect(codes@.subrange(0, i + 1).to_set()));
                    }
                    i = i + 1;
                }
                proof {
                    assert(codes@.subrange(0, codes@.len() as int) =~= codes@);
                    assert(older@ =~= older_aged_for(slots1, c, ticket.0));
                }
                MaintenanceBound { ticket, waited: 0, older_aged: older }
            },
        };
        assert(bound_view(own) == target[c]);
        assert(forall|x: u64| own.older_aged@.contains(x) ==> is_key_code(x));
        self.maintenance_bounds.insert(c, own);
        let bound_codes = map_keys_u64(&self.maintenance_bounds);
        let mut j: usize = 0;
        while j < bound_codes.len()
            invariant
                crate::sorted::u64_keys_ordered(),
                bound_codes@.to_set() == self.maintenance_bounds@.dom(),
                self.maintenance_slots@ == slots1,
                0 <= j <= bound_codes@.len(),
                bound_codes@.no_duplicates(),
                target == aged_bounds(old_bounds, slots1, c, ticket.0),
                forall|o: u64| #[trigger] self.maintenance_bounds@.contains_key(o) <==> (o == c || old_bounds.contains_key(o)),
                is_key_code(c),
                forall|o: u64| #[trigger] old(self).maintenance_bounds@.contains_key(o) ==> is_key_code(o),
                forall|o: u64, x: u64| #[trigger] self.maintenance_bounds@.contains_key(o) && #[trigger] self.maintenance_bounds@[o].older_aged@.contains(x) ==> is_key_code(x),
                self.composed == old(self).composed,
                self.direct == old(self).direct,
                self.unflip == old(self).unflip,
                self.topology == old(self).topology,
                self.cursor_recovery == old(self).cursor_recovery,
                self.next_ordinal == old(self).next_ordinal,
                self.next_ticket == old(self).next_ticket,
                self.locked == old(self).locked,
                self.sequence == old(self).sequence,
                self.last_primary_crtcs == old(self).last_primary_crtcs,
                self.next_lock_serial == old(self).next_lock_serial,
                self.maintenance_current == old(self).maintenance_current,
                self.maintenance_submitted == old(self).maintenance_submitted,
                self.rejection_counts == old(self).rejection_counts,
                bound_view(self.maintenance_bounds@[c]) == target[c],
                forall|o: u64| o != c && #[trigger] old_bounds.contains_key(o) ==> bound_view(self.maintenance_bounds@[o]) == if bound_codes@.subrange(0, j as int).contains(o) {
                    target[o]
                } else {
                    old_bounds[o]
                },
                old_bounds == Map::new(|o: u64| old(self).maintenance_bounds@.contains_key(o), |o: u64| bound_view(old(self).maintenance_bounds@[o])),
            decreases bound_codes@.len() - j,
        {
            let o = bound_codes[j];
            assert(bound_codes@.to_set().contains(o));
            if o != c {
                let b = self.maintenance_bounds.get(&o).unwrap();
                if ticket.0 < b.ticket.0 {
                    let mut older = b.older_aged.clone();
                    older.insert(c);
                    let updated = MaintenanceBound { ticket: b.ticket, waited: b.waited, older_aged: older };
                    self.maintenance_bounds.insert(o, updated);
                }
            }
            proof {
                broadcast use vstd::seq_lib::group_seq_properties;
                assert forall|p: u64| p != c && #[trigger] old_bounds.contains_key(p) implies bound_view(self.maintenance_bounds@[p]) == if bound_codes@.subrange(0, j + 1).contains(p) {
                    target[p]
                } else {
                    old_bounds[p]
                } by {
                    assert(bound_codes@.subrange(0, j + 1) =~= bound_codes@.subrange(0, j as int).push(o));
                    assert(bound_codes@.subrange(0, j + 1).contains(p) <==> (bound_codes@.subrange(0, j as int).contains(p) || p == o));
                    if p == o {
                        assert(!bound_codes@.subrange(0, j as int).contains(o)) by {
                            if bound_codes@.subrange(0, j as int).contains(o) {
                                let k = choose|k: int| 0 <= k < j && #[trigger] bound_codes@.subrange(0, j as int)[k] == o;
                                assert(bound_codes@[k] == bound_codes@[j as int]);
                            }
                        }
                    }
                }
            }
            j = j + 1;
        }
        proof {
            assert(bound_codes@.subrange(0, bound_codes@.len() as int) =~= bound_codes@);
            assert forall|p: u64| p != c && #[trigger] old_bounds.contains_key(p) implies bound_view(self.maintenance_bounds@[p]) == target[p] by {
                assert(self.maintenance_bounds@.contains_key(p));
                assert(bound_codes@.to_set().contains(p));
            }
            self.lemma_reveal();
            assert(self.bounds() =~= target);
            assert(self.slots() =~= aged_slots(old(self).slots(), c));
        }
    }

    /// Count a wait for every aged identity left behind while older work rode.
    pub(crate) fn count_older_ticket_waits(&mut self, carried: &Vec<CarriedMaintenance>)
        requires
            old(self).wf(),
        ensures
            final(self).wf(),
            final(self).primary_part() == old(self).primary_part(),
            final(self).lock_part() == old(self).lock_part(),
            final(self).slots() == old(self).slots(),
            final(self).shown() == old(self).shown(),
            final(self).submitted() == old(self).submitted(),
            final(self).rejections() == old(self).rejections(),
            final(self).tickets_issued() == old(self).tickets_issued(),
            final(self).bounds() == counted_waits(old(self).bounds(), carried@),
    {
        proof {
            lemma_u64_keys_ordered();
            old(self).lemma_reveal();
        }
        let ghost old_bounds = old(self).bounds();
        let ghost target = counted_waits(old_bounds, carried@);
        let bound_codes = map_keys_u64(&self.maintenance_bounds);
        let mut j: usize = 0;
        while j < bound_codes.len()
            invariant
                crate::sorted::u64_keys_ordered(),
                bound_codes@.to_set() == old(self).maintenance_bounds@.dom(),
                0 <= j <= bound_codes@.len(),
                bound_codes@.no_duplicates(),
                target == counted_waits(old_bounds, carried@),
                old_bounds == Map::new(|o: u64| old(self).maintenance_bounds@.contains_key(o), |o: u64| bound_view(old(self).maintenance_bounds@[o])),
                self.maintenance_bounds@.dom() == old(self).maintenance_bounds@.dom(),
                forall|o: u64| #[trigger] old_bounds.contains_key(o) ==> bound_view(self.maintenance_bounds@[o]) == if bound_codes@.subrange(0, j as int).contains(o) {
                    target[o]
                } else {
                    old_bounds[o]
                },
                forall|o: u64| #[trigger] self.maintenance_bounds@.contains_key(o) ==> self.maintenance_bounds@[o].older_aged@ == old(self).maintenance_bounds@[o].older_aged@,
                self.maintenance_slots == old(self).maintenance_slots,
                self.maintenance_current == old(self).maintenance_current,
                self.maintenance_submitted == old(self).maintenance_submitted,
                self.rejection_counts == old(self).rejection_counts,
                self.composed == old(self).composed,
                self.direct == old(self).direct,
                self.unflip == old(self).unflip,
                self.topology == old(self).topology,
                self.cursor_recovery == old(self).cursor_recovery,
                self.next_ordinal == old(self).next_ordinal,
                self.next_ticket == old(self).next_ticket,
                self.locked == old(self).locked,
                self.sequence == old(self).sequence,
                self.last_primary_crtcs == old(self).last_primary_crtcs,
                self.next_lock_serial == old(self).next_lock_serial,
            decreases bound_codes@.len() - j,
        {
            let o = bound_codes[j];
            assert(bound_codes@.to_set().contains(o));
            let b = self.maintenance_bounds.get(&o).unwrap();
            let mut is_carried = false;
            let mut older_rode = false;
            let mut k: usize = 0;
            while k < carried.len()
                invariant
                    0 <= k <= carried@.len(),
                    is_carried == exists|i: int| 0 <= i < k && key_code(#[trigger] carried@[i].key) == o,
                    older_rode == exists|i: int| 0 <= i < k && #[trigger] carried@[i].ticket.0 < b.ticket.0,
                decreases carried@.len() - k,
            {
                if carried[k].key.code() == o {
                    is_carried = true;
                }
                if carried[k].ticket.0 < b.ticket.0 {
                    older_rode = true;
                }
                k = k + 1;
            }
            if !is_carried && older_rode {
                let updated = MaintenanceBound { ticket: b.ticket, waited: b.waited.saturating_add(1), older_aged: b.older_aged.clone() };
                self.maintenance_bounds.insert(o, updated);
            }
            proof {
                broadcast use vstd::seq_lib::group_seq_properties;
                assert forall|p: u64| #[trigger] old_bounds.contains_key(p) implies bound_view(self.maintenance_bounds@[p]) == if bound_codes@.subrange(0, j + 1).contains(p) {
                    target[p]
                } else {
                    old_bounds[p]
                } by {
                    assert(bound_codes@.subrange(0, j + 1) =~= bound_codes@.subrange(0, j as int).push(o));
                    assert(bound_codes@.subrange(0, j + 1).contains(p) <==> (bound_codes@.subrange(0, j as int).contains(p) || p == o));
                    if p == o {
                        assert(!bound_codes@.subrange(0, j as int).contains(o)) by {
                            if bound_codes@.subrange(0, j as int).contains(o) {
                                let k = choose|k: int| 0 <= k < j && #[trigger] bound_codes@.subrange(0, j as int)[k] == o;
                                assert(bound_codes@[k] == bound_codes@[j as int]);
                            }
                        }
                    }
                }
            }
            j = j + 1;
        }
        proof {
            assert(bound_codes@.subrange(0, bound_codes@.len() as int) =~= bound_codes@);
            assert forall|p: u64| #[trigger] old_bounds.contains_key(p) implies bound_view(self.maintenance_bounds@[p]) == target[p] by {
                assert(bound_codes@.to_set().contains(p));
            }
            self.lemma_reveal();
            assert(self.bounds() =~= target);
        }
    }
}

} // verus!
