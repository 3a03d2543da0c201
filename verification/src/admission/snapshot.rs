//! The readiness each queued intent reported for one admission decision.
use vstd::prelude::*;

use std::collections::BTreeSet;

use super::intents::MaintenanceKey;
use super::CrtcId;

verus! {

#[derive(Debug, Clone, Copy, PartialEq, Eq, Structural, PartialOrd, Ord, Hash)]
pub enum IntentKey {
    Unflip,
    Composed { crtc: CrtcId, generation: u64 },
    Direct { source_generation: u64 },
    Maintenance { key: MaintenanceKey, generation: u64 },
    CursorRecovery { crtc: CrtcId },
}

#[derive(Debug, Clone, Copy, PartialEq, Eq, Structural)]
pub enum WaitReason {
    SourceWaits,
    NoReusableBuffer,
    OrdinaryRetirementOccupied,
    ExitRetirementOccupied,
    ComposedReturnNotEstablished,
    UnflipShadowNotMaterialized,
    NotDirectEligible,
}

#[derive(Debug, Clone, Copy, PartialEq, Eq, Structural)]
pub enum Readiness {
    Ready,
    Waiting(WaitReason),
}

/// The latest readiness reported for `key` among `reports`.
pub open spec fn latest_report(reports: Seq<(IntentKey, Readiness)>, key: IntentKey) -> Option<Readiness>
    decreases reports.len(),
{
    if reports.len() == 0 {
        None
    } else if reports.last().0 == key {
        Some(reports.last().1)
    } else {
        latest_report(reports.drop_last(), key)
    }
}

/// Readiness reports and maintenance/primary compatibility for one decision.
#[derive(Debug, Clone, Default, PartialEq, Eq)]
pub struct ReadinessSnapshot {
    pub layout_generation: u64,
    pub topology_generation: u64,
    pub retirement_wake: bool,
    pub homogeneous_group: BTreeSet<CrtcId>,
    reports: Vec<(IntentKey, Readiness)>,
    compatible: Vec<(IntentKey, IntentKey)>,
}

impl ReadinessSnapshot {
    pub closed spec fn layout(&self) -> u64 {
        self.layout_generation
    }

    pub closed spec fn topology(&self) -> u64 {
        self.topology_generation
    }

    pub closed spec fn wake(&self) -> bool {
        self.retirement_wake
    }

    pub closed spec fn group(&self) -> Set<CrtcId> {
        self.homogeneous_group@
    }

    pub closed spec fn spec_readiness(&self, key: IntentKey) -> Option<Readiness> {
        latest_report(self.reports@, key)
    }

    pub closed spec fn spec_compatible(&self, maintenance: IntentKey, primary: IntentKey) -> bool {
        self.compatible@.contains((maintenance, primary))
    }

    pub fn current_layout(&self) -> (r: u64)
        ensures
            r == self.layout(),
    {
        self.layout_generation
    }

    pub fn current_topology(&self) -> (r: u64)
        ensures
            r == self.topology(),
    {
        self.topology_generation
    }

    pub fn wakes_retirement(&self) -> (r: bool)
        ensures
            r == self.wake(),
    {
        self.retirement_wake
    }

    pub fn in_group(&self, crtc: CrtcId) -> (r: bool)
        ensures
            r == self.group().contains(crtc),
    {
        proof {
            crate::sorted::lemma_u32_keys_ordered();
            broadcast use vstd::std_specs::btree::group_btree_axioms;
        }
        self.homogeneous_group.contains(&crtc)
    }

    pub fn new(layout_generation: u64, topology_generation: u64) -> (r: Self)
        ensures
            r.layout() == layout_generation,
            r.topology() == topology_generation,
            !r.wake(),
            r.group() == Set::<CrtcId>::empty(),
            forall|k: IntentKey| r.spec_readiness(k) is None,
            forall|m: IntentKey, p: IntentKey| !r.spec_compatible(m, p),
    {
        ReadinessSnapshot {
            layout_generation,
            topology_generation,
            retirement_wake: false,
            homogeneous_group: BTreeSet::new(),
            reports: Vec::new(),
            compatible: Vec::new(),
        }
    }

    /// Record an intent's readiness; a later report replaces an earlier one.
    pub fn report(&mut self, key: IntentKey, readiness: Readiness)
        ensures
            final(self).spec_readiness(key) == Some(readiness),
            forall|k: IntentKey| k != key ==> final(self).spec_readiness(k) == old(self).spec_readiness(k),
            forall|m: IntentKey, p: IntentKey| final(self).spec_compatible(m, p) == old(self).spec_compatible(m, p),
            final(self).layout() == old(self).layout(),
            final(self).topology() == old(self).topology(),
            final(self).wake() == old(self).wake(),
            final(self).group() == old(self).group(),
    {
        self.reports.push((key, readiness));
        assert(self.reports@.drop_last() =~= old(self).reports@);
    }

    pub fn readiness(&self, key: IntentKey) -> (r: Option<Readiness>)
        ensures
            r == self.spec_readiness(key),
    {
        let mut i: usize = self.reports.len();
        assert(self.reports@.subrange(0, i as int) =~= self.reports@);
        while i > 0
            invariant
                0 <= i <= self.reports@.len(),
                latest_report(self.reports@, key) == latest_report(self.reports@.subrange(0, i as int), key),
            decreases i,
        {
            let (k, r) = self.reports[i - 1];
            proof {
                assert(self.reports@.subrange(0, i as int).drop_last() =~= self.reports@.subrange(0, i - 1));
            }
            if k == key {
                return Some(r);
            }
            i = i - 1;
        }
        None
    }

    pub fn is_ready(&self, key: IntentKey) -> (r: bool)
        ensures
            r == (self.spec_readiness(key) == Some(Readiness::Ready)),
    {
        match self.readiness(key) {
            Some(Readiness::Ready) => true,
            _ => false,
        }
    }

    /// Record that a maintenance intent may ride along with a primary.
    pub fn report_compatible(&mut self, maintenance: IntentKey, primary: IntentKey)
        ensures
            final(self).spec_compatible(maintenance, primary),
            forall|m: IntentKey, p: IntentKey| (m, p) != (maintenance, primary) ==> final(self).spec_compatible(m, p)
                == old(self).spec_compatible(m, p),
            forall|k: IntentKey| final(self).spec_readiness(k) == old(self).spec_readiness(k),
            final(self).layout() == old(self).layout(),
            final(self).topology() == old(self).topology(),
            final(self).wake() == old(self).wake(),
            final(self).group() == old(self).group(),
    {
        self.compatible.push((maintenance, primary));
        proof {
            assert(self.compatible@[self.compatible@.len() - 1] == (maintenance, primary));
            assert forall|m: IntentKey, p: IntentKey| (m, p) != (maintenance, primary) implies self.compatible@.contains((m, p))
                == old(self).compatible@.contains((m, p)) by {
                if self.compatible@.contains((m, p)) {
                    let k = choose|k: int| 0 <= k < self.compatible@.len() && self.compatible@[k] == (m, p);
                    assert(k < old(self).compatible@.len());
                    assert(old(self).compatible@[k] == (m, p));
                }
                if old(self).compatible@.contains((m, p)) {
                    let k = choose|k: int| 0 <= k < old(self).compatible@.len() && old(self).compatible@[k] == (m, p);
                    assert(self.compatible@[k] == (m, p));
                }
            }
        }
    }

    pub fn is_compatible(&self, maintenance: IntentKey, primary: IntentKey) -> (r: bool)
        ensures
            r == self.spec_compatible(maintenance, primary),
    {
        let mut i: usize = 0;
        while i < self.compatible.len()
            invariant
                0 <= i <= self.compatible@.len(),
                forall|k: int| 0 <= k < i ==> self.compatible@[k] != (maintenance, primary),
            decreases self.compatible@.len() - i,
        {
            let (m, p) = self.compatible[i];
            if m == maintenance && p == primary {
                return true;
            }
            i = i + 1;
        }
        false
    }
}

} // verus!
