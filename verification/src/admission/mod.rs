//! Per-device admission of queued display intents.
use vstd::prelude::*;

use std::collections::BTreeSet;

mod bound;
pub mod decide;
pub mod intents;
pub mod snapshot;
pub mod token;
pub mod unique;

pub use intents::{
    Admission, AdmissionTicket, ComposedIntent, DirectSuccessor, MaintenanceClass, MaintenanceIntent,
    MaintenanceKey, PrimaryOrdinal, QueuedDirect, Reentry, ReentryKind, SubmittedMaintenance, UnflipBarrier,
};
pub use bound::BoundView;
pub use decide::{AdmissionDecision, Admitted, CarriedMaintenance, Tier};
pub use token::{AdmissionToken, Confirmed, LockSerials};
pub use snapshot::{IntentKey, Readiness, ReadinessSnapshot, WaitReason};

verus! {

pub type CrtcId = u32;

#[derive(Debug, Clone, Copy, PartialEq, Eq, Structural)]
pub enum AdmissionError {
    /// The offered generation is not newer than the queued one.
    StaleGeneration { queued: u64, offered: u64 },
    /// An unflip barrier is pending.
    UnflipPending,
    /// The CRTC set is empty.
    EmptyCrtcSet,
    /// The admission ticket counter is exhausted.
    TicketOverflow,
    /// An admission is already locked.
    AlreadyLocked,
    /// The decision to lock is not the one the current state gives.
    DecisionMismatch,
    /// The token does not belong to the current lock.
    TokenMismatch,
}

/// The ordered set of the given CRTC ids.
pub fn crtcs(ids: &[CrtcId]) -> (r: BTreeSet<CrtcId>)
    ensures
        r@ == ids@.to_set(),
{
    proof {
        crate::sorted::lemma_u32_keys_ordered();
    }
    let mut out: BTreeSet<CrtcId> = BTreeSet::new();
    let mut i: usize = 0;
    while i < ids.len()
        invariant
            0 <= i <= ids@.len(),
            crate::sorted::u32_keys_ordered(),
            out@ == ids@.subrange(0, i as int).to_set(),
        decreases ids@.len() - i,
    {
        out.insert(ids[i]);
        proof {
            assert(ids@.subrange(0, i + 1) =~= ids@.subrange(0, i as int).push(ids@[i as int]));
            ids@.subrange(0, i as int).lemma_push_to_set_commute(ids@[i as int]);
        }
        i = i + 1;
    }
    assert(ids@.subrange(0, ids@.len() as int) =~= ids@);
    out
}

} // verus!
