//! The one device slot: a live commit, an exclusive validation lease and a
//! clock-probe lease are mutually exclusive.
use vstd::prelude::*;

use crate::identity::CommitId;
use crate::lifecycle::ids::ClockProbeId;

verus! {

/// Linear proof that the one device slot was reserved for a commit. Its
/// issuing constructor is private to this module.
#[derive(Debug)]
pub struct SubmittingProof(());

/// Linear proof of the exclusive validation lease.
#[derive(Debug)]
pub struct ValidationLease(());

/// Lease authorizing a clock-probe query.
#[derive(Debug)]
pub struct ClockProbeLease(());

impl ClockProbeLease {
    pub fn for_tests() -> (r: Self) {
        ClockProbeLease(())
    }

    pub(crate) fn issue() -> (r: Self) {
        ClockProbeLease(())
    }
}

impl SubmittingProof {
    fn issue() -> (r: Self) {
        SubmittingProof(())
    }

    /// The one seam through which a proof exists without a reservation.
    pub fn for_tests() -> (r: Self) {
        SubmittingProof(())
    }
}

impl ValidationLease {
    fn issue() -> (r: Self) {
        ValidationLease(())
    }

    pub fn for_tests() -> (r: Self) {
        ValidationLease(())
    }
}

/// Why a slot operation was refused.
#[derive(Debug, Clone, Copy, PartialEq, Eq, Structural)]
pub enum SlotError {
    /// The device slot is already held by this commit.
    AlreadyOccupied(CommitId),
    /// An exclusive validation lease is outstanding for this commit.
    ValidationOutstanding(CommitId),
    /// The device slot is not held by this commit.
    NotHeld(CommitId),
    /// No validation lease is outstanding for this commit.
    NoValidationLease(CommitId),
    /// A probe lease is outstanding.
    ProbeOutstanding(ClockProbeId),
    /// No probe lease is outstanding for this probe.
    NoProbeLease(ClockProbeId),
}

/// The abstract slot: who holds the device, if anyone.
pub struct SlotView {
    pub occupant: Option<CommitId>,
    pub validation: Option<CommitId>,
    pub probing: Option<ClockProbeId>,
}

/// At most one holder at a time (the exclusion invariant).
pub open spec fn slot_exclusive(s: SlotView) -> bool {
    &&& (s.occupant is Some ==> s.validation is None && s.probing is None)
    &&& (s.validation is Some ==> s.occupant is None && s.probing is None)
    &&& (s.probing is Some ==> s.occupant is None && s.validation is None)
}

/// The error a new reservation of any kind meets, in the order the slot
/// checks its holders; `None` when the slot is free.
pub open spec fn reserve_refusal(s: SlotView) -> Option<SlotError> {
    if let Some(held) = s.occupant {
        Some(SlotError::AlreadyOccupied(held))
    } else if let Some(v) = s.validation {
        Some(SlotError::ValidationOutstanding(v))
    } else if let Some(p) = s.probing {
        Some(SlotError::ProbeOutstanding(p))
    } else {
        None
    }
}

fn holds_commit(held: Option<CommitId>, commit: CommitId) -> (r: bool)
    ensures
        r == (held == Some(commit)),
{
    match held {
        Some(h) => {
            proof {
                CommitId::lemma_view_injective(h, commit);
            }
            h.get() == commit.get()
        },
        None => false,
    }
}

fn holds_probe(held: Option<ClockProbeId>, probe: ClockProbeId) -> (r: bool)
    ensures
        r == (held == Some(probe)),
{
    match held {
        Some(h) => {
            proof {
                ClockProbeId::lemma_view_injective(h, probe);
            }
            h.get() == probe.get()
        },
        None => false,
    }
}

/// One device's exclusive slot.
#[derive(Debug)]
pub struct DeviceSlot {
    occupant: Option<CommitId>,
    validation: Option<CommitId>,
    probing: Option<ClockProbeId>,
}

impl View for DeviceSlot {
    type V = SlotView;

    closed spec fn view(&self) -> SlotView {
        SlotView { occupant: self.occupant, validation: self.validation, probing: self.probing }
    }
}

impl Default for DeviceSlot {
    /// A free slot.
    fn default() -> (r: Self)
        ensures
            r@ == (SlotView { occupant: None, validation: None, probing: None }),
    {
        DeviceSlot { occupant: None, validation: None, probing: None }
    }
}

impl DeviceSlot {
    /// A free slot.
    pub fn new() -> (r: Self)
        ensures
            r@.occupant is None,
            r@.validation is None,
            r@.probing is None,
    {
        DeviceSlot { occupant: None, validation: None, probing: None }
    }

    /// Reserve the slot for a live commit.
    pub fn reserve(&mut self, commit: CommitId) -> (r: Result<SubmittingProof, SlotError>)
        ensures
            reserve_refusal(old(self)@) is None ==> {
                &&& r is Ok
                &&& final(self)@ == (SlotView { occupant: Some(commit), ..old(self)@ })
            },
            reserve_refusal(old(self)@) matches Some(e) ==> {
                &&& r == Err::<SubmittingProof, SlotError>(e)
                &&& final(self)@ == old(self)@
            },
    {
        if let Some(held) = self.occupant {
            return Err(SlotError::AlreadyOccupied(held));
        }
        if let Some(validating) = self.validation {
            return Err(SlotError::ValidationOutstanding(validating));
        }
        if let Some(probe) = self.probing {
            return Err(SlotError::ProbeOutstanding(probe));
        }
        self.occupant = Some(commit);
        Ok(SubmittingProof::issue())
    }

    /// Only the holder releases the slot, by id.
    pub fn release(&mut self, commit: CommitId) -> (r: Result<(), SlotError>)
        ensures
            old(self)@.occupant == Some(commit) ==> {
                &&& r is Ok
                &&& final(self)@ == (SlotView { occupant: None, ..old(self)@ })
            },
            old(self)@.occupant != Some(commit) ==> {
                &&& r == Err::<(), SlotError>(SlotError::NotHeld(commit))
                &&& final(self)@ == old(self)@
            },
    {
        if holds_commit(self.occupant, commit) {
            self.occupant = None;
            Ok(())
        } else {
            Err(SlotError::NotHeld(commit))
        }
    }

    /// Take the exclusive validation lease.
    pub fn acquire_validation(&mut self, commit: CommitId) -> (r: Result<ValidationLease, SlotError>)
        ensures
            old(self)@.validation matches Some(v) ==> {
                &&& r == Err::<ValidationLease, SlotError>(SlotError::ValidationOutstanding(v))
                &&& final(self)@ == old(self)@
            },
            old(self)@.validation is None ==> (old(self)@.probing matches Some(p) ==> {
                &&& r == Err::<ValidationLease, SlotError>(SlotError::ProbeOutstanding(p))
                &&& final(self)@ == old(self)@
            }),
            old(self)@.validation is None && old(self)@.probing is None ==> (
            old(self)@.occupant matches Some(held) ==> {
                &&& r == Err::<ValidationLease, SlotError>(SlotError::AlreadyOccupied(held))
                &&& final(self)@ == old(self)@
            }),
            reserve_refusal(old(self)@) is None ==> {
                &&& r is Ok
                &&& final(self)@ == (SlotView { validation: Some(commit), ..old(self)@ })
            },
    {
        if let Some(validating) = self.validation {
            return Err(SlotError::ValidationOutstanding(validating));
        }
        if let Some(probe) = self.probing {
            return Err(SlotError::ProbeOutstanding(probe));
        }
        if let Some(held) = self.occupant {
            return Err(SlotError::AlreadyOccupied(held));
        }
        self.validation = Some(commit);
        Ok(ValidationLease::issue())
    }

    /// Take the clock-probe lease.
    pub fn acquire_probe(&mut self, probe: ClockProbeId) -> (r: Result<ClockProbeLease, SlotError>)
        ensures
            reserve_refusal(old(self)@) is None ==> {
                &&& r is Ok
                &&& final(self)@ == (SlotView { probing: Some(probe), ..old(self)@ })
            },
            reserve_refusal(old(self)@) matches Some(e) ==> {
                &&& r == Err::<ClockProbeLease, SlotError>(e)
                &&& final(self)@ == old(self)@
            },
    {
        if let Some(held) = self.occupant {
            return Err(SlotError::AlreadyOccupied(held));
        }
        if let Some(validating) = self.validation {
            return Err(SlotError::ValidationOutstanding(validating));
        }
        if let Some(probing) = self.probing {
            return Err(SlotError::ProbeOutstanding(probing));
        }
        self.probing = Some(probe);
        Ok(ClockProbeLease::issue())
    }

    /// Only the matching probe releases its lease.
    pub fn release_probe(&mut self, probe: ClockProbeId) -> (r: Result<(), SlotError>)
        ensures
            old(self)@.probing == Some(probe) ==> {
                &&& r is Ok
                &&& final(self)@ == (SlotView { probing: None, ..old(self)@ })
            },
            old(self)@.probing != Some(probe) ==> {
                &&& r == Err::<(), SlotError>(SlotError::NoProbeLease(probe))
                &&& final(self)@ == old(self)@
            },
    {
        if holds_probe(self.probing, probe) {
            self.probing = None;
            Ok(())
        } else {
            Err(SlotError::NoProbeLease(probe))
        }
    }

    /// End the exclusive interval by proceeding to the live call: the lease
    /// taken under `lease` is released and `commit` takes the slot in one
    /// step, with no window in which neither is held.
    pub fn consume_validation(&mut self, lease: CommitId, commit: CommitId) -> (r: Result<SubmittingProof, SlotError>)
        ensures
            old(self)@.validation != Some(lease) ==> {
                &&& r == Err::<SubmittingProof, SlotError>(SlotError::NoValidationLease(lease))
                &&& final(self)@ == old(self)@
            },
            old(self)@.validation == Some(lease) ==> (old(self)@.occupant matches Some(held) ==> {
                &&& r == Err::<SubmittingProof, SlotError>(SlotError::AlreadyOccupied(held))
                &&& final(self)@ == old(self)@
            }),
            old(self)@.validation == Some(lease) && old(self)@.occupant is None ==> {
                &&& r is Ok
                &&& final(self)@ == (SlotView { validation: None, occupant: Some(commit), ..old(self)@ })
            },
    {
        if holds_commit(self.validation, lease) {
            if let Some(occupied) = self.occupant {
                return Err(SlotError::AlreadyOccupied(occupied));
            }
            self.validation = None;
            self.occupant = Some(commit);
            Ok(SubmittingProof::issue())
        } else {
            Err(SlotError::NoValidationLease(lease))
        }
    }

    /// End the exclusive interval without proceeding.
    pub fn abandon_validation(&mut self, commit: CommitId) -> (r: Result<(), SlotError>)
        ensures
            old(self)@.validation == Some(commit) ==> {
                &&& r is Ok
                &&& final(self)@ == (SlotView { validation: None, ..old(self)@ })
            },
            old(self)@.validation != Some(commit) ==> {
                &&& r == Err::<(), SlotError>(SlotError::NoValidationLease(commit))
                &&& final(self)@ == old(self)@
            },
    {
        if holds_commit(self.validation, commit) {
            self.validation = None;
            Ok(())
        } else {
            Err(SlotError::NoValidationLease(commit))
        }
    }

    pub fn occupant(&self) -> (r: Option<CommitId>)
        ensures
            r == self@.occupant,
    {
        self.occupant
    }

    pub fn validation_outstanding(&self) -> (r: Option<CommitId>)
        ensures
            r == self@.validation,
    {
        self.validation
    }
}

/// Law: every slot operation preserves mutual exclusion — a live commit, a
/// validation lease and a probe lease are never held at the same time.
/// Stated over the transitions that the operations' contracts give.
pub proof fn lemma_slot_operations_preserve_exclusion(s: SlotView, commit: CommitId, lease: CommitId, probe: ClockProbeId)
    requires
        slot_exclusive(s),
    ensures
        reserve_refusal(s) is None ==> slot_exclusive(SlotView { occupant: Some(commit), ..s }),
        reserve_refusal(s) is None ==> slot_exclusive(SlotView { validation: Some(commit), ..s }),
        reserve_refusal(s) is None ==> slot_exclusive(SlotView { probing: Some(probe), ..s }),
        slot_exclusive(SlotView { occupant: None, ..s }),
        slot_exclusive(SlotView { validation: None, ..s }),
        slot_exclusive(SlotView { probing: None, ..s }),
        s.validation == Some(lease) && s.occupant is None ==> slot_exclusive(
            SlotView { validation: None, occupant: Some(commit), ..s },
        ),
{
}

} // verus!
