use kms_owner::identity::CommitId;
use kms_owner::slot::{DeviceSlot, SlotError};

fn c(n: u64) -> CommitId {
    CommitId::for_tests(n)
}

fn p(n: u64) -> kms_owner::lifecycle::ClockProbeId {
    kms_owner::lifecycle::ClockProbeId::from_raw(n)
}

#[test]
fn probe_atomic_and_validation_reservations_are_mutually_exclusive() {
    let mut slot = DeviceSlot::default();
    let _probe = slot.acquire_probe(p(1)).unwrap();
    assert_eq!(
        slot.reserve(c(1)).unwrap_err(),
        SlotError::ProbeOutstanding(p(1))
    );
    assert_eq!(
        slot.acquire_validation(c(1)).unwrap_err(),
        SlotError::ProbeOutstanding(p(1))
    );
    slot.release_probe(p(1)).unwrap();

    let _atomic = slot.reserve(c(2)).unwrap();
    assert_eq!(
        slot.acquire_probe(p(2)).unwrap_err(),
        SlotError::AlreadyOccupied(c(2))
    );
    slot.release(c(2)).unwrap();

    let _validation = slot.acquire_validation(c(3)).unwrap();
    assert_eq!(
        slot.acquire_probe(p(3)).unwrap_err(),
        SlotError::ValidationOutstanding(c(3))
    );
}

#[test]
fn one_commit_may_hold_the_device_slot() {
    let mut slot = DeviceSlot::default();
    let _proof = slot.reserve(c(1)).expect("first reservation");
    assert_eq!(
        slot.reserve(c(2)).expect_err("refused"),
        SlotError::AlreadyOccupied(c(1))
    );
}

#[test]
fn the_slot_is_not_released_by_a_stranger_or_by_a_late_result() {
    let mut slot = DeviceSlot::default();
    let _proof = slot.reserve(c(1)).expect("reserve");
    assert_eq!(
        slot.release(c(2)).expect_err("refused"),
        SlotError::NotHeld(c(2))
    );
    assert_eq!(slot.occupant(), Some(c(1)));
}

#[test]
#[allow(clippy::drop_non_drop)]
fn dropping_the_proof_does_not_release_the_slot() {
    let mut slot = DeviceSlot::default();
    drop(slot.reserve(c(1)).expect("reserve"));
    assert_eq!(slot.occupant(), Some(c(1)));
}

#[test]
fn validation_does_not_occupy_the_submitted_commit_slot() {
    let mut slot = DeviceSlot::default();
    let _lease = slot.acquire_validation(c(1)).expect("lease");
    assert_eq!(slot.occupant(), None);
}

#[test]
fn an_outstanding_validation_lease_blocks_a_new_commit() {
    let mut slot = DeviceSlot::default();
    let _lease = slot.acquire_validation(c(1)).expect("lease");
    assert_eq!(
        slot.reserve(c(2)).expect_err("refused"),
        SlotError::ValidationOutstanding(c(1))
    );
    slot.abandon_validation(c(1)).expect("abandon");
    let _proof = slot
        .reserve(c(2))
        .expect("admissible once the lease is gone");
}

#[test]
fn an_unresolved_commit_blocks_a_new_validation() {
    let mut slot = DeviceSlot::default();
    let _proof = slot.reserve(c(1)).expect("reserve");
    assert_eq!(
        slot.acquire_validation(c(2)).expect_err("refused"),
        SlotError::AlreadyOccupied(c(1))
    );
}

#[test]
fn consuming_a_lease_takes_the_slot_with_no_window_in_between() {
    let mut slot = DeviceSlot::default();
    let _lease = slot.acquire_validation(c(1)).expect("lease");
    let _proof = slot.consume_validation(c(1), c(2)).expect("consume");
    assert_eq!(slot.validation_outstanding(), None);
    assert_eq!(
        slot.occupant(),
        Some(c(2)),
        "the LIVE commit takes the slot; the lease's id was a different allocation"
    );
}

#[test]
fn abandoning_a_lease_leaves_the_device_admissible() {
    let mut slot = DeviceSlot::default();
    let _lease = slot.acquire_validation(c(1)).expect("lease");
    slot.abandon_validation(c(1)).expect("abandon");
    assert_eq!(slot.validation_outstanding(), None);
    let _proof = slot.reserve(c(2)).expect("admissible");
}

#[test]
fn a_stranger_can_neither_consume_nor_abandon_a_lease() {
    let mut slot = DeviceSlot::default();
    let _lease = slot.acquire_validation(c(1)).expect("lease");
    assert_eq!(
        slot.consume_validation(c(2), c(3)).expect_err("refused"),
        SlotError::NoValidationLease(c(2))
    );
    assert_eq!(
        slot.abandon_validation(c(2)).expect_err("refused"),
        SlotError::NoValidationLease(c(2))
    );
    assert_eq!(slot.validation_outstanding(), Some(c(1)));
}

#[test]
fn the_validation_lease_is_exclusive() {
    let mut slot = DeviceSlot::default();
    let _lease = slot.acquire_validation(c(1)).expect("first lease");
    assert_eq!(
        slot.acquire_validation(c(2)).expect_err("refused"),
        SlotError::ValidationOutstanding(c(1))
    );
}

#[test]
fn releasing_and_reserving_again_is_permitted() {
    let mut slot = DeviceSlot::default();
    let _proof = slot.reserve(c(1)).expect("reserve");
    slot.release(c(1)).expect("release");
    assert_eq!(slot.occupant(), None);
    let _proof = slot.reserve(c(2)).expect("re-reserve");
}

#[test]
fn a_default_slot_is_free() {
    let slot = DeviceSlot::default();
    assert_eq!(slot.occupant(), None);
    assert_eq!(slot.validation_outstanding(), None);
}
