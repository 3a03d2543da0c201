use kms_owner::lifecycle::{ClockProbeId, LifecycleEpochId, LifecycleTransitionId};

#[test]
fn the_lifecycle_epoch_is_monotonic_and_starts_at_one() {
    let first = LifecycleEpochId::first();
    assert_eq!(first.get(), 1);
    assert_eq!(first.next().get(), 2);
    assert!(first.next() > first);
}

#[test]
fn epoch_increment_is_checked_rather_than_wrapping() {
    let last = LifecycleEpochId::from_raw(u64::MAX);
    assert_eq!(last.checked_next(), None);
}

#[test]
fn a_transition_id_is_distinct_from_an_epoch_in_the_type_system() {
    let e = LifecycleEpochId::from_raw(4);
    let t = LifecycleTransitionId::from_raw(4);
    let p = ClockProbeId::from_raw(4);
    assert_eq!(e.get(), t.get());
    assert_eq!(e.get(), p.get());
}

#[test]
fn a_clock_probe_id_is_monotonic_and_checked() {
    let first = ClockProbeId::first();
    assert_eq!(first.get(), 1);
    assert!(first.next() > first);
    assert_eq!(ClockProbeId::from_raw(u64::MAX).checked_next(), None);
}
