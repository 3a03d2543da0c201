use kms_owner::identity::{ClockEpochId, EventToken, IdentityAllocator, IncarnationId, SequenceArmToken};

#[test]
fn commit_ids_are_monotonic_within_an_incarnation() {
    let mut ids = IdentityAllocator::new(IncarnationId::first());
    let a = ids.next_commit();
    let b = ids.next_commit();
    assert!(b > a, "commit ids must increase");
}

#[test]
fn event_tokens_never_repeat_within_an_incarnation() {
    let mut ids = IdentityAllocator::new(IncarnationId::first());
    let mut seen = std::collections::HashSet::new();
    for _ in 0..1000 {
        assert!(seen.insert(ids.next_event_token()), "event token reused");
    }
}

#[test]
fn a_zero_user_data_is_not_a_valid_event_token() {
    assert!(EventToken::from_user_data(0).is_none());
    assert!(SequenceArmToken::from_user_data(0).is_none());
}

#[test]
fn an_event_token_round_trips_through_user_data() {
    let mut ids = IdentityAllocator::new(IncarnationId::first());
    let token = ids.next_event_token();
    assert_eq!(
        EventToken::from_user_data(token.as_user_data()),
        Some(token)
    );
}

#[test]
fn alternating_atomic_and_sequence_allocations_yield_consecutive_raw_values() {
    let mut ids = IdentityAllocator::new(IncarnationId::first());
    let event1 = ids.next_event_token();
    let arm = ids.next_sequence_arm();
    let event2 = ids.next_event_token();
    assert_eq!(event1.as_user_data(), 1);
    assert_eq!(arm.as_user_data(), 2);
    assert_eq!(event2.as_user_data(), 3);
}

#[test]
fn identity_allocation_is_checked_at_the_counter_limit() {
    let mut alloc = IdentityAllocator::at_limit_for_tests();
    assert_eq!(alloc.checked_next_commit(), None);
    assert_eq!(alloc.checked_next_event_token(), None);
    assert_eq!(alloc.checked_next_sequence_arm(), None);
}

#[test]
fn two_incarnations_with_equal_raw_values_selected_by_source() {
    let mut first = IdentityAllocator::new(IncarnationId::first());
    let mut second = IdentityAllocator::new(IncarnationId::first().next());
    assert_eq!(first.next_event_token().as_user_data(), 1);
    assert_eq!(second.next_event_token().as_user_data(), 1);
}

#[test]
fn incarnation_and_clock_epoch_increments_are_checked() {
    assert_eq!(IncarnationId::from_raw(u64::MAX).checked_next(), None);
    assert_eq!(ClockEpochId::from_raw(u64::MAX).checked_next(), None);
    assert_eq!(IncarnationId::first().next().get(), 2);
    assert_eq!(ClockEpochId::first().next().get(), 2);
}
