use kms_owner::clock::ClockKey;
use kms_owner::identity::{ClockEpochId, SequenceArmToken};
use kms_owner::sequence::{SequenceArms, SequenceConsumer, SequenceError};

fn token(n: u64) -> SequenceArmToken {
    SequenceArmToken::for_tests(n)
}

#[test]
fn retired_tokens_are_remembered() {
    let mut arms = SequenceArms::new();
    assert!(!arms.is_tombstone(token(1)));
    arms.push_tombstone(token(1));
    assert!(arms.is_tombstone(token(1)));
    assert!(!arms.is_tombstone(token(2)));
}

#[test]
fn the_oldest_tombstone_is_forgotten_past_capacity() {
    let mut arms = SequenceArms::new();
    for n in 1..=64 {
        arms.push_tombstone(token(n));
    }
    assert!(arms.is_tombstone(token(1)));
    arms.push_tombstone(token(65));
    assert!(!arms.is_tombstone(token(1)));
    assert!(arms.is_tombstone(token(2)));
    assert!(arms.is_tombstone(token(65)));
}

#[test]
fn cancelling_on_no_arms_changes_nothing() {
    let mut arms = SequenceArms::new();
    arms.push_tombstone(token(7));
    arms.cancel_consumer(SequenceConsumer(3));
    arms.cancel_matching_clock(ClockKey {
        hardware_crtc: 1,
        epoch: ClockEpochId::first(),
    });
    assert!(arms.is_tombstone(token(7)));
    assert!(!arms.contains_key(&token(7)));
    assert!(arms.get(&token(7)).is_none());
}

#[test]
fn sequence_errors_describe_themselves() {
    assert_eq!(SequenceError::ClockNotReady.message(), "clock not ready");
    assert_eq!(SequenceError::Capacity.message(), "capacity exceeded");
    assert_eq!(
        SequenceError::TransportUnavailable.message(),
        "transport unavailable"
    );
}

use kms_owner::clock::{ClockSource, CrtcClock, ProbeState};
use kms_owner::completion::MechanismFailure;
use kms_owner::identity::{IdentityAllocator, IncarnationId};
use kms_owner::lifecycle::LifecycleEpochId;
use kms_owner::sequence::{
    DrmEvent, QueueCorrelation, QueueReply, SequenceArmPhase, SequenceEvent, SequencePurpose,
};

fn ready_clock(key: ClockKey) -> CrtcClock {
    let mut clock = CrtcClock::new(key, LifecycleEpochId::first(), 1);
    clock.source = ClockSource::KernelSequence;
    clock.probe = ProbeState::Succeeded;
    clock.reference = Some(0);
    clock
}

fn first_key() -> ClockKey {
    ClockKey {
        hardware_crtc: 1,
        epoch: ClockEpochId::first(),
    }
}

struct Device {
    arms: SequenceArms,
    ids: IdentityAllocator,
    clock: Option<CrtcClock>,
    legacy: bool,
}

impl Device {
    fn new() -> Self {
        Device {
            arms: SequenceArms::new(),
            ids: IdentityAllocator::new(IncarnationId::first()),
            clock: Some(ready_clock(first_key())),
            legacy: false,
        }
    }

    fn reserve(
        &mut self,
        purpose: SequencePurpose,
        target: u64,
        consumers: &[SequenceConsumer],
    ) -> Result<SequenceArmToken, SequenceError> {
        let key = self.clock.as_ref().unwrap().key;
        self.arms.reserve(
            self.clock.as_ref(),
            false,
            self.legacy,
            &mut self.ids,
            key,
            purpose,
            target,
            consumers,
        )
    }

    fn event(&mut self, token: SequenceArmToken, time_ns: i64, sequence: u64) -> Option<SequenceEvent> {
        self.arms.apply_sequence_event(
            &mut self.clock,
            self.legacy,
            IncarnationId::first(),
            IncarnationId::first(),
            token.as_user_data(),
            time_ns,
            sequence,
        )
    }

    fn dispatch(&mut self) -> SequenceArmToken {
        let token = self.arms.next_pending().expect("pending arm");
        assert!(self.arms.mark_in_flight(token));
        token
    }

    fn reply(&mut self, token: SequenceArmToken, reply: QueueReply) -> kms_owner::sequence::QueueResolution {
        let arm = self.arms.get(&token).expect("arm");
        let correlation = QueueCorrelation {
            seq: 1,
            incarnation: IncarnationId::first(),
            lifecycle_epoch: arm.lifecycle_epoch,
            topology_generation: arm.topology_generation,
            hardware_crtc: arm.key.hardware_crtc,
            clock_epoch: arm.key.epoch,
            token,
        };
        self.arms.resolve_queue_reply(
            Some(token),
            &mut self.clock,
            self.legacy,
            IncarnationId::first(),
            correlation,
            reply,
        )
    }

    fn latest_msc(&self) -> Option<u64> {
        self.clock.as_ref().unwrap().latest.map(|s| s.msc)
    }
}

#[test]
fn two_consumers_share_one_token_and_cancellation_preserves_remaining() {
    let mut owner = Device::new();
    let c1 = SequenceConsumer(101);
    let c2 = SequenceConsumer(102);
    let t1 = owner
        .reserve(SequencePurpose::PresentTargetWake, 50, &[c1])
        .expect("reserve c1");
    let t2 = owner
        .reserve(SequencePurpose::PresentTargetWake, 50, &[c2])
        .expect("reserve c2");
    assert_eq!(t1, t2, "consumers for identical target must share arm token");

    owner.arms.cancel_consumer(c1);
    let events = owner.event(t1, 1_000_000, 50);
    assert!(matches!(events, Some(SequenceEvent::ClockSample { .. })));
    assert_eq!(owner.latest_msc(), Some(50));

    let mut owner2 = Device::new();
    let t = owner2
        .reserve(SequencePurpose::PresentTargetWake, 60, &[c1, c2])
        .expect("reserve c1 and c2");
    owner2.arms.cancel_consumer(c1);
    owner2.arms.cancel_consumer(c2);
    let events2 = owner2.event(t, 2_000_000, 60);
    assert!(events2.is_none());
    assert_eq!(owner2.clock.as_ref().unwrap().latest, None);
}

#[test]
fn fill_256_distinct_arms_and_assert_257_returns_capacity_without_eviction() {
    let mut owner = Device::new();
    for target in 1..=256 {
        let res = owner.reserve(
            SequencePurpose::PresentTargetWake,
            target,
            &[SequenceConsumer(target)],
        );
        assert!(res.is_ok(), "arm {target} must be reserved");
    }
    let overflow = owner.reserve(
        SequencePurpose::PresentTargetWake,
        257,
        &[SequenceConsumer(257)],
    );
    assert_eq!(overflow, Err(SequenceError::Capacity));
    let c1_extra = SequenceConsumer(9999);
    let dedup = owner.reserve(SequencePurpose::PresentTargetWake, 1, &[c1_extra]);
    assert!(dedup.is_ok(), "arm 1 must still exist without eviction and be shared");
}

#[test]
fn reuse_raw_crtc_1_after_epoch_invalidation_and_old_token_cannot_consume_new_arm() {
    let mut owner = Device::new();
    let c = SequenceConsumer(501);
    let key1 = first_key();
    let old_token = owner
        .reserve(SequencePurpose::PresentTargetWake, 75, &[c])
        .expect("reserve epoch 1");
    owner.clock = None;
    owner.arms.cancel_matching_clock(key1);
    let key2 = ClockKey {
        hardware_crtc: 1,
        epoch: ClockEpochId::first().next(),
    };
    owner.clock = Some(ready_clock(key2));
    let new_token = owner
        .reserve(SequencePurpose::PresentTargetWake, 75, &[c])
        .expect("reserve epoch 2");
    assert_ne!(old_token, new_token, "new arm must have distinct token");
    let events = owner.event(old_token, 1_000_000, 75);
    assert!(events.is_none());
    assert_eq!(owner.clock.as_ref().unwrap().latest, None);
}

#[test]
fn cross_device_tokens_with_equal_raw_values_cannot_consume_one_another() {
    let mut owner1 = Device::new();
    let mut owner2 = Device::new();
    let c = SequenceConsumer(801);
    let t1 = owner1
        .reserve(SequencePurpose::PresentTargetWake, 42, &[c])
        .expect("reserve owner1");
    let t2 = owner2
        .reserve(SequencePurpose::PresentTargetWake, 42, &[c])
        .expect("reserve owner2");
    assert_eq!(t1.as_user_data(), t2.as_user_data());
    let events1 = owner1.event(t1, 1_000_000, 42);
    assert!(events1.is_some());
    assert_eq!(owner1.latest_msc(), Some(42));
    assert_eq!(owner2.clock.as_ref().unwrap().latest, None);
}

#[test]
fn staged_event_cancelled_last_consumer_then_queue_accepted_produces_no_wakes_and_releases_lease() {
    let mut owner = Device::new();
    let c1 = SequenceConsumer(1001);
    let token = owner
        .reserve(SequencePurpose::PresentTargetWake, 50, &[c1])
        .expect("reserve arm");
    assert_eq!(owner.dispatch(), token);
    assert!(owner.event(token, 1_000_000, 50).is_none());
    assert_eq!(owner.clock.as_ref().unwrap().latest, None);
    owner.arms.cancel_consumer(c1);
    let resolution = owner.reply(token, QueueReply::Accepted { sequence: 50 });
    assert!(resolution.event.is_none());
    assert!(resolution.release_queue);
    assert_eq!(owner.clock.as_ref().unwrap().latest, None);
    assert!(owner.arms.is_tombstone(token));
    assert!(!owner.arms.contains_key(&token));
}

#[test]
fn cancel_before_event_fresh_same_target_arm_cannot_revive_old_evidence() {
    let mut owner = Device::new();
    let c1 = SequenceConsumer(2001);
    let token1 = owner
        .reserve(SequencePurpose::PresentTargetWake, 60, &[c1])
        .expect("reserve arm 1");
    assert_eq!(owner.dispatch(), token1);
    owner.arms.cancel_consumer(c1);
    let c2 = SequenceConsumer(2002);
    let token2 = owner
        .reserve(SequencePurpose::PresentTargetWake, 60, &[c2])
        .expect("reserve arm 2 on same target");
    assert_ne!(token1, token2, "fresh arm must receive a distinct token");
    assert!(owner.event(token1, 2_000_000, 60).is_none());
    let resolution = owner.reply(token1, QueueReply::Accepted { sequence: 60 });
    assert!(resolution.event.is_none());
    assert!(resolution.release_queue);
    assert_eq!(owner.clock.as_ref().unwrap().latest, None);
    assert!(owner.arms.contains_key(&token2));
    assert_eq!(
        owner.arms.get(&token2).unwrap().phase,
        SequenceArmPhase::PendingDispatch
    );
}

#[test]
fn staged_cancellation_no_publication_for_legacy_output() {
    let mut owner = Device::new();
    owner.legacy = true;
    let c = SequenceConsumer(3001);
    let token = owner
        .reserve(SequencePurpose::IdleClockWake, 1, &[c])
        .expect("reserve arm");
    assert_eq!(owner.dispatch(), token);
    assert!(owner.event(token, 3_000_000, 70).is_none());
    owner.arms.cancel_consumer(c);
    let resolution = owner.reply(token, QueueReply::Accepted { sequence: 70 });
    assert!(resolution.event.is_none());
}

#[test]
fn cancellation_does_not_hide_contradictory_rejection() {
    let mut owner = Device::new();
    let c = SequenceConsumer(4001);
    let token = owner
        .reserve(SequencePurpose::PresentTargetWake, 80, &[c])
        .expect("reserve arm");
    assert_eq!(owner.dispatch(), token);
    assert!(owner.event(token, 4_000_000, 80).is_none());
    owner.arms.cancel_consumer(c);
    let resolution = owner.reply(token, QueueReply::Rejected { errno: 22 });
    assert_eq!(
        resolution.failure,
        Some(MechanismFailure::ActiveEventContradiction)
    );
    assert_eq!(
        resolution.event,
        Some(SequenceEvent::MechanismFailed {
            reason: MechanismFailure::ActiveEventContradiction,
        })
    );
}

#[test]
fn an_unready_clock_refuses_without_reserving() {
    let mut owner = Device::new();
    owner.clock.as_mut().unwrap().queue_failed = true;
    assert_eq!(
        owner.reserve(SequencePurpose::PresentTargetWake, 5, &[SequenceConsumer(1)]),
        Err(SequenceError::ClockNotReady)
    );
    assert!(owner.arms.next_pending().is_none());
}

#[test]
fn a_rejected_queue_fails_its_consumers_and_the_clock_queue() {
    let mut owner = Device::new();
    let c = SequenceConsumer(7);
    let token = owner
        .reserve(SequencePurpose::PresentTargetWake, 9, &[c])
        .expect("reserve arm");
    assert_eq!(owner.dispatch(), token);
    let resolution = owner.reply(token, QueueReply::Rejected { errno: 5 });
    assert_eq!(
        resolution.event,
        Some(SequenceEvent::SequenceArmFailed {
            key: first_key(),
            consumers: vec![c],
            errno: Some(5),
        })
    );
    assert!(resolution.release_queue);
    assert!(owner.clock.as_ref().unwrap().queue_failed);
    assert!(!owner.arms.contains_key(&token));
}

#[test]
fn an_accepted_queue_arms_then_its_event_publishes() {
    let mut owner = Device::new();
    let token = owner
        .reserve(SequencePurpose::PresentTargetWake, 30, &[SequenceConsumer(1)])
        .expect("reserve arm");
    assert_eq!(owner.dispatch(), token);
    let resolution = owner.reply(token, QueueReply::Accepted { sequence: 30 });
    assert_eq!(resolution.event, None);
    assert_eq!(owner.arms.get(&token).unwrap().phase, SequenceArmPhase::Armed);
    assert_eq!(owner.arms.get(&token).unwrap().scheduled_target, Some(30));
    let event = owner.event(token, 5_000, 30);
    assert!(matches!(event, Some(SequenceEvent::ClockSample { .. })));
    assert_eq!(owner.latest_msc(), Some(30));
    assert_eq!(owner.clock.as_ref().unwrap().reference, Some(30));
    assert!(!owner.arms.contains_key(&token));
}

#[test]
fn wrong_type_current_arm_event_poisons_unknown_wrong_type_token_does_not() {
    let mut owner = Device::new();
    let c = SequenceConsumer(901);
    let arm_token = owner
        .reserve(SequencePurpose::PresentTargetWake, 100, &[c])
        .expect("reserve arm");

    let unknown_raw = 0xdead_beef;
    let unknown_event = DrmEvent::PageFlip { user_data: unknown_raw };
    let events = owner.arms.apply_drm_event(
        &mut owner.clock,
        false,
        IncarnationId::first(),
        IncarnationId::first(),
        unknown_event,
    );
    assert!(events.is_none(), "unknown token must not poison");

    let wrong_type_event = DrmEvent::PageFlip {
        user_data: arm_token.as_user_data(),
    };
    let poison_events = owner.arms.apply_drm_event(
        &mut owner.clock,
        false,
        IncarnationId::first(),
        IncarnationId::first(),
        wrong_type_event,
    );
    assert_eq!(
        poison_events,
        Some(SequenceEvent::MechanismFailed {
            reason: MechanismFailure::ActiveEventContradiction,
        }),
        "current arm wrong-type event must poison"
    );
}

#[test]
fn queue_requests_follow_the_arm_purpose() {
    let mut owner = Device::new();
    let idle = owner
        .reserve(SequencePurpose::IdleClockWake, 0, &[SequenceConsumer(1)])
        .expect("idle arm");
    let present = owner
        .reserve(SequencePurpose::PresentTargetWake, 77, &[SequenceConsumer(2)])
        .expect("present arm");
    assert_eq!(owner.arms.queue_request(idle), Some((true, 1)));
    assert_eq!(owner.arms.queue_request(present), Some((false, 77)));
    assert_eq!(owner.arms.queue_request(token(999)), None);
    assert_eq!(owner.arms.next_pending(), Some(idle));
    owner.arms.requeue_front(idle);
    assert_eq!(owner.arms.next_pending(), Some(idle));
    assert_eq!(owner.arms.next_pending(), Some(present));
    assert_eq!(owner.arms.next_pending(), None);
}

#[test]
fn a_device_queue_reply_updates_only_the_arms_clock_and_releases_the_lease() {
    let mut owner = Device::new();
    let c = SequenceConsumer(4);
    let token = owner
        .reserve(SequencePurpose::PresentTargetWake, 12, &[c])
        .expect("reserve arm");
    assert_eq!(owner.dispatch(), token);
    let arm = owner.arms.get(&token).expect("arm");
    let correlation = QueueCorrelation {
        seq: 1,
        incarnation: IncarnationId::first(),
        lifecycle_epoch: arm.lifecycle_epoch,
        topology_generation: arm.topology_generation,
        hardware_crtc: arm.key.hardware_crtc,
        clock_epoch: arm.key.epoch,
        token,
    };
    let other_key = ClockKey {
        hardware_crtc: 2,
        epoch: ClockEpochId::first(),
    };
    let mut clocks = vec![ready_clock(other_key), owner.clock.take().unwrap()];
    let mut lease = Some(token);
    let mut failure: Option<MechanismFailure> = None;
    let events = owner.arms.resolve_sequence_queue(
        &mut lease,
        &mut failure,
        &mut clocks,
        false,
        IncarnationId::first(),
        correlation,
        QueueReply::Rejected { errno: 11 },
    );
    assert_eq!(
        events,
        vec![SequenceEvent::SequenceArmFailed {
            key: first_key(),
            consumers: vec![c],
            errno: Some(11),
        }]
    );
    assert_eq!(lease, None);
    assert_eq!(failure, None);
    assert!(!clocks[0].queue_failed);
    assert!(clocks[1].queue_failed);
    assert!(!owner.arms.contains_key(&token));

    let stale = owner.arms.resolve_sequence_queue(
        &mut lease,
        &mut failure,
        &mut clocks,
        false,
        IncarnationId::first(),
        correlation,
        QueueReply::Unknown,
    );
    assert_eq!(stale, vec![SequenceEvent::StaleReply { correlation }]);
    assert_eq!(failure, None);
}
