use std::collections::BTreeSet;

use kms_owner::admission::{
    crtcs, Admission, AdmissionDecision, AdmissionError, Admitted, CrtcId, DirectSuccessor,
    IntentKey, MaintenanceClass, MaintenanceKey, Readiness, ReadinessSnapshot, Reentry,
    ReentryKind, Tier, WaitReason,
};

fn successor(
    source_generation: u64,
    layout_generation: u64,
    topology_generation: u64,
    ids: &[CrtcId],
) -> DirectSuccessor {
    DirectSuccessor {
        source_generation,
        layout_generation,
        topology_generation,
        crtcs: crtcs(ids),
    }
}

#[test]
fn c0_adm_composed_newest_wins_and_keeps_its_ordinal() {
    let mut admission = Admission::new();

    admission.set_composed(1, 10).unwrap();
    let first = admission.composed(1).unwrap();

    admission.set_composed(1, 11).unwrap();
    let current = admission.composed(1).unwrap();

    assert_eq!(current.generation, 11);
    assert_eq!(current.ordinal, first.ordinal);
}

#[test]
fn c0_adm_composed_refuses_a_stale_generation() {
    let mut admission = Admission::new();

    admission.set_composed(1, 10).unwrap();
    let result = admission.set_composed(1, 10);

    assert_eq!(
        result,
        Err(AdmissionError::StaleGeneration {
            queued: 10,
            offered: 10,
        })
    );
    assert_eq!(admission.composed(1).unwrap().generation, 10);
}

#[test]
fn c0_adm_second_direct_successor_displaces_the_first_and_keeps_the_ordinal() {
    let mut admission = Admission::new();
    let first = successor(10, 20, 30, &[1, 2]);
    let second = successor(11, 21, 31, &[1, 2]);

    assert_eq!(admission.set_direct_successor(first.clone()), Ok(None));
    let first_ordinal = admission.direct().unwrap().ordinal;

    assert_eq!(
        admission.set_direct_successor(second.clone()),
        Ok(Some(first))
    );
    let queued = admission.direct().unwrap();
    assert_eq!(queued.successor, second);
    assert_eq!(queued.ordinal, first_ordinal);
}

#[test]
fn c0_adm_unflip_displaces_the_successor_and_refuses_later_direct_work() {
    let mut admission = Admission::new();
    let queued = successor(10, 20, 30, &[1]);
    let later = successor(11, 21, 31, &[1]);

    admission.set_direct_successor(queued.clone()).unwrap();
    assert_eq!(
        admission.request_unflip(crtcs(&[1, 2])),
        Ok(Some(queued))
    );
    assert!(admission.direct().is_none());
    assert_eq!(
        admission.set_direct_successor(later),
        Err(AdmissionError::UnflipPending)
    );
    assert_eq!(admission.unflip().unwrap().crtcs, crtcs(&[1, 2]));
}

#[test]
fn c0_adm_withdraw_only_matches_the_queued_generation() {
    let mut admission = Admission::new();
    let queued = successor(10, 20, 30, &[1]);

    admission.set_direct_successor(queued.clone()).unwrap();
    assert!(admission.withdraw_direct(11).is_none());
    assert_eq!(admission.direct().unwrap().successor, queued);
    assert_eq!(admission.withdraw_direct(10), Some(queued));
    assert!(admission.direct().is_none());
}

#[test]
fn c0_adm_empty_crtc_sets_are_refused() {
    let mut admission = Admission::new();
    let empty = DirectSuccessor {
        source_generation: 10,
        layout_generation: 20,
        topology_generation: 30,
        crtcs: BTreeSet::new(),
    };

    assert_eq!(
        admission.set_direct_successor(empty),
        Err(AdmissionError::EmptyCrtcSet)
    );
    assert_eq!(
        admission.request_unflip(BTreeSet::new()),
        Err(AdmissionError::EmptyCrtcSet)
    );
    assert!(admission.direct().is_none());
    assert!(admission.unflip().is_none());
}

#[test]
fn c0_adm_ordinals_are_device_monotonic_across_shapes() {
    let mut admission = Admission::new();

    admission.set_composed(2, 10).unwrap();
    let composed_two = admission.composed(2).unwrap().ordinal;

    admission
        .set_direct_successor(successor(20, 30, 40, &[1, 2]))
        .unwrap();
    let direct = admission.direct().unwrap().ordinal;

    admission.set_composed(1, 30).unwrap();
    let composed_one = admission.composed(1).unwrap().ordinal;

    assert!(composed_two < direct);
    assert!(direct < composed_one);
}

#[test]
fn c0_adm_topology_requests_are_monotonic() {
    let mut admission = Admission::new();

    admission.request_topology(10).unwrap();
    assert_eq!(
        admission.request_topology(10),
        Err(AdmissionError::StaleGeneration {
            queued: 10,
            offered: 10,
        })
    );
    admission.request_topology(11).unwrap();
    assert_eq!(admission.topology(), Some(11));
}

#[test]
fn c0_adm_a_second_unflip_request_widens_the_barrier() {
    let mut admission = Admission::new();

    admission.request_unflip(crtcs(&[1])).unwrap();
    admission.request_unflip(crtcs(&[2])).unwrap();

    assert_eq!(admission.unflip().unwrap().crtcs, crtcs(&[1, 2]));
}

fn cursor(crtc: CrtcId) -> MaintenanceKey {
    MaintenanceKey {
        crtc,
        class: MaintenanceClass::Cursor,
    }
}

fn maintenance_ready(snapshot: &mut ReadinessSnapshot, admission: &Admission, key: MaintenanceKey) {
    let generation = admission.maintenance(key).unwrap().generation;
    snapshot.report(
        IntentKey::Maintenance { key, generation },
        Readiness::Ready,
    );
}

#[test]
fn crtcs_collects_each_id_once() {
    let set = crtcs(&[3, 1, 3, 2]);
    assert_eq!(set.len(), 3);
    assert_eq!(set.iter().copied().collect::<Vec<_>>(), vec![1, 2, 3]);
}

#[test]
fn composed_ordinals_are_issued_in_queue_order() {
    let mut admission = Admission::new();
    admission.set_composed(5, 1).unwrap();
    admission.set_composed(3, 1).unwrap();
    assert_eq!(admission.composed(5).unwrap().ordinal.0, 0);
    assert_eq!(admission.composed(3).unwrap().ordinal.0, 1);
}

#[test]
fn a_stale_direct_successor_is_refused() {
    let mut admission = Admission::new();
    admission.set_direct_successor(successor(10, 1, 1, &[1])).unwrap();
    assert_eq!(
        admission.set_direct_successor(successor(10, 2, 2, &[1])),
        Err(AdmissionError::StaleGeneration {
            queued: 10,
            offered: 10,
        })
    );
}

#[test]
fn maintenance_already_shown_is_an_omission() {
    let mut admission = Admission::new();
    let key = cursor(1);
    admission.note_completed(key, 4);
    admission.set_maintenance(key, 4, false).unwrap();
    assert!(admission.maintenance(key).is_none());
    admission.set_maintenance(key, 5, false).unwrap();
    assert_eq!(admission.maintenance(key).unwrap().generation, 5);
    admission.note_completed(key, 5);
    assert!(admission.maintenance(key).is_none());
}

#[test]
fn maintenance_refuses_a_stale_generation_and_keeps_its_ticket() {
    let mut admission = Admission::new();
    let key = cursor(2);
    admission.set_maintenance(key, 3, false).unwrap();
    let first = admission.maintenance(key).unwrap();
    assert_eq!(
        admission.set_maintenance(key, 3, false),
        Err(AdmissionError::StaleGeneration {
            queued: 3,
            offered: 3,
        })
    );
    admission.set_maintenance(key, 4, false).unwrap();
    let second = admission.maintenance(key).unwrap();
    assert_eq!(second.ticket, first.ticket);
    assert!(!second.aged);
    admission.set_maintenance(key, 5, true).unwrap();
    assert!(admission.maintenance(key).unwrap().aged);
}

#[test]
fn a_second_rejection_drops_the_maintenance() {
    let mut admission = Admission::new();
    let key = cursor(1);
    admission.set_maintenance(key, 1, false).unwrap();
    let ticket = admission.maintenance(key).unwrap().ticket;
    assert_eq!(
        admission.reenter(key, 1, ticket, ReentryKind::Rejected),
        Reentry::Reentered
    );
    assert_eq!(admission.rejection_count(key), 1);
    assert!(admission.maintenance(key).unwrap().aged);
    assert_eq!(
        admission.reenter(key, 1, ticket, ReentryKind::Rejected),
        Reentry::Dropped
    );
    assert!(admission.maintenance(key).is_none());
    assert_eq!(admission.rejection_count(key), 2);
    admission.note_completed(key, 1);
    assert_eq!(admission.rejection_count(key), 0);
}

#[test]
fn an_unknown_reentry_keeps_the_newer_generation_and_older_ticket() {
    let mut admission = Admission::new();
    let key = cursor(1);
    admission.set_maintenance(key, 7, false).unwrap();
    let queued = admission.maintenance(key).unwrap();
    assert_eq!(
        admission.reenter(key, 6, queued.ticket, ReentryKind::Unknown),
        Reentry::Reentered
    );
    let after = admission.maintenance(key).unwrap();
    assert_eq!(after.generation, 7);
    assert_eq!(after.ticket, queued.ticket);
    assert!(after.aged);
    assert_eq!(admission.rejection_count(key), 0);
}

#[test]
fn topology_is_admitted_before_everything() {
    let mut admission = Admission::new();
    admission.set_composed(1, 1).unwrap();
    admission.request_topology(9).unwrap();
    let mut snapshot = ReadinessSnapshot::new(0, 0);
    snapshot.report(IntentKey::Composed { crtc: 1, generation: 1 }, Readiness::Ready);
    let decision = admission.decide(&snapshot).unwrap();
    assert_eq!(decision.tier, Tier::Topology);
    assert_eq!(decision.admitted, Admitted::Topology { tag: 9 });
    assert!(decision.carried.is_empty());
}

#[test]
fn nothing_ready_admits_nothing() {
    let mut admission = Admission::new();
    admission.set_composed(1, 1).unwrap();
    let mut snapshot = ReadinessSnapshot::new(0, 0);
    snapshot.report(
        IntentKey::Composed { crtc: 1, generation: 1 },
        Readiness::Waiting(WaitReason::SourceWaits),
    );
    assert!(admission.decide(&snapshot).is_none());
}

#[test]
fn the_earliest_queued_ready_primary_is_admitted() {
    let mut admission = Admission::new();
    admission.set_composed(2, 1).unwrap();
    admission.set_composed(1, 1).unwrap();
    let mut snapshot = ReadinessSnapshot::new(0, 0);
    snapshot.report(IntentKey::Composed { crtc: 1, generation: 1 }, Readiness::Ready);
    snapshot.report(IntentKey::Composed { crtc: 2, generation: 1 }, Readiness::Ready);
    let decision = admission.decide(&snapshot).unwrap();
    assert_eq!(decision.tier, Tier::Primary);
    assert_eq!(decision.admitted, Admitted::Composed { crtc: 2, generation: 1 });
    assert_eq!(decision.primary_crtcs(), crtcs(&[2]));
}

#[test]
fn compatible_maintenance_rides_with_its_primary() {
    let mut admission = Admission::new();
    admission.set_composed(1, 1).unwrap();
    let key = cursor(1);
    admission.set_maintenance(key, 1, false).unwrap();
    let mut snapshot = ReadinessSnapshot::new(0, 0);
    let primary = IntentKey::Composed { crtc: 1, generation: 1 };
    snapshot.report(primary, Readiness::Ready);
    maintenance_ready(&mut snapshot, &admission, key);
    snapshot.report_compatible(IntentKey::Maintenance { key, generation: 1 }, primary);
    let decision = admission.decide(&snapshot).unwrap();
    assert_eq!(decision.tier, Tier::Primary);
    assert_eq!(decision.carried.len(), 1);
    assert_eq!(decision.carried[0].key, key);
    assert!(decision.ages.is_empty());
}

#[test]
fn ready_maintenance_left_behind_ages() {
    let mut admission = Admission::new();
    admission.set_composed(1, 1).unwrap();
    let key = cursor(2);
    admission.set_maintenance(key, 1, false).unwrap();
    let mut snapshot = ReadinessSnapshot::new(0, 0);
    snapshot.report(IntentKey::Composed { crtc: 1, generation: 1 }, Readiness::Ready);
    maintenance_ready(&mut snapshot, &admission, key);
    let decision = admission.decide(&snapshot).unwrap();
    assert_eq!(decision.tier, Tier::Primary);
    assert_eq!(decision.ages, vec![key]);
}

#[test]
fn aged_maintenance_goes_before_primaries() {
    let mut admission = Admission::new();
    admission.set_composed(1, 1).unwrap();
    let key = cursor(2);
    admission.set_maintenance(key, 1, true).unwrap();
    let mut snapshot = ReadinessSnapshot::new(0, 0);
    snapshot.report(IntentKey::Composed { crtc: 1, generation: 1 }, Readiness::Ready);
    maintenance_ready(&mut snapshot, &admission, key);
    let decision = admission.decide(&snapshot).unwrap();
    assert_eq!(decision.tier, Tier::AgedMaintenance);
    assert_eq!(decision.admitted, Admitted::Maintenance { key, generation: 1 });
    assert!(decision.combined_primary.is_none());
    assert_eq!(decision.carried.len(), 1);
}

#[test]
fn group_members_flip_as_a_bundle() {
    let mut admission = Admission::new();
    admission.set_composed(1, 1).unwrap();
    admission.set_composed(2, 1).unwrap();
    let mut snapshot = ReadinessSnapshot::new(0, 0);
    snapshot.homogeneous_group = crtcs(&[1, 2]);
    snapshot.report(IntentKey::Composed { crtc: 1, generation: 1 }, Readiness::Ready);
    snapshot.report(IntentKey::Composed { crtc: 2, generation: 1 }, Readiness::Ready);
    let decision = admission.decide(&snapshot).unwrap();
    assert_eq!(decision.tier, Tier::Bundle);
    assert_eq!(decision.primary_crtcs(), crtcs(&[1, 2]));
}

#[test]
fn confirming_consumes_the_admitted_work_and_counts_the_sequence() {
    let mut admission = Admission::new();
    admission.set_composed(1, 1).unwrap();
    let mut snapshot = ReadinessSnapshot::new(0, 0);
    snapshot.report(IntentKey::Composed { crtc: 1, generation: 1 }, Readiness::Ready);
    let decision: AdmissionDecision = admission.decide(&snapshot).unwrap();
    let token = admission.lock(decision.clone(), &snapshot).unwrap();
    assert!(admission.is_locked());
    assert_eq!(
        admission.lock(decision.clone(), &snapshot).unwrap_err(),
        AdmissionError::AlreadyLocked
    );
    let confirmed = admission.confirm(token).unwrap();
    assert_eq!(confirmed.sequence, 1);
    assert_eq!(confirmed.decision, decision);
    assert!(!admission.is_locked());
    assert!(admission.composed(1).is_none());
    assert_eq!(admission.sequence(), 1);
}

#[test]
fn a_decision_that_is_not_current_cannot_be_locked() {
    let mut admission = Admission::new();
    admission.set_composed(1, 1).unwrap();
    let mut snapshot = ReadinessSnapshot::new(0, 0);
    snapshot.report(IntentKey::Composed { crtc: 1, generation: 1 }, Readiness::Ready);
    let mut decision = admission.decide(&snapshot).unwrap();
    decision.admitted = Admitted::Composed { crtc: 1, generation: 2 };
    assert_eq!(
        admission.lock(decision, &snapshot).unwrap_err(),
        AdmissionError::DecisionMismatch
    );
    assert!(!admission.is_locked());
}

#[test]
fn aborting_releases_the_lock_and_keeps_the_work() {
    let mut admission = Admission::new();
    admission.set_composed(1, 1).unwrap();
    let mut snapshot = ReadinessSnapshot::new(0, 0);
    snapshot.report(IntentKey::Composed { crtc: 1, generation: 1 }, Readiness::Ready);
    let decision = admission.decide(&snapshot).unwrap();
    let token = admission.lock(decision, &snapshot).unwrap();
    admission.abort(token).unwrap();
    assert!(!admission.is_locked());
    assert!(admission.composed(1).is_some());
    assert_eq!(admission.sequence(), 0);
}

#[test]
fn a_waiting_aged_identity_reports_a_bound_violation() {
    let mut admission = Admission::new();
    assert!(admission.bound_violation().is_none());
    let key = cursor(1);
    admission.set_maintenance(key, 1, true).unwrap();
    assert!(admission.bound_violation().is_none());
}

#[test]
fn a_ready_cursor_recovery_goes_before_primaries_and_blocks_its_crtc() {
    let mut admission = Admission::new();
    admission.set_composed(1, 1).unwrap();
    admission.set_composed(2, 1).unwrap();
    admission.request_cursor_recovery(2);
    assert!(admission.cursor_recovery().contains(&2));
    let mut snapshot = ReadinessSnapshot::new(0, 0);
    snapshot.report(IntentKey::Composed { crtc: 1, generation: 1 }, Readiness::Ready);
    snapshot.report(IntentKey::Composed { crtc: 2, generation: 1 }, Readiness::Ready);
    snapshot.report(IntentKey::CursorRecovery { crtc: 2 }, Readiness::Ready);
    let decision = admission.decide(&snapshot).unwrap();
    assert_eq!(decision.tier, Tier::Unflip);
    assert_eq!(decision.admitted, Admitted::CursorRecovery { crtc: 2 });
    let token = admission.lock(decision, &snapshot).unwrap();
    admission.confirm(token).unwrap();
    assert!(admission.cursor_recovery().is_empty());
    let next = admission.decide(&snapshot).unwrap();
    assert_eq!(next.tier, Tier::Primary);
}

#[test]
fn a_ready_unflip_barrier_is_admitted_with_its_crtcs() {
    let mut admission = Admission::new();
    admission.request_unflip(crtcs(&[3, 4])).unwrap();
    let mut snapshot = ReadinessSnapshot::new(0, 0);
    snapshot.report(IntentKey::Unflip, Readiness::Ready);
    let decision = admission.decide(&snapshot).unwrap();
    assert_eq!(decision.tier, Tier::Unflip);
    assert_eq!(
        decision.admitted,
        Admitted::Unflip {
            crtcs: crtcs(&[3, 4])
        }
    );
    assert_eq!(decision.primary_crtcs(), crtcs(&[3, 4]));
}

#[test]
fn a_woken_direct_successor_goes_first() {
    let mut admission = Admission::new();
    admission
        .set_direct_successor(successor(5, 7, 8, &[2]))
        .unwrap();
    let mut snapshot = ReadinessSnapshot::new(7, 8);
    snapshot.retirement_wake = true;
    snapshot.report(IntentKey::Direct { source_generation: 5 }, Readiness::Ready);
    let decision = admission.decide(&snapshot).unwrap();
    assert_eq!(decision.tier, Tier::DirectSuccessor);
    assert!(matches!(decision.admitted, Admitted::Direct { .. }));
}

#[test]
fn a_direct_successor_waits_for_an_owed_composed_crtc() {
    let mut admission = Admission::new();
    admission.set_composed(1, 1).unwrap();
    admission
        .set_direct_successor(successor(5, 7, 8, &[2]))
        .unwrap();
    let mut snapshot = ReadinessSnapshot::new(7, 8);
    snapshot.retirement_wake = true;
    snapshot.report(IntentKey::Composed { crtc: 1, generation: 1 }, Readiness::Ready);
    snapshot.report(IntentKey::Direct { source_generation: 5 }, Readiness::Ready);
    let decision = admission.decide(&snapshot).unwrap();
    assert_eq!(decision.tier, Tier::Primary);
    assert_eq!(decision.admitted, Admitted::Composed { crtc: 1, generation: 1 });
}

#[test]
fn left_behind_maintenance_ages_in_key_order_and_deciding_twice_agrees() {
    let mut admission = Admission::new();
    admission.set_composed(1, 1).unwrap();
    let gamma = MaintenanceKey {
        crtc: 2,
        class: MaintenanceClass::Gamma,
    };
    admission.set_maintenance(gamma, 1, false).unwrap();
    admission.set_maintenance(cursor(3), 1, false).unwrap();
    admission.set_maintenance(cursor(2), 1, false).unwrap();
    let mut snapshot = ReadinessSnapshot::new(0, 0);
    snapshot.report(IntentKey::Composed { crtc: 1, generation: 1 }, Readiness::Ready);
    maintenance_ready(&mut snapshot, &admission, gamma);
    maintenance_ready(&mut snapshot, &admission, cursor(3));
    maintenance_ready(&mut snapshot, &admission, cursor(2));
    let first = admission.decide(&snapshot).unwrap();
    assert_eq!(first.ages, vec![cursor(2), gamma, cursor(3)]);
    let second = admission.decide(&snapshot).unwrap();
    assert_eq!(first, second);
    assert!(admission.lock(second, &snapshot).is_ok());
}

#[test]
fn bundle_members_come_in_crtc_order() {
    let mut admission = Admission::new();
    admission.set_composed(3, 1).unwrap();
    admission.set_composed(1, 1).unwrap();
    let mut snapshot = ReadinessSnapshot::new(0, 0);
    snapshot.homogeneous_group = crtcs(&[1, 3]);
    snapshot.report(IntentKey::Composed { crtc: 1, generation: 1 }, Readiness::Ready);
    snapshot.report(IntentKey::Composed { crtc: 3, generation: 1 }, Readiness::Ready);
    let decision = admission.decide(&snapshot).unwrap();
    assert_eq!(
        decision.admitted,
        Admitted::Bundle {
            members: vec![
                Admitted::Composed { crtc: 1, generation: 1 },
                Admitted::Composed { crtc: 3, generation: 1 },
            ],
        }
    );
}

#[test]
fn a_token_locked_on_one_admission_is_refused_by_another() {
    let mut serials = kms_owner::admission::LockSerials::new();
    let mut first = Admission::new();
    let mut second = Admission::new();
    let mut snapshot = ReadinessSnapshot::new(0, 0);
    snapshot.report(IntentKey::Composed { crtc: 1, generation: 1 }, Readiness::Ready);
    first.set_composed(1, 1).unwrap();
    second.set_composed(1, 1).unwrap();
    let d1 = first.decide(&snapshot).unwrap();
    let d2 = second.decide(&snapshot).unwrap();
    let t1 = first.lock_from(&mut serials, d1, &snapshot).unwrap();
    let t2 = second.lock_from(&mut serials, d2, &snapshot).unwrap();
    assert_eq!(second.confirm(t1).unwrap_err(), AdmissionError::TokenMismatch);
    assert!(second.is_locked());
    assert_eq!(second.confirm(t2).unwrap().sequence, 1);
    assert!(first.is_locked());
}
