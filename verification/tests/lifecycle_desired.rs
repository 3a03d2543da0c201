use kms_owner::lifecycle::desired::{
    DesiredField, DesiredIntent, DispositionChange, LifecycleDesired, OutputProjection, SeatTarget,
    TopologyChangeClass,
};
use kms_owner::lifecycle::{
    Disposition, InvalidationReason, LifecycleEventId, LifecycleKind, LifecycleTransitionId,
    Prerequisite, RecoveryId,
};

fn event(raw: u64) -> LifecycleEventId {
    LifecycleEventId::from_raw(raw)
}

fn intent_for(kind: LifecycleKind, generation: u64) -> DesiredIntent {
    match kind {
        LifecycleKind::Shutdown => DesiredIntent::Shutdown,
        LifecycleKind::DeviceRemoved => DesiredIntent::DevicePresence {
            present: false,
            identity_epoch: generation,
        },
        LifecycleKind::VTRelease => DesiredIntent::Seat {
            target: SeatTarget::Released,
            epoch: generation,
        },
        LifecycleKind::DeviceAddedOrReplaced => DesiredIntent::DevicePresence {
            present: true,
            identity_epoch: generation,
        },
        LifecycleKind::VTAcquire => DesiredIntent::Seat {
            target: SeatTarget::Owned,
            epoch: generation,
        },
        LifecycleKind::AdministrativeReprobe => {
            DesiredIntent::AdministrativeReprobe { epoch: generation }
        }
        LifecycleKind::IdentityChangingHotplug => DesiredIntent::Topology {
            discovery_epoch: generation,
            change_class: TopologyChangeClass::IdentityChanging,
        },
        LifecycleKind::TopologyRebuild => DesiredIntent::Topology {
            discovery_epoch: generation,
            change_class: TopologyChangeClass::SameIdentity,
        },
        LifecycleKind::DPMS => DesiredIntent::Dpms {
            level: (generation % 4) as u8,
            epoch: generation,
        },
        LifecycleKind::NormalRecovery => DesiredIntent::NormalRecovery {
            recovery_id: RecoveryId::from_raw(generation),
        },
    }
}

fn field_for(kind: LifecycleKind) -> DesiredField {
    intent_for(kind, 1).field()
}

#[test]
fn c0_3a_equal_kind_coalescing_table() {
    for kind in LifecycleKind::all() {
        let mut desired = LifecycleDesired::<u32>::default();
        if kind == LifecycleKind::DPMS {
            desired.add_protocol_output(7);
        }

        let first = event(1);
        let second = event(2);
        let first_result = desired.project(first, intent_for(kind, 1));
        assert_eq!(first_result.event_disposition, None, "{kind:?}");

        let second_result = desired.project(second, intent_for(kind, 2));
        let representative = desired.representative(field_for(kind)).unwrap();

        if matches!(
            kind,
            LifecycleKind::Shutdown
                | LifecycleKind::DeviceRemoved
                | LifecycleKind::NormalRecovery
        ) {
            assert_eq!(
                second_result.event_disposition,
                Some(Disposition::AbsorbedByEvent(first)),
                "{kind:?}"
            );
            assert!(second_result.terminalized.is_empty(), "{kind:?}");
            assert_eq!(representative.event_id, first, "{kind:?}");
        } else {
            assert_eq!(second_result.event_disposition, None, "{kind:?}");
            assert_eq!(
                second_result.terminalized,
                [DispositionChange {
                    event_id: first,
                    disposition: Disposition::SupersededBy(second),
                }],
                "{kind:?}"
            );
            assert_eq!(representative.event_id, second, "{kind:?}");
        }

        if matches!(
            kind,
            LifecycleKind::TopologyRebuild | LifecycleKind::IdentityChangingHotplug
        ) {
            assert_eq!(desired.discovery_epoch(), Some(2), "{kind:?}");
        }
    }
}

#[test]
fn c0_3a_storm_stays_bounded() {
    let mut desired = LifecycleDesired::<u32>::default();
    for output in 0..4 {
        desired.add_protocol_output(output);
    }

    for index in 0..10_000_u64 {
        let kind = if index == 9_999 {
            LifecycleKind::Shutdown
        } else {
            LifecycleKind::all()[(index as usize % (LifecycleKind::all().len() - 1)) + 1]
        };
        let id = event(index + 1);
        let result = desired.project(id, intent_for(kind, index + 1));
        assert!(
            result
                .terminalized
                .iter()
                .all(|change| change.disposition.is_terminal()),
            "event {id:?} left a displaced representative nonterminal"
        );
        if let Some(disposition) = result.event_disposition {
            assert!(disposition.is_terminal(), "event {id:?}: {disposition:?}");
        } else {
            assert!(
                desired
                    .representatives()
                    .iter()
                    .any(|representative| representative.event_id == id),
                "unclassified event {id:?} was neither retained nor terminalized"
            );
        }
        assert!(
            desired.retained_representative_count()
                <= LifecycleDesired::<u32>::REPRESENTATIVE_FIELD_COUNT,
            "representative ledger grew with event count"
        );
        assert!(desired.dpms_targets().len() <= 4);
    }
    assert_eq!(desired.retained_representative_count(), 1);
    assert_eq!(
        desired.representative(DesiredField::Shutdown).unwrap().kind,
        LifecycleKind::Shutdown
    );
}

#[test]
fn c0_3a_terminal_disposition_is_immutable() {
    for terminal in Disposition::all()
        .into_iter()
        .filter(|value| value.is_terminal())
    {
        let mut desired = LifecycleDesired::<u32>::default();
        let id = event(1);
        desired.project(
            id,
            DesiredIntent::Seat {
                target: SeatTarget::Owned,
                epoch: 1,
            },
        );
        assert!(desired.set_disposition(id, terminal));
        assert!(
            !desired.set_disposition(id, Disposition::Deferred(Prerequisite::SeatReleased))
        );
        assert_eq!(desired.disposition(id), Some(terminal));
    }
}

fn deferred_presence() -> (LifecycleDesired<u32>, LifecycleEventId) {
    let mut desired = LifecycleDesired::default();
    desired.project(
        event(1),
        DesiredIntent::Seat {
            target: SeatTarget::Released,
            epoch: 1,
        },
    );
    let presence = event(2);
    desired.project(
        presence,
        DesiredIntent::DevicePresence {
            present: true,
            identity_epoch: 1,
        },
    );
    assert!(
        desired.set_disposition(presence, Disposition::Deferred(Prerequisite::SeatReleased))
    );
    (desired, presence)
}

#[test]
fn c0_3a_deferred_reaches_one_terminal() {
    let (mut acquired, acquired_presence) = deferred_presence();
    acquired.project(
        event(3),
        DesiredIntent::Seat {
            target: SeatTarget::Owned,
            epoch: 2,
        },
    );
    let applied = Disposition::Applied(LifecycleTransitionId::from_raw(1));
    assert!(acquired.resolve_deferred(acquired_presence, applied));
    assert_eq!(acquired.disposition(acquired_presence), Some(applied));

    let (mut shutdown, shutdown_presence) = deferred_presence();
    let shutdown_result = shutdown.project(event(3), DesiredIntent::Shutdown);
    let invalidated = Disposition::Invalidated(InvalidationReason::Shutdown);
    assert!(
        shutdown_result
            .terminalized
            .contains(&DispositionChange {
                event_id: shutdown_presence,
                disposition: invalidated,
            })
    );
    assert_eq!(shutdown.disposition(shutdown_presence), None);

    let (mut replaced, replaced_presence) = deferred_presence();
    let newer = event(3);
    let replacement_result = replaced.project(
        newer,
        DesiredIntent::DevicePresence {
            present: true,
            identity_epoch: 2,
        },
    );
    assert_eq!(
        replacement_result.terminalized,
        [DispositionChange {
            event_id: replaced_presence,
            disposition: Disposition::SupersededBy(newer),
        }]
    );
}

#[test]
fn c0_3a_projection_follows_the_output_domain() {
    let mut desired = LifecycleDesired::default();
    let initial = desired.add_protocol_output(10).unwrap();
    desired.add_protocol_output(20).unwrap();
    assert_eq!(initial.level, 0);

    let event_id = event(1);
    desired.project(event_id, DesiredIntent::Dpms { level: 3, epoch: 7 });
    assert_eq!(desired.protocol_dpms_level(), 3);
    assert_eq!(desired.projected_dpms_epoch(), Some(7));
    for projection in desired.dpms_targets().values() {
        assert_eq!(
            *projection,
            OutputProjection {
                level: 3,
                epoch: Some(7),
                representative: Some(event_id),
            }
        );
    }

    let inherited = desired.add_protocol_output(30).unwrap();
    assert_eq!(inherited.level, 3);
    assert_eq!(inherited.epoch, Some(7));
    assert_eq!(inherited.representative, Some(event_id));

    let removed = desired.remove_protocol_output(&20).unwrap();
    assert_eq!(removed.projection.representative, Some(event_id));
    assert_eq!(removed.reason, InvalidationReason::ProtocolOutputRemoved);
    assert_eq!(desired.remove_protocol_output(&20), None);
    assert_eq!(desired.disposition(event_id), None);
    assert!(desired.dpms_targets().contains_key(&10));
    assert!(desired.dpms_targets().contains_key(&30));
    assert!(!desired.dpms_targets().contains_key(&20));
}
