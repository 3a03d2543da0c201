use kms_owner::lifecycle::coordinator::{CoordinatorError, LifecycleCoordinator};
use kms_owner::lifecycle::recovery::dpms_target_for_level;
use kms_owner::lifecycle::{
    ArbiterInput, CompletionUnknownRow, CompletionUnknownRowKind, DesiredField, DesiredIntent,
    DeviceLifecycleState, Disposition, DpmsTarget, IncidentOrigin, LifecycleAction,
    LifecycleArbiter, LifecycleCommitOutcome, LifecycleEventId, LifecycleKind,
    LifecycleReceipt, LifecycleReceiptResult, RecoveryAttemptOutcome, RecoveryAttemptTrigger,
    RecoveryId, RecoveryIncidentState, SeatTarget, TopologyChangeClass, TransitionTag, table_u,
};

type Coordinator = LifecycleCoordinator<u32, u32, u32>;
type Action = LifecycleAction<u32>;

fn with_devices(device_ids: &[u32]) -> Coordinator {
    let mut coordinator = Coordinator::new();
    for device in device_ids {
        coordinator
            .add_device(*device, LifecycleArbiter::new(*device))
            .unwrap();
    }
    coordinator
}

fn add_output(coordinator: &mut Coordinator, device: u32, output: u32) {
    let addition = coordinator.add_protocol_output(&device, output).unwrap();
    assert!(addition.synchronization.is_none());
    assert!(addition.projection.is_some());
}

fn acknowledge_receipts(coordinator: &mut Coordinator, device: u32) -> TransitionTag<u32> {
    let tag = coordinator
        .device(&device)
        .and_then(LifecycleArbiter::transition_tag)
        .expect("device has an active transition");
    for receipt in LifecycleReceipt::all() {
        coordinator
            .apply_device_input(
                &device,
                ArbiterInput::Receipt {
                    tag,
                    receipt,
                    result: LifecycleReceiptResult::Succeeded,
                },
            )
            .unwrap();
    }
    tag
}

fn finish_transition(
    coordinator: &mut Coordinator,
    device: u32,
    outcome: LifecycleCommitOutcome,
) -> TransitionTag<u32> {
    let tag = acknowledge_receipts(coordinator, device);
    coordinator
        .apply_device_input(&device, ArbiterInput::CommitOutcome { tag, outcome })
        .unwrap();
    tag
}

fn row_setup(kind: CompletionUnknownRowKind, dpms_level: u8) -> Coordinator {
    let mut coordinator = with_devices(&[1]);
    match kind {
        CompletionUnknownRowKind::NormalLive => {}
        CompletionUnknownRowKind::VTRelease => {
            coordinator.set_seat_target(SeatTarget::Released).unwrap();
        }
        CompletionUnknownRowKind::DeviceRemoved => {
            coordinator
                .project_device_intent(
                    &1,
                    DesiredIntent::DevicePresence {
                        present: false,
                        identity_epoch: 1,
                    },
                )
                .unwrap();
        }
        CompletionUnknownRowKind::Shutdown => {
            coordinator.request_shutdown().unwrap();
        }
        CompletionUnknownRowKind::DeviceAddedOrReplaced => {
            coordinator.set_seat_target(SeatTarget::Owned).unwrap();
            coordinator
                .project_device_intent(
                    &1,
                    DesiredIntent::DevicePresence {
                        present: true,
                        identity_epoch: 1,
                    },
                )
                .unwrap();
        }
        CompletionUnknownRowKind::VTAcquire => {
            coordinator
                .project_device_intent(
                    &1,
                    DesiredIntent::DevicePresence {
                        present: true,
                        identity_epoch: 1,
                    },
                )
                .unwrap();
            coordinator.set_seat_target(SeatTarget::Owned).unwrap();
        }
        CompletionUnknownRowKind::AdministrativeReprobe => {
            coordinator
                .project_device_intent(&1, DesiredIntent::AdministrativeReprobe { epoch: 1 })
                .unwrap();
        }
        CompletionUnknownRowKind::IdentityChangingHotplug => {
            coordinator
                .project_device_intent(
                    &1,
                    DesiredIntent::Topology {
                        discovery_epoch: 1,
                        change_class: TopologyChangeClass::IdentityChanging,
                    },
                )
                .unwrap();
        }
        CompletionUnknownRowKind::TopologyRebuild => {
            coordinator
                .project_device_intent(
                    &1,
                    DesiredIntent::Topology {
                        discovery_epoch: 1,
                        change_class: TopologyChangeClass::SameIdentity,
                    },
                )
                .unwrap();
        }
        CompletionUnknownRowKind::DPMS => {
            add_output(&mut coordinator, 1, 10);
            coordinator.set_protocol_dpms_level(dpms_level).unwrap();
        }
    }
    coordinator
}

fn row_with_id(kind: CompletionUnknownRowKind, dpms_level: u8) -> CompletionUnknownRow {
    match kind {
        CompletionUnknownRowKind::NormalLive => CompletionUnknownRow::NormalLive,
        CompletionUnknownRowKind::VTRelease => CompletionUnknownRow::VTRelease,
        CompletionUnknownRowKind::DeviceRemoved => CompletionUnknownRow::DeviceRemoved,
        CompletionUnknownRowKind::Shutdown => CompletionUnknownRow::Shutdown,
        CompletionUnknownRowKind::DeviceAddedOrReplaced => {
            CompletionUnknownRow::DeviceAddedOrReplaced {
                recovery_id: RecoveryId::from_raw(1),
            }
        }
        CompletionUnknownRowKind::VTAcquire => CompletionUnknownRow::VTAcquire {
            recovery_id: RecoveryId::from_raw(1),
        },
        CompletionUnknownRowKind::AdministrativeReprobe => {
            CompletionUnknownRow::AdministrativeReprobe {
                recovery_id: RecoveryId::from_raw(1),
            }
        }
        CompletionUnknownRowKind::IdentityChangingHotplug => {
            CompletionUnknownRow::IdentityChangingHotplug {
                recovery_id: RecoveryId::from_raw(1),
            }
        }
        CompletionUnknownRowKind::TopologyRebuild => CompletionUnknownRow::TopologyRebuild,
        CompletionUnknownRowKind::DPMS => CompletionUnknownRow::DPMS {
            target: dpms_target_for_level(dpms_level).expect("valid test DPMS level"),
        },
    }
}

fn complete_recovery_attempt(
    coordinator: &mut Coordinator,
    result: RecoveryAttemptOutcome,
) -> (RecoveryId, TransitionTag<u32>) {
    let tag = acknowledge_receipts(coordinator, 1);
    let recovery_id = match coordinator.device(&1).unwrap().recovery() {
        Some(incident) => incident.id(),
        None => panic!("Table U created a recovery incident"),
    };
    coordinator
        .recovery_attempt(
            &1,
            tag,
            RecoveryAttemptOutcome::Started(RecoveryAttemptTrigger::AfterReap),
        )
        .unwrap();
    assert_eq!(
        coordinator.device(&1).unwrap().state(),
        DeviceLifecycleState::Recovering(recovery_id)
    );
    coordinator.recovery_attempt(&1, tag, result).unwrap();
    (recovery_id, tag)
}

#[test]
fn c0_3a_dpms_projects_one_epoch_to_every_device() {
    let mut coordinator = with_devices(&[1, 2, 3]);
    for device in 1..=3 {
        add_output(&mut coordinator, device, device * 10);
        add_output(&mut coordinator, device, device * 10 + 1);
    }

    for level in 1..=3 {
        let dispatches = coordinator.set_protocol_dpms_level(level).unwrap();
        let epoch = coordinator.dpms_epoch();
        assert_eq!(epoch, u64::from(level));
        assert_eq!(dispatches.len(), 3);
        assert_eq!(
            dispatches
                .iter()
                .map(|dispatch| dispatch.event_id)
                .collect::<std::collections::BTreeSet<_>>()
                .len(),
            3,
            "one coordinator id per device"
        );
        for device in 1..=3 {
            let added = coordinator
                .add_protocol_output(&device, device * 100 + u32::from(level))
                .unwrap()
                .projection
                .unwrap();
            assert_eq!(added.level, level);
            assert_eq!(added.epoch, Some(epoch));
            let arbiter = coordinator.device(&device).unwrap();
            let representative = arbiter
                .desired()
                .representative(DesiredField::Dpms)
                .unwrap();
            assert_eq!(representative.kind, LifecycleKind::DPMS);
            assert_eq!(
                arbiter.desired().dpms_targets().len(),
                2 + usize::from(level),
                "both outputs share the device representative"
            );
            for projection in arbiter.desired().dpms_targets().values() {
                assert_eq!(projection.level, level);
                assert_eq!(projection.epoch, Some(epoch));
                assert_eq!(projection.representative, Some(representative.event_id));
                assert_eq!(
                    dpms_target_for_level(projection.level),
                    Some(DpmsTarget::Off),
                    "levels 1, 2, and 3 all request off"
                );
            }
        }
    }
}

#[test]
fn c0_3aii_one_dpms_level_mapping() {
    for (level, expected) in [
        (0, DpmsTarget::On),
        (1, DpmsTarget::Off),
        (2, DpmsTarget::Off),
        (3, DpmsTarget::Off),
    ] {
        assert_eq!(dpms_target_for_level(level), Some(expected));

        let mut coordinator = with_devices(&[1]);
        add_output(&mut coordinator, 1, 10);
        coordinator.set_protocol_dpms_level(level).unwrap();
        let projected = coordinator
            .device(&1)
            .unwrap()
            .desired()
            .dpms_targets()
            .get(&10)
            .expect("projected output");
        assert_eq!(dpms_target_for_level(projected.level), Some(expected));

        let loss = coordinator.report_completion_loss(&1).unwrap();
        assert!(loss.actions.iter().any(|action| matches!(
            action,
            LifecycleAction::CompletionLossTableU {
                row: CompletionUnknownRow::DPMS { target },
                ..
            } if *target == expected
        )));
    }
}

#[test]
fn c0_3a_protocol_applied_only_when_every_device_applied() {
    let mut coordinator = with_devices(&[1, 2, 3]);
    for device in 1..=3 {
        add_output(&mut coordinator, device, device * 10);
    }
    coordinator.set_protocol_dpms_level(1).unwrap();

    finish_transition(
        &mut coordinator,
        1,
        LifecycleCommitOutcome::Completed {
            dpms_projections_retired: true,
        },
    );
    finish_transition(
        &mut coordinator,
        2,
        LifecycleCommitOutcome::Rejected {
            topology_latched_generation: Some(7),
        },
    );
    let removal = coordinator.remove_protocol_output(&3, &30).unwrap();
    assert_eq!(
        removal.unwrap().projection.representative,
        Some(
            coordinator
                .device(&3)
                .unwrap()
                .desired()
                .representative(DesiredField::Dpms)
                .unwrap()
                .event_id
        )
    );
    assert!(!coordinator.protocol_dpms_request_applied());

    coordinator
        .project_device_intent(
            &2,
            DesiredIntent::Topology {
                discovery_epoch: 8,
                change_class: TopologyChangeClass::SameIdentity,
            },
        )
        .unwrap();
    finish_transition(
        &mut coordinator,
        2,
        LifecycleCommitOutcome::Completed {
            dpms_projections_retired: true,
        },
    );
    finish_transition(
        &mut coordinator,
        2,
        LifecycleCommitOutcome::Completed {
            dpms_projections_retired: true,
        },
    );
    assert!(coordinator.protocol_dpms_request_applied());

    let mut terminal = with_devices(&[4]);
    add_output(&mut terminal, 4, 40);
    terminal.set_protocol_dpms_level(1).unwrap();
    terminal.request_shutdown().unwrap();
    assert_eq!(
        terminal.dpms_terminal_outcome(&4),
        Some(Disposition::Invalidated(
            kms_owner::lifecycle::InvalidationReason::Shutdown
        ))
    );
    assert!(!terminal.protocol_dpms_request_applied());
}

#[test]
fn c0_3a_shutdown_is_monotonic() {
    let mut coordinator = with_devices(&[1, 2]);
    coordinator.request_shutdown().unwrap();
    assert!(coordinator.shutdown_requested());
    coordinator.set_seat_target(SeatTarget::Owned).unwrap();
    assert!(coordinator.shutdown_requested());
    assert_eq!(coordinator.seat_target(), Some(SeatTarget::Owned));
    for device in [1, 2] {
        assert!(
            coordinator
                .device(&device)
                .unwrap()
                .desired()
                .shutdown_requested()
        );
    }
}

#[test]
fn c0_3a_loss_report_gets_a_coordinator_event_id() {
    let mut coordinator = with_devices(&[1, 2]);
    let dispatch = coordinator.report_completion_loss(&1).unwrap();
    assert_eq!(dispatch.event_id, LifecycleEventId::from_raw(1));
    let incident = coordinator.device(&1).unwrap().recovery().unwrap();
    assert_eq!(incident.representative(), Some(dispatch.event_id));
    let representative = coordinator
        .device(&1)
        .unwrap()
        .desired()
        .representative(DesiredField::Recovery)
        .unwrap();
    assert_eq!(representative.event_id, dispatch.event_id);
    assert_eq!(representative.disposition, None);
    assert!(coordinator.device(&2).unwrap().recovery().is_none());
    assert!(
        coordinator
            .device(&2)
            .unwrap()
            .desired()
            .representative(DesiredField::Recovery)
            .is_none()
    );

    let second = coordinator.report_completion_loss(&1).unwrap();
    assert_eq!(second.event_id, LifecycleEventId::from_raw(2));
    assert_eq!(coordinator.device(&1).unwrap().recovery(), Some(incident));
    assert_eq!(
        coordinator
            .device(&1)
            .unwrap()
            .desired()
            .representative(DesiredField::Recovery)
            .unwrap()
            .event_id,
        dispatch.event_id
    );
    assert!(second.actions.iter().any(|action| matches!(
        action,
        Action::DispositionChanged {
            event_id,
            disposition: Disposition::AbsorbedByEvent(representative),
        } if *event_id == second.event_id && *representative == dispatch.event_id
    )));
}

#[test]
fn c0_3a_loss_reaches_table_u_through_the_arbiter() {
    let cases = [
        (CompletionUnknownRowKind::NormalLive, 0),
        (CompletionUnknownRowKind::VTRelease, 0),
        (CompletionUnknownRowKind::DeviceRemoved, 0),
        (CompletionUnknownRowKind::Shutdown, 0),
        (CompletionUnknownRowKind::DeviceAddedOrReplaced, 0),
        (CompletionUnknownRowKind::VTAcquire, 0),
        (CompletionUnknownRowKind::AdministrativeReprobe, 0),
        (CompletionUnknownRowKind::IdentityChangingHotplug, 0),
        (CompletionUnknownRowKind::TopologyRebuild, 0),
        (CompletionUnknownRowKind::DPMS, 0),
        (CompletionUnknownRowKind::DPMS, 1),
    ];
    for (kind, level) in cases {
        for resolution in [
            RecoveryAttemptOutcome::Qualified,
            RecoveryAttemptOutcome::FailedOrUnknown,
        ] {
            let creates_incident = matches!(
                kind,
                CompletionUnknownRowKind::NormalLive
                    | CompletionUnknownRowKind::TopologyRebuild
                    | CompletionUnknownRowKind::DPMS
            );
            if !creates_incident && resolution == RecoveryAttemptOutcome::FailedOrUnknown {
                continue;
            }

            let mut coordinator = row_setup(kind, level);
            let dispatch = coordinator.report_completion_loss(&1).unwrap();
            let row = row_with_id(kind, level);
            let expected = table_u(row, dispatch.event_id, None);
            assert!(
                dispatch.actions.iter().any(|action| matches!(
                    action,
                    Action::CompletionLossTableU { row: actual_row, outcome }
                        if *actual_row == row && *outcome == expected
                )),
                "Table U handoff differed for {kind:?}, level {level}"
            );
            assert!(dispatch.actions.iter().any(|action| matches!(
                action,
                Action::CompletionBarriersRequired(outcome) if *outcome == expected
            )));
            assert_eq!(
                dispatch
                    .actions
                    .iter()
                    .any(|action| matches!(action, Action::ReleaseSeat(_))),
                expected.logical.release_seat,
                "seat action differed for {kind:?}"
            );
            assert_eq!(
                dispatch
                    .actions
                    .iter()
                    .any(|action| matches!(action, Action::WithdrawOutputs(_))),
                expected.logical.withdraw_protocol_work,
                "withdraw action differed for {kind:?}"
            );
            assert_eq!(
                dispatch
                    .actions
                    .iter()
                    .any(|action| matches!(action, Action::TerminalizeProtocolWork(_))),
                expected.logical.withdraw_protocol_work,
                "protocol terminalization differed for {kind:?}"
            );
            assert_eq!(
                coordinator.device(&1).unwrap().admission_open(),
                !expected.logical.stop_admission,
                "admission outcome differed for {kind:?}"
            );

            if let Some(seed) = expected.recovery.new_incident {
                let incident = coordinator.device(&1).unwrap().recovery().unwrap();
                assert_eq!(incident.representative(), Some(dispatch.event_id));
                assert_eq!(incident.state(), seed.initial_state);
                assert_eq!(
                    incident.budget(),
                    kms_owner::lifecycle::RecoveryAttemptBudget::Available
                );
                let representative = coordinator
                    .device(&1)
                    .unwrap()
                    .desired()
                    .representative(DesiredField::Recovery)
                    .unwrap();
                assert_eq!(representative.event_id, dispatch.event_id);
                assert_eq!(representative.disposition, None);

                if incident.state() == RecoveryIncidentState::Paused {
                    coordinator.set_protocol_dpms_level(0).unwrap();
                }
                let (_, attempt_tag) = complete_recovery_attempt(&mut coordinator, resolution);
                let disposition = coordinator
                    .device(&1)
                    .unwrap()
                    .desired()
                    .representative(DesiredField::Recovery)
                    .unwrap()
                    .disposition;
                match resolution {
                    RecoveryAttemptOutcome::Qualified => {
                        assert_eq!(
                            disposition,
                            Some(Disposition::Applied(attempt_tag.transition))
                        );
                        assert_eq!(
                            coordinator.device(&1).unwrap().state(),
                            DeviceLifecycleState::Ready
                        );
                    }
                    RecoveryAttemptOutcome::FailedOrUnknown => {
                        assert_eq!(
                            disposition,
                            Some(Disposition::Invalidated(
                                kms_owner::lifecycle::InvalidationReason::RecoveryFailed
                            ))
                        );
                        assert_eq!(
                            coordinator.device(&1).unwrap().state(),
                            DeviceLifecycleState::RecoveryFailed
                        );
                    }
                    RecoveryAttemptOutcome::Started(_) => unreachable!(),
                }
            } else {
                assert_eq!(
                    coordinator.device(&1).unwrap().recovery(),
                    expected.recovery.current_incident,
                    "incident fate differed for {kind:?}"
                );
                let terminal = match expected.logical.event {
                    kms_owner::lifecycle::EventFate::Terminal {
                        event_id,
                        disposition,
                    } => Some((event_id, disposition)),
                    kms_owner::lifecycle::EventFate::PendingRepresentative(_) => None,
                };
                if let Some((event_id, disposition)) = terminal {
                    assert!(
                        dispatch.actions.iter().any(|action| matches!(
                            action,
                            Action::DispositionChanged {
                                event_id: actual_id,
                                disposition: actual_disposition,
                            } if *actual_id == event_id && *actual_disposition == disposition
                        )),
                        "event disposition differed for {kind:?}"
                    );
                } else if let kms_owner::lifecycle::EventFate::PendingRepresentative(
                    representative,
                ) = expected.logical.event
                {
                    assert_eq!(
                        coordinator
                            .device(&1)
                            .unwrap()
                            .recovery()
                            .and_then(|incident| incident.representative()),
                        Some(representative),
                        "pending representative differed for {kind:?}"
                    );
                }
            }
        }
    }
}

#[test]
fn c0_3a_recovery_outcome_settles_the_incident() {
    let mut successful = with_devices(&[1]);
    successful.report_completion_loss(&1).unwrap();
    let success_tag = acknowledge_receipts(&mut successful, 1);
    let recovery_id = successful.device(&1).unwrap().recovery().unwrap().id();
    assert!(
        successful
            .recovery_attempt(
                &1,
                success_tag,
                RecoveryAttemptOutcome::Started(RecoveryAttemptTrigger::Timer),
            )
            .unwrap()
            .is_empty()
    );
    assert_eq!(
        successful.device(&1).unwrap().state(),
        DeviceLifecycleState::Poisoned,
        "a non-AfterReap trigger is unauthorized"
    );
    successful
        .recovery_attempt(
            &1,
            success_tag,
            RecoveryAttemptOutcome::Started(RecoveryAttemptTrigger::AfterReap),
        )
        .unwrap();
    assert_eq!(
        successful.device(&1).unwrap().state(),
        DeviceLifecycleState::Recovering(recovery_id)
    );
    successful
        .recovery_attempt(&1, success_tag, RecoveryAttemptOutcome::Qualified)
        .unwrap();
    assert_eq!(
        successful.device(&1).unwrap().state(),
        DeviceLifecycleState::Ready
    );
    assert_eq!(
        successful
            .device(&1)
            .unwrap()
            .desired()
            .representative(DesiredField::Recovery)
            .unwrap()
            .disposition,
        Some(Disposition::Applied(success_tag.transition))
    );
    assert!(successful.device(&1).unwrap().recovery().is_none());

    let mut failed = with_devices(&[1]);
    let failed_report = failed.report_completion_loss(&1).unwrap();
    let failed_id = failed.device(&1).unwrap().recovery().unwrap().id();
    let failed_tag = acknowledge_receipts(&mut failed, 1);
    failed
        .recovery_attempt(
            &1,
            failed_tag,
            RecoveryAttemptOutcome::Started(RecoveryAttemptTrigger::AfterReap),
        )
        .unwrap();
    failed
        .recovery_attempt(&1, failed_tag, RecoveryAttemptOutcome::FailedOrUnknown)
        .unwrap();
    assert_eq!(
        failed.device(&1).unwrap().state(),
        DeviceLifecycleState::RecoveryFailed
    );
    assert_eq!(
        failed
            .device(&1)
            .unwrap()
            .desired()
            .representative(DesiredField::Recovery)
            .unwrap()
            .disposition,
        Some(Disposition::Invalidated(
            kms_owner::lifecycle::InvalidationReason::RecoveryFailed
        ))
    );
    assert_eq!(
        failed.device(&1).unwrap().recovery().unwrap().id(),
        failed_id
    );
    assert_eq!(
        failed_report.event_id,
        failed
            .device(&1)
            .unwrap()
            .recovery()
            .unwrap()
            .representative()
            .unwrap()
    );

    let mut unauthorized = with_devices(&[1]);
    unauthorized
        .project_device_intent(&1, DesiredIntent::AdministrativeReprobe { epoch: 1 })
        .unwrap();
    let unauthorized_tag = acknowledge_receipts(&mut unauthorized, 1);
    unauthorized
        .recovery_attempt(
            &1,
            unauthorized_tag,
            RecoveryAttemptOutcome::Started(RecoveryAttemptTrigger::AfterReap),
        )
        .unwrap();
    assert_eq!(
        unauthorized.device(&1).unwrap().state(),
        DeviceLifecycleState::Ready,
        "a table with no recovery incident did not authorize an attempt"
    );

    let mut stale = with_devices(&[1]);
    stale.report_completion_loss(&1).unwrap();
    let stale_tag = acknowledge_receipts(&mut stale, 1);
    stale
        .recovery_attempt(
            &1,
            stale_tag,
            RecoveryAttemptOutcome::Started(RecoveryAttemptTrigger::AfterReap),
        )
        .unwrap();
    stale
        .project_device_intent(
            &1,
            DesiredIntent::Topology {
                discovery_epoch: 1,
                change_class: TopologyChangeClass::SameIdentity,
            },
        )
        .unwrap();
    let current_tag = acknowledge_receipts(&mut stale, 1);
    assert_ne!(stale_tag.transition, current_tag.transition);
    let state_before = stale.device(&1).unwrap().state();
    let transition_before = stale.device(&1).unwrap().transition();
    let recovery_before = stale.device(&1).unwrap().recovery();
    let disposition_before = stale
        .device(&1)
        .unwrap()
        .desired()
        .representative(DesiredField::Recovery)
        .and_then(|representative| representative.disposition);
    stale
        .recovery_attempt(&1, stale_tag, RecoveryAttemptOutcome::Qualified)
        .unwrap();
    assert_eq!(stale.device(&1).unwrap().state(), state_before);
    assert_eq!(stale.device(&1).unwrap().transition(), transition_before);
    assert_eq!(stale.device(&1).unwrap().recovery(), recovery_before);
    assert_eq!(
        stale
            .device(&1)
            .unwrap()
            .desired()
            .representative(DesiredField::Recovery)
            .and_then(|representative| representative.disposition),
        disposition_before
    );

    let mut boundary = with_devices(&[1]);
    boundary.report_completion_loss(&1).unwrap();
    boundary.set_seat_target(SeatTarget::Owned).unwrap();
    boundary
        .project_device_intent(
            &1,
            DesiredIntent::DevicePresence {
                present: true,
                identity_epoch: 2,
            },
        )
        .unwrap();
    let boundary_incident = boundary.device(&1).unwrap().recovery().unwrap();
    assert_eq!(boundary_incident.origin(), IncidentOrigin::Boundary);
    assert_eq!(boundary_incident.representative(), None);
    let boundary_tag = acknowledge_receipts(&mut boundary, 1);
    boundary
        .recovery_attempt(
            &1,
            boundary_tag,
            RecoveryAttemptOutcome::Started(RecoveryAttemptTrigger::AfterReap),
        )
        .unwrap();
    boundary
        .recovery_attempt(&1, boundary_tag, RecoveryAttemptOutcome::Qualified)
        .unwrap();
    assert!(boundary.device(&1).unwrap().recovery().is_none());
    assert_eq!(
        boundary.device(&1).unwrap().state(),
        DeviceLifecycleState::Ready
    );
    assert!(
        boundary
            .device(&1)
            .unwrap()
            .desired()
            .representative(DesiredField::Presence)
            .is_some_and(|representative| {
                representative.disposition
                    == Some(Disposition::Applied(boundary_tag.transition))
            })
    );
}

#[test]
fn c0_3a_devices_converge_independently() {
    let mut coordinator = with_devices(&[1, 2]);
    add_output(&mut coordinator, 1, 10);
    add_output(&mut coordinator, 2, 20);
    coordinator.set_protocol_dpms_level(1).unwrap();
    assert!(coordinator.device(&1).unwrap().transition().is_some());
    assert!(coordinator.device(&2).unwrap().transition().is_some());

    finish_transition(
        &mut coordinator,
        2,
        LifecycleCommitOutcome::Completed {
            dpms_projections_retired: true,
        },
    );
    assert_eq!(
        coordinator.device(&2).unwrap().state(),
        DeviceLifecycleState::Ready
    );
    assert!(coordinator.device(&2).unwrap().transition().is_none());
    assert!(coordinator.device(&1).unwrap().transition().is_some());
    assert!(!coordinator.protocol_dpms_request_applied());

    finish_transition(
        &mut coordinator,
        1,
        LifecycleCommitOutcome::Completed {
            dpms_projections_retired: true,
        },
    );
    assert!(coordinator.protocol_dpms_request_applied());
}

#[test]
fn c0_3a_coordinator_rejects_direct_global_and_driver_event_inputs() {
    let mut coordinator = with_devices(&[1]);
    assert_eq!(
        coordinator.project_device_intent(&1, DesiredIntent::Shutdown),
        Err(CoordinatorError::GlobalIntentRequiresCoordinator)
    );
    assert_eq!(
        coordinator.apply_device_input(
            &1,
            ArbiterInput::CompletionUnknown {
                event_id: LifecycleEventId::from_raw(99),
                boundary_recovery_id: None,
            },
        ),
        Err(CoordinatorError::CoordinatorOwnedInput)
    );
    assert_eq!(
        coordinator.apply_device_input(
            &1,
            ArbiterInput::SeatTargetObserved {
                target: SeatTarget::Released,
                epoch: 1,
            },
        ),
        Err(CoordinatorError::CoordinatorOwnedInput)
    );
}

#[test]
fn shutdown_reaches_every_device_once_under_consecutive_ids() {
    let mut coordinator = with_devices(&[3, 1, 2]);
    let dispatches = coordinator.request_shutdown().unwrap();
    assert_eq!(dispatches.len(), 3);
    let mut devices: Vec<u32> = dispatches.iter().map(|d| d.device).collect();
    devices.sort();
    assert_eq!(devices, vec![1, 2, 3]);
    for (k, dispatch) in dispatches.iter().enumerate() {
        assert_eq!(dispatch.event_id, LifecycleEventId::from_raw(1 + k as u64));
    }
    assert!(coordinator.shutdown_requested());
}

#[test]
fn dpms_reaches_only_devices_with_outputs() {
    let mut coordinator = with_devices(&[1, 2]);
    add_output(&mut coordinator, 1, 10);
    let dispatches = coordinator.set_protocol_dpms_level(1).unwrap();
    assert_eq!(dispatches.len(), 1);
    assert_eq!(dispatches[0].device, 1);
    assert_eq!(coordinator.protocol_dpms_level(), 1);
    assert_eq!(coordinator.dpms_epoch(), 1);
}

#[test]
fn an_unknown_device_gets_no_event() {
    let mut coordinator = with_devices(&[1]);
    assert_eq!(
        coordinator.project_device_intent(
            &7,
            DesiredIntent::AdministrativeReprobe { epoch: 1 }
        ),
        Err(CoordinatorError::UnknownDevice)
    );
    assert_eq!(
        coordinator.report_completion_loss(&7),
        Err(CoordinatorError::UnknownDevice)
    );
}

#[test]
fn refused_inputs_leave_the_coordinator_as_it_was() {
    let mut coordinator = with_devices(&[1, 2]);
    add_output(&mut coordinator, 1, 10);
    coordinator.set_protocol_dpms_level(1).unwrap();
    let epoch = coordinator.dpms_epoch();
    assert_eq!(
        coordinator.set_protocol_dpms_level(4),
        Err(CoordinatorError::InvalidDpmsLevel(4))
    );
    assert_eq!(coordinator.dpms_epoch(), epoch);
    assert_eq!(coordinator.protocol_dpms_level(), 1);
    assert_eq!(
        coordinator.report_completion_loss(&7),
        Err(CoordinatorError::UnknownDevice)
    );
    assert_eq!(
        coordinator.apply_device_input(
            &1,
            ArbiterInput::CompletionUnknown {
                event_id: LifecycleEventId::from_raw(99),
                boundary_recovery_id: None,
            }
        ),
        Err(CoordinatorError::CoordinatorOwnedInput)
    );
    let dispatch = coordinator.report_completion_loss(&2).unwrap();
    assert_eq!(dispatch.event_id, LifecycleEventId::from_raw(2));
    assert!(coordinator.device(&1).unwrap().recovery().is_none());
}

#[test]
fn a_joining_device_receives_the_recorded_shutdown() {
    let mut coordinator = with_devices(&[1]);
    coordinator.request_shutdown().unwrap();
    assert!(coordinator.device(&1).unwrap().desired().shutdown_requested());
    let joined = coordinator
        .add_device(2, LifecycleArbiter::new(2))
        .unwrap();
    assert_eq!(joined.len(), 1);
    assert_eq!(joined[0].device, 2);
    assert_eq!(joined[0].event_id, LifecycleEventId::from_raw(2));
    assert!(coordinator.device(&2).unwrap().desired().shutdown_requested());
    assert_eq!(
        coordinator.add_device(2, LifecycleArbiter::new(2)),
        Err(CoordinatorError::DuplicateDevice)
    );
}
