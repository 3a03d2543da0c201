use kms_owner::lifecycle::recovery::{
    CompletionUnknownRow, CompletionUnknownRowKind, DpmsTarget, EventFate, IncidentOrigin,
    IncidentSeed, LogicalUnknownActions, PhysicalBarriers, PhysicalUnknownOutcome,
    RecoveryAttemptBudget, RecoveryAttemptTrigger, RecoveryIdAllocator, RecoveryIncident,
    RecoveryIncidentState, RecoveryResolution, RecoveryWinner, table_f, table_u,
};
use kms_owner::lifecycle::{
    DesiredIntent, Disposition, InvalidationReason, LifecycleDesired, LifecycleEventId,
    LifecycleKind, LifecycleTransitionId, Prerequisite,
};

fn event(raw: u64) -> LifecycleEventId {
    LifecycleEventId::from_raw(raw)
}

fn incident(state: RecoveryIncidentState, representative: Option<u64>) -> RecoveryIncident {
    let origin = representative.map_or(IncidentOrigin::Boundary, |raw| {
        IncidentOrigin::CompletionLoss {
            representative: event(raw),
        }
    });
    let seed = IncidentSeed {
        origin,
        initial_state: match state {
            RecoveryIncidentState::Active | RecoveryIncidentState::Paused => {
                RecoveryIncidentState::Active
            }
            RecoveryIncidentState::Attempting | RecoveryIncidentState::RecoveryFailed => {
                RecoveryIncidentState::Active
            }
        },
    };
    let mut result =
        RecoveryIncident::from_seed(RecoveryIdAllocator::new().allocate().unwrap(), seed);
    match state {
        RecoveryIncidentState::Active => {}
        RecoveryIncidentState::Paused => assert!(result.pause()),
        RecoveryIncidentState::Attempting => assert!(result.begin_attempt()),
        RecoveryIncidentState::RecoveryFailed => {
            assert!(result.begin_attempt());
            result = result.resolve(RecoveryResolution::Failed).incident.unwrap();
        }
    }
    result
}

fn row(kind: CompletionUnknownRowKind) -> CompletionUnknownRow {
    let id = kms_owner::lifecycle::RecoveryId::from_raw(
        100 + CompletionUnknownRowKind::all()
            .iter()
            .position(|candidate| *candidate == kind)
            .unwrap() as u64,
    );
    match kind {
        CompletionUnknownRowKind::NormalLive => CompletionUnknownRow::NormalLive,
        CompletionUnknownRowKind::VTRelease => CompletionUnknownRow::VTRelease,
        CompletionUnknownRowKind::DeviceRemoved => CompletionUnknownRow::DeviceRemoved,
        CompletionUnknownRowKind::Shutdown => CompletionUnknownRow::Shutdown,
        CompletionUnknownRowKind::DeviceAddedOrReplaced => {
            CompletionUnknownRow::DeviceAddedOrReplaced { recovery_id: id }
        }
        CompletionUnknownRowKind::VTAcquire => {
            CompletionUnknownRow::VTAcquire { recovery_id: id }
        }
        CompletionUnknownRowKind::AdministrativeReprobe => {
            CompletionUnknownRow::AdministrativeReprobe { recovery_id: id }
        }
        CompletionUnknownRowKind::IdentityChangingHotplug => {
            CompletionUnknownRow::IdentityChangingHotplug { recovery_id: id }
        }
        CompletionUnknownRowKind::TopologyRebuild => CompletionUnknownRow::TopologyRebuild,
        CompletionUnknownRowKind::DPMS => CompletionUnknownRow::DPMS {
            target: DpmsTarget::On,
        },
    }
}

#[test]
fn c0_3a_unknown_table_by_row() {
    for kind in CompletionUnknownRowKind::all() {
        let current = incident(RecoveryIncidentState::Active, Some(40));
        let no_incident = table_u(row(kind), event(80), None);
        let with_incident = table_u(row(kind), event(81), Some(current));
        let expected_barriers = PhysicalBarriers {
            quarantine_both_possible_states: true,
            stop_alias_creation: true,
            request_executor_and_helper_termination: true,
            reap_every_lease: true,
            close_complete_fd_family_after_reap: true,
        };
        assert_eq!(no_incident.physical_barriers, expected_barriers, "{kind:?}");
        assert_eq!(
            with_incident.physical_barriers, expected_barriers,
            "{kind:?}"
        );

        match kind {
            CompletionUnknownRowKind::NormalLive => {
                let seed = no_incident.recovery.new_incident.unwrap();
                assert_eq!(
                    seed,
                    IncidentSeed::completion_loss(event(80), RecoveryIncidentState::Active)
                );
                assert_eq!(
                    no_incident.logical.event,
                    EventFate::PendingRepresentative(event(80))
                );
                assert_eq!(
                    no_incident.logical,
                    LogicalUnknownActions {
                        stop_admission: true,
                        withdraw_protocol_work: true,
                        release_seat: false,
                        revoke_readiness: true,
                        apply_dpms_target: false,
                        poison_device: true,
                        terminalize_rebuild: false,
                        event: EventFate::PendingRepresentative(event(80)),
                    }
                );
                assert!(no_incident.logical.stop_admission);
                assert!(no_incident.logical.withdraw_protocol_work);
                assert!(no_incident.logical.poison_device);
                assert_eq!(
                    no_incident.physical,
                    PhysicalUnknownOutcome::QuarantineReapCloseThenAttemptOnce
                );
                assert_eq!(with_incident.recovery.current_incident, Some(current));
                assert_eq!(with_incident.recovery.new_incident, None);
                assert_eq!(
                    with_incident.logical.event,
                    EventFate::Terminal {
                        event_id: event(81),
                        disposition: Disposition::AbsorbedByEvent(event(40)),
                    }
                );
                assert_eq!(
                    with_incident.physical,
                    PhysicalUnknownOutcome::QuarantineReapCloseThenAttemptOnce
                );
                assert_eq!(
                    with_incident.recovery.event_disposition,
                    Some((event(81), Disposition::AbsorbedByEvent(event(40))))
                );
            }
            CompletionUnknownRowKind::VTRelease
            | CompletionUnknownRowKind::DeviceRemoved
            | CompletionUnknownRowKind::Shutdown => {
                let reason = match kind {
                    CompletionUnknownRowKind::VTRelease => InvalidationReason::VTRelease,
                    CompletionUnknownRowKind::DeviceRemoved => {
                        InvalidationReason::DeviceRemoved
                    }
                    CompletionUnknownRowKind::Shutdown => InvalidationReason::Shutdown,
                    _ => unreachable!(),
                };
                let (withdraw_protocol_work, release_seat) = match kind {
                    CompletionUnknownRowKind::VTRelease => (false, true),
                    CompletionUnknownRowKind::DeviceRemoved => (true, false),
                    CompletionUnknownRowKind::Shutdown => (true, true),
                    _ => unreachable!(),
                };
                let expected_actions = |event| LogicalUnknownActions {
                    stop_admission: true,
                    withdraw_protocol_work,
                    release_seat,
                    revoke_readiness: true,
                    apply_dpms_target: false,
                    poison_device: false,
                    terminalize_rebuild: false,
                    event,
                };
                assert_eq!(
                    no_incident.logical.event,
                    EventFate::Terminal {
                        event_id: event(80),
                        disposition: Disposition::Invalidated(reason),
                    }
                );
                assert_eq!(
                    no_incident.logical,
                    expected_actions(EventFate::Terminal {
                        event_id: event(80),
                        disposition: Disposition::Invalidated(reason),
                    })
                );
                assert_eq!(no_incident.recovery.current_incident, None);
                assert_eq!(no_incident.recovery.new_incident, None);
                assert_eq!(
                    no_incident.recovery.event_disposition,
                    Some((event(80), Disposition::Invalidated(reason)))
                );
                assert_eq!(
                    no_incident.physical,
                    if kind == CompletionUnknownRowKind::VTRelease {
                        PhysicalUnknownOutcome::QuarantineAwaitLifecycleTeardown
                    } else {
                        PhysicalUnknownOutcome::QuarantineReapCloseWithoutAttempt
                    }
                );
                assert!(no_incident.logical.stop_admission, "{kind:?}");
                if kind == CompletionUnknownRowKind::VTRelease {
                    assert!(no_incident.logical.release_seat);
                }
                if kind == CompletionUnknownRowKind::DeviceRemoved {
                    assert!(no_incident.logical.withdraw_protocol_work);
                }
                assert_eq!(
                    with_incident.recovery.invalidated_incident.unwrap().reason,
                    reason
                );
                assert_eq!(
                    with_incident.recovery.representative_disposition,
                    Some((event(40), Disposition::Invalidated(reason)))
                );
                assert_eq!(
                    with_incident
                        .recovery
                        .invalidated_incident
                        .unwrap()
                        .recovery_id,
                    current.id()
                );
                assert_eq!(
                    with_incident.logical.event,
                    EventFate::Terminal {
                        event_id: event(81),
                        disposition: Disposition::AbsorbedByEvent(event(40)),
                    }
                );
                assert_eq!(
                    with_incident.logical,
                    expected_actions(EventFate::Terminal {
                        event_id: event(81),
                        disposition: Disposition::AbsorbedByEvent(event(40)),
                    })
                );
            }
            CompletionUnknownRowKind::TopologyRebuild => {
                assert_eq!(
                    no_incident.recovery.new_incident,
                    Some(IncidentSeed::completion_loss(
                        event(80),
                        RecoveryIncidentState::Active
                    ))
                );
                assert!(no_incident.logical.terminalize_rebuild);
                assert_eq!(
                    no_incident.physical,
                    PhysicalUnknownOutcome::QuarantineReapCloseThenAttemptOnceAndTerminalizeRebuild
                );
                assert_eq!(with_incident.recovery.current_incident, Some(current));
                assert!(with_incident.recovery.transferred);
                assert_eq!(with_incident.recovery.new_incident, None);
                assert_eq!(
                    with_incident.physical,
                    PhysicalUnknownOutcome::TransferQuarantineToRebuildThenQualifiedInstall
                );
                assert_eq!(
                    with_incident.recovery.event_disposition,
                    Some((event(81), Disposition::AbsorbedByEvent(event(40))))
                );
                assert_eq!(
                    with_incident.logical,
                    LogicalUnknownActions {
                        stop_admission: true,
                        withdraw_protocol_work: false,
                        release_seat: false,
                        revoke_readiness: true,
                        apply_dpms_target: false,
                        poison_device: true,
                        terminalize_rebuild: false,
                        event: EventFate::Terminal {
                            event_id: event(81),
                            disposition: Disposition::AbsorbedByEvent(event(40)),
                        },
                    }
                );
                let attempting = incident(RecoveryIncidentState::Attempting, Some(40));
                let failed_attempt = table_u(
                    CompletionUnknownRow::TopologyRebuild,
                    event(82),
                    Some(attempting),
                );
                assert_eq!(
                    failed_attempt.physical,
                    PhysicalUnknownOutcome::ExistingAttemptFailedWithoutRetry
                );
                assert!(!failed_attempt.recovery.transferred);
                assert_eq!(
                    failed_attempt.recovery.current_incident.unwrap().state(),
                    RecoveryIncidentState::RecoveryFailed
                );
                assert_eq!(
                    failed_attempt.recovery.representative_disposition,
                    Some((
                        event(40),
                        Disposition::Invalidated(InvalidationReason::RecoveryFailed)
                    ))
                );
            }
            CompletionUnknownRowKind::DPMS => {
                assert_eq!(
                    no_incident.recovery.new_incident,
                    Some(IncidentSeed::completion_loss(
                        event(80),
                        RecoveryIncidentState::Active
                    ))
                );
                assert_eq!(
                    no_incident.physical,
                    PhysicalUnknownOutcome::QuarantineDpmsWithoutKmsMutation {
                        attempt_after_reap: true,
                        paused_until_dpms_on: false,
                    }
                );
                assert_eq!(
                    no_incident.logical.event,
                    EventFate::PendingRepresentative(event(80))
                );
                assert_eq!(with_incident.recovery.current_incident, Some(current));
                assert_eq!(with_incident.recovery.new_incident, None);
                assert_eq!(
                    with_incident.physical,
                    PhysicalUnknownOutcome::QuarantineDpmsWithoutKmsMutation {
                        attempt_after_reap: true,
                        paused_until_dpms_on: false,
                    }
                );
                assert!(!with_incident.logical.withdraw_protocol_work);
                assert!(with_incident.logical.apply_dpms_target);
                assert_eq!(
                    with_incident.logical.event,
                    EventFate::Terminal {
                        event_id: event(81),
                        disposition: Disposition::AbsorbedByEvent(event(40)),
                    }
                );
                assert_eq!(
                    with_incident.recovery.event_disposition,
                    Some((event(81), Disposition::AbsorbedByEvent(event(40))))
                );
            }
            CompletionUnknownRowKind::DeviceAddedOrReplaced
            | CompletionUnknownRowKind::VTAcquire
            | CompletionUnknownRowKind::AdministrativeReprobe
            | CompletionUnknownRowKind::IdentityChangingHotplug => {
                let expected_reason = match kind {
                    CompletionUnknownRowKind::DeviceAddedOrReplaced => {
                        InvalidationReason::DeviceAddedOrReplaced
                    }
                    CompletionUnknownRowKind::VTAcquire => InvalidationReason::VTAcquire,
                    CompletionUnknownRowKind::AdministrativeReprobe => {
                        InvalidationReason::AdministrativeReprobe
                    }
                    CompletionUnknownRowKind::IdentityChangingHotplug => {
                        InvalidationReason::IdentityChangingHotplug
                    }
                    _ => unreachable!(),
                };
                let fresh_id = match row(kind) {
                    CompletionUnknownRow::DeviceAddedOrReplaced { recovery_id }
                    | CompletionUnknownRow::VTAcquire { recovery_id }
                    | CompletionUnknownRow::AdministrativeReprobe { recovery_id }
                    | CompletionUnknownRow::IdentityChangingHotplug { recovery_id } => {
                        recovery_id
                    }
                    _ => unreachable!(),
                };
                assert_eq!(
                    no_incident.physical,
                    PhysicalUnknownOutcome::QuarantineBoundaryAttemptFailed {
                        recovery_id: fresh_id
                    }
                );
                assert_eq!(
                    no_incident.logical.event,
                    EventFate::Terminal {
                        event_id: event(80),
                        disposition: Disposition::Invalidated(
                            InvalidationReason::RecoveryFailed
                        ),
                    }
                );
                assert_eq!(
                    no_incident.recovery.current_incident.unwrap().id(),
                    fresh_id
                );
                assert_eq!(
                    no_incident.recovery.current_incident.unwrap().state(),
                    RecoveryIncidentState::RecoveryFailed
                );
                assert_eq!(
                    no_incident.recovery.event_disposition,
                    Some((
                        event(80),
                        Disposition::Invalidated(InvalidationReason::RecoveryFailed)
                    ))
                );
                assert_eq!(
                    with_incident.recovery.invalidated_incident.unwrap().reason,
                    expected_reason
                );
                assert_eq!(
                    with_incident.recovery.event_disposition,
                    Some((event(81), Disposition::AbsorbedByEvent(event(40))))
                );
                assert_eq!(
                    with_incident.recovery.current_incident.unwrap().id(),
                    fresh_id
                );
                assert_eq!(
                    with_incident.logical.event,
                    EventFate::Terminal {
                        event_id: event(81),
                        disposition: Disposition::AbsorbedByEvent(event(40)),
                    }
                );
                assert_eq!(
                    with_incident.recovery.event_disposition,
                    Some((event(81), Disposition::AbsorbedByEvent(event(40))))
                );
            }
        }
    }

    let dpms_off = table_u(
        CompletionUnknownRow::DPMS {
            target: DpmsTarget::Off,
        },
        event(90),
        None,
    );
    assert_eq!(
        dpms_off.recovery.new_incident.unwrap().initial_state,
        RecoveryIncidentState::Paused
    );
    assert_eq!(
        dpms_off.physical,
        PhysicalUnknownOutcome::QuarantineDpmsWithoutKmsMutation {
            attempt_after_reap: false,
            paused_until_dpms_on: true,
        }
    );
}

#[test]
fn c0_3a_recovery_matrix_is_total() {
    let loss_incident = incident(RecoveryIncidentState::Active, Some(10));
    let failed_incident = incident(RecoveryIncidentState::RecoveryFailed, Some(10));
    for kind in LifecycleKind::all() {
        let winner = RecoveryWinner::new(kind).requiring_recovery();
        let outcome = table_f(winner, loss_incident, event(20));
        match kind {
            LifecycleKind::Shutdown
            | LifecycleKind::DeviceRemoved
            | LifecycleKind::VTRelease => {
                let reason = match kind {
                    LifecycleKind::Shutdown => InvalidationReason::Shutdown,
                    LifecycleKind::DeviceRemoved => InvalidationReason::DeviceRemoved,
                    LifecycleKind::VTRelease => InvalidationReason::VTRelease,
                    _ => unreachable!(),
                };
                assert_eq!(
                    outcome.fate.invalidated_incident.unwrap().reason,
                    reason,
                    "{kind:?}"
                );
                assert_eq!(outcome.fate.current_incident, None, "{kind:?}");
                assert_eq!(outcome.fate.new_incident, None, "{kind:?}");
                assert_eq!(
                    outcome.fate.representative_disposition,
                    Some((event(10), Disposition::Invalidated(reason))),
                    "{kind:?}"
                );
                assert!(!outcome.allocate_fresh_id, "{kind:?}");
            }
            LifecycleKind::DeviceAddedOrReplaced
            | LifecycleKind::VTAcquire
            | LifecycleKind::AdministrativeReprobe
            | LifecycleKind::IdentityChangingHotplug => {
                assert_eq!(
                    outcome.fate.invalidated_incident.unwrap().reason,
                    match kind {
                        LifecycleKind::DeviceAddedOrReplaced => {
                            InvalidationReason::DeviceAddedOrReplaced
                        }
                        LifecycleKind::VTAcquire => InvalidationReason::VTAcquire,
                        LifecycleKind::AdministrativeReprobe => {
                            InvalidationReason::AdministrativeReprobe
                        }
                        LifecycleKind::IdentityChangingHotplug => {
                            InvalidationReason::IdentityChangingHotplug
                        }
                        _ => unreachable!(),
                    },
                    "{kind:?}"
                );
                assert_eq!(outcome.fate.new_incident.unwrap(), IncidentSeed::boundary());
                assert_eq!(
                    outcome.fate.representative_disposition,
                    Some((
                        event(10),
                        Disposition::Invalidated(
                            outcome.fate.invalidated_incident.unwrap().reason
                        )
                    ))
                );
                assert_eq!(outcome.fate.current_incident, None);
                assert!(outcome.allocate_fresh_id, "{kind:?}");
                let mut allocator = RecoveryIdAllocator::new();
                let boundary_incident = allocator
                    .allocate_incident(outcome.fate.new_incident.unwrap())
                    .unwrap();
                assert_eq!(
                    boundary_incident.id(),
                    kms_owner::lifecycle::RecoveryId::from_raw(1)
                );
                assert_eq!(boundary_incident.representative(), None);
                assert_eq!(boundary_incident.state(), RecoveryIncidentState::Active);
                assert_eq!(
                    allocator.allocate(),
                    Some(kms_owner::lifecycle::RecoveryId::from_raw(2))
                );
                let no_recovery = table_f(RecoveryWinner::new(kind), loss_incident, event(20));
                assert_eq!(no_recovery.fate.new_incident, None, "{kind:?}");
                assert!(!no_recovery.allocate_fresh_id, "{kind:?}");
            }
            LifecycleKind::TopologyRebuild => {
                assert_eq!(outcome.fate.current_incident, Some(loss_incident));
                assert!(outcome.fate.transferred);
                assert_eq!(outcome.fate.invalidated_incident, None);
                assert_eq!(outcome.fate.new_incident, None);
                assert!(!outcome.allocate_fresh_id);
            }
            LifecycleKind::DPMS => {
                assert_eq!(outcome.fate.current_incident, Some(loss_incident));
                assert!(!outcome.fate.transferred);
                assert_eq!(outcome.fate.invalidated_incident, None);
                assert_eq!(outcome.fate.new_incident, None);
                assert!(!outcome.allocate_fresh_id);
            }
            LifecycleKind::NormalRecovery => {
                assert_eq!(outcome.fate.current_incident, Some(loss_incident));
                assert_eq!(
                    outcome.fate.event_disposition,
                    Some((event(20), Disposition::AbsorbedByEvent(event(10))))
                );
                assert_eq!(outcome.fate.new_incident, None);
                assert!(!outcome.allocate_fresh_id);
            }
        }

        let failed = table_f(winner, failed_incident, event(21));
        if matches!(
            kind,
            LifecycleKind::DeviceAddedOrReplaced
                | LifecycleKind::VTAcquire
                | LifecycleKind::AdministrativeReprobe
                | LifecycleKind::IdentityChangingHotplug
        ) {
            assert!(failed.allocate_fresh_id, "{kind:?}");
            assert_eq!(failed.fate.new_incident, Some(IncidentSeed::boundary()));
            assert_eq!(failed.fate.current_incident, None);
            assert_eq!(failed.incident_state, Some(RecoveryIncidentState::Active));
        } else {
            assert!(!failed.allocate_fresh_id, "{kind:?}");
            assert_eq!(failed.fate.new_incident, None);
            assert_eq!(failed.fate.current_incident, Some(failed_incident));
            assert_eq!(
                failed.incident_state,
                Some(RecoveryIncidentState::RecoveryFailed)
            );
        }
        if kind == LifecycleKind::NormalRecovery {
            assert_eq!(
                failed.fate.event_disposition,
                Some((
                    event(21),
                    Disposition::Invalidated(InvalidationReason::RecoveryFailed)
                ))
            );
        }
    }

    for state in RecoveryIncidentState::all() {
        let candidate = incident(state, Some(11));
        for kind in LifecycleKind::all() {
            let outcome = table_f(RecoveryWinner::new(kind), candidate, event(22));
            if kind == LifecycleKind::TopologyRebuild
                && state != RecoveryIncidentState::RecoveryFailed
            {
                assert_eq!(outcome.fate.current_incident, Some(candidate));
                assert!(outcome.fate.transferred);
            }
            if state == RecoveryIncidentState::RecoveryFailed {
                assert!(!outcome.allocate_fresh_id);
                assert_eq!(outcome.fate.current_incident, Some(candidate));
            }
            if kind == LifecycleKind::DPMS {
                let target = if state == RecoveryIncidentState::Paused {
                    DpmsTarget::On
                } else {
                    DpmsTarget::Off
                };
                let outcome = table_f(
                    RecoveryWinner::new(kind).with_dpms_target(target),
                    candidate,
                    event(23),
                );
                let current = outcome.fate.current_incident.unwrap();
                assert_eq!(current.id(), candidate.id());
                assert_eq!(current.budget(), candidate.budget());
                assert!(!outcome.allocate_fresh_id);
                let expected = match (state, target) {
                    (RecoveryIncidentState::Active, DpmsTarget::Off) => {
                        RecoveryIncidentState::Paused
                    }
                    (RecoveryIncidentState::Paused, DpmsTarget::On) => {
                        RecoveryIncidentState::Active
                    }
                    (RecoveryIncidentState::Attempting, DpmsTarget::Off) => {
                        RecoveryIncidentState::Paused
                    }
                    (RecoveryIncidentState::RecoveryFailed, _) => {
                        RecoveryIncidentState::RecoveryFailed
                    }
                    (state, _) => state,
                };
                assert_eq!(current.state(), expected);
            }
        }
    }
}

#[test]
fn c0_3a_no_double_fate() {
    for kind in CompletionUnknownRowKind::all() {
        for existing in [
            None,
            Some(incident(RecoveryIncidentState::Active, Some(30))),
        ] {
            let outcome = table_u(row(kind), event(31), existing);
            let fate = outcome.recovery;
            assert!(
                !fate.transferred || fate.invalidated_incident.is_none(),
                "{kind:?}"
            );
            if let (Some(invalidated), Some(current)) =
                (fate.invalidated_incident, fate.current_incident)
            {
                assert_ne!(invalidated.recovery_id, current.id(), "{kind:?}");
            }
            assert!(fate.new_incident.is_none() || fate.current_incident.is_none());
        }
    }
    for kind in LifecycleKind::all() {
        for current in [
            incident(RecoveryIncidentState::Active, Some(50)),
            incident(RecoveryIncidentState::RecoveryFailed, Some(50)),
        ] {
            let outcome = table_f(
                RecoveryWinner::new(kind).requiring_recovery(),
                current,
                event(51),
            );
            let fate = outcome.fate;
            assert!(
                !fate.transferred || fate.invalidated_incident.is_none(),
                "{kind:?}"
            );
            if let (Some(invalidated), Some(retained)) =
                (fate.invalidated_incident, fate.current_incident)
            {
                assert_ne!(invalidated.recovery_id, retained.id(), "{kind:?}");
            }
            assert!(fate.new_incident.is_none() || fate.current_incident.is_none());
            assert_eq!(outcome.allocate_fresh_id, fate.new_incident.is_some());
        }
    }
}

#[test]
fn c0_3a_first_loss_creates_one_incident() {
    let first = table_u(CompletionUnknownRow::NormalLive, event(1), None);
    assert_eq!(
        first.logical.event,
        EventFate::PendingRepresentative(event(1))
    );
    let mut allocator = RecoveryIdAllocator::new();
    let created = allocator
        .allocate_incident(first.recovery.new_incident.unwrap())
        .unwrap();
    assert_eq!(
        created.id(),
        kms_owner::lifecycle::RecoveryId::from_raw(1)
    );
    assert_eq!(created.representative(), Some(event(1)));
    assert_eq!(created.state(), RecoveryIncidentState::Active);
    assert_eq!(created.budget(), RecoveryAttemptBudget::Available);

    let second_loss = table_u(CompletionUnknownRow::NormalLive, event(2), Some(created));
    assert_eq!(second_loss.recovery.new_incident, None);
    assert_eq!(second_loss.recovery.current_incident, Some(created));
    assert_eq!(
        second_loss.logical.event,
        EventFate::Terminal {
            event_id: event(2),
            disposition: Disposition::AbsorbedByEvent(event(1)),
        }
    );
    for duplicate in [event(3), event(4), event(5)] {
        let outcome = table_f(
            RecoveryWinner::new(LifecycleKind::NormalRecovery),
            created,
            duplicate,
        );
        assert_eq!(outcome.fate.current_incident, Some(created));
        assert_eq!(outcome.fate.new_incident, None);
        assert_eq!(
            outcome.fate.event_disposition,
            Some((duplicate, Disposition::AbsorbedByEvent(event(1))))
        );
    }

    let mut attempt = created;
    assert!(attempt.request_attempt(RecoveryAttemptTrigger::AfterReap));
    let success = attempt.resolve(RecoveryResolution::Qualified(
        LifecycleTransitionId::from_raw(9),
    ));
    assert_eq!(success.incident, None);
    assert_eq!(
        success.representative_disposition,
        Some((
            event(1),
            Disposition::Applied(LifecycleTransitionId::from_raw(9))
        ))
    );

    let mut failing_allocator = RecoveryIdAllocator::new();
    let mut failing = failing_allocator
        .allocate_incident(IncidentSeed::completion_loss(
            event(6),
            RecoveryIncidentState::Active,
        ))
        .unwrap();
    assert!(failing.request_attempt(RecoveryAttemptTrigger::AfterReap));
    let failed = failing.resolve(RecoveryResolution::Failed);
    assert_eq!(
        failed.representative_disposition,
        Some((
            event(6),
            Disposition::Invalidated(InvalidationReason::RecoveryFailed)
        ))
    );
    assert_eq!(
        failed.incident.unwrap().state(),
        RecoveryIncidentState::RecoveryFailed
    );

    let mut exhausted = RecoveryIdAllocator::with_next(
        kms_owner::lifecycle::RecoveryId::from_raw(u64::MAX),
    );
    assert!(exhausted.allocate().is_some());
    assert_eq!(exhausted.allocate(), None);
}

#[test]
fn c0_3a_unknown_during_teardown_follows_the_active_row() {
    for (row, reason, releases_seat, withdraws) in [
        (
            CompletionUnknownRow::VTRelease,
            InvalidationReason::VTRelease,
            true,
            false,
        ),
        (
            CompletionUnknownRow::DeviceRemoved,
            InvalidationReason::DeviceRemoved,
            false,
            true,
        ),
        (
            CompletionUnknownRow::Shutdown,
            InvalidationReason::Shutdown,
            true,
            true,
        ),
    ] {
        let result = table_u(row, event(60), None);
        assert_eq!(
            result.logical.event,
            EventFate::Terminal {
                event_id: event(60),
                disposition: Disposition::Invalidated(reason),
            }
        );
        assert_eq!(result.recovery.new_incident, None);
        assert_eq!(result.recovery.current_incident, None);
        assert!(result.logical.stop_admission);
        assert_eq!(result.logical.release_seat, releases_seat);
        assert_eq!(result.logical.withdraw_protocol_work, withdraws);
    }
}

#[test]
fn c0_3a_first_loss_during_dpms_on_is_not_paused() {
    for (target, expected_state, attempt_after_reap) in [
        (DpmsTarget::On, RecoveryIncidentState::Active, true),
        (DpmsTarget::Off, RecoveryIncidentState::Paused, false),
    ] {
        let result = table_u(CompletionUnknownRow::DPMS { target }, event(70), None);
        assert_eq!(
            result.recovery.new_incident.unwrap().initial_state,
            expected_state
        );
        assert_eq!(
            result.physical,
            PhysicalUnknownOutcome::QuarantineDpmsWithoutKmsMutation {
                attempt_after_reap,
                paused_until_dpms_on: target == DpmsTarget::Off,
            }
        );
        assert!(result.logical.apply_dpms_target);
        assert!(result.logical.poison_device);
    }
}

#[test]
fn c0_3a_first_loss_during_rebuild_is_normal_live() {
    let outcome = table_u(CompletionUnknownRow::TopologyRebuild, event(71), None);
    assert_eq!(
        outcome.recovery.new_incident,
        Some(IncidentSeed::completion_loss(
            event(71),
            RecoveryIncidentState::Active
        ))
    );
    assert_eq!(
        outcome.logical.event,
        EventFate::PendingRepresentative(event(71))
    );
    assert!(outcome.logical.terminalize_rebuild);
    assert_eq!(
        outcome.physical,
        PhysicalUnknownOutcome::QuarantineReapCloseThenAttemptOnceAndTerminalizeRebuild
    );
}

#[test]
fn c0_3a_dpms_on_resumes_the_paused_incident() {
    let mut allocator = RecoveryIdAllocator::new();
    let mut paused = allocator
        .allocate_incident(IncidentSeed::completion_loss(
            event(72),
            RecoveryIncidentState::Active,
        ))
        .unwrap();
    assert!(paused.pause());
    let id = paused.id();
    let budget = paused.budget();
    let resumed = table_f(
        RecoveryWinner::new(LifecycleKind::DPMS).with_dpms_target(DpmsTarget::On),
        paused,
        event(73),
    );
    let current = resumed.fate.current_incident.unwrap();
    assert_eq!(current.id(), id);
    assert_eq!(current.state(), RecoveryIncidentState::Active);
    assert_eq!(current.budget(), budget);
    assert_eq!(resumed.fate.new_incident, None);
    assert!(!resumed.allocate_fresh_id);

    let mut spent = allocator
        .allocate_incident(IncidentSeed::completion_loss(
            event(74),
            RecoveryIncidentState::Active,
        ))
        .unwrap();
    assert!(spent.begin_attempt());
    assert!(spent.pause());
    let resumed_spent = table_f(
        RecoveryWinner::new(LifecycleKind::DPMS).with_dpms_target(DpmsTarget::On),
        spent,
        event(75),
    );
    let spent_current = resumed_spent.fate.current_incident.unwrap();
    assert_eq!(spent_current.id(), spent.id());
    assert_eq!(spent_current.state(), RecoveryIncidentState::Attempting);
    assert_eq!(spent_current.budget(), RecoveryAttemptBudget::Spent);

    let mut desired = LifecycleDesired::<u32>::default();
    desired.project(event(76), DesiredIntent::Dpms { level: 0, epoch: 1 });
    assert!(desired.set_disposition(
        event(76),
        Disposition::Deferred(Prerequisite::ReadinessClosed)
    ));
    assert_eq!(
        desired.disposition(event(76)),
        Some(Disposition::Deferred(Prerequisite::ReadinessClosed))
    );
    assert_eq!(
        resumed.fate.current_incident.unwrap().representative(),
        Some(event(72))
    );
}

#[test]
fn c0_3a_one_attempt_per_incident() {
    let mut allocator = RecoveryIdAllocator::new();
    let mut active = allocator
        .allocate_incident(IncidentSeed::completion_loss(
            event(90),
            RecoveryIncidentState::Active,
        ))
        .unwrap();
    assert!(active.begin_attempt());
    let mut failed = active.resolve(RecoveryResolution::Failed).incident.unwrap();
    assert_eq!(failed.state(), RecoveryIncidentState::RecoveryFailed);
    assert_eq!(failed.budget(), RecoveryAttemptBudget::Spent);
    assert!(!failed.begin_attempt());

    let dpms_on = table_f(
        RecoveryWinner::new(LifecycleKind::DPMS).with_dpms_target(DpmsTarget::On),
        failed,
        event(91),
    );
    assert_eq!(dpms_on.fate.current_incident, Some(failed));
    assert_eq!(dpms_on.fate.new_incident, None);
    assert!(!dpms_on.allocate_fresh_id);
    assert_eq!(
        dpms_on.incident_state,
        Some(RecoveryIncidentState::RecoveryFailed)
    );
    let mut after_dpms = dpms_on.fate.current_incident.unwrap();
    for trigger in RecoveryAttemptTrigger::all() {
        assert!(!after_dpms.request_attempt(trigger), "{trigger:?}");
    }
    for event_id in [event(92), event(93), event(94)] {
        let later_loss = table_f(
            RecoveryWinner::new(LifecycleKind::NormalRecovery),
            failed,
            event_id,
        );
        assert_eq!(
            later_loss.fate.event_disposition,
            Some((
                event_id,
                Disposition::Invalidated(InvalidationReason::RecoveryFailed)
            ))
        );
        assert_eq!(later_loss.fate.new_incident, None);
        assert!(!later_loss.allocate_fresh_id);
    }
}
