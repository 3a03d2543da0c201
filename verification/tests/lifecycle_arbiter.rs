use kms_owner::lifecycle::arbiter::{
    ArbiterInput, CommitProgress, LifecycleAction, LifecycleArbiter, LifecycleCommitOutcome,
    LifecycleReceipt, LifecycleReceiptResult, LifecycleTransitionPhase, field_for_kind,
};
use kms_owner::lifecycle::{
    CompletionUnknownRow, DesiredField, DesiredIntent, DeviceLifecycleState, Disposition,
    DpmsTarget, IncidentSeed, LifecycleEpochId, LifecycleEventId, LifecycleKind,
    LifecycleTransitionId, Prerequisite, RecoveryAttemptBudget, RecoveryId,
    RecoveryIdAllocator, RecoveryIncidentState, SeatTarget, TopologyChangeClass, TransitionTag,
    WorkTag,
};

type Arbiter = LifecycleArbiter<u32, u32>;
type Action = LifecycleAction<u32>;

fn event(raw: u64) -> LifecycleEventId {
    LifecycleEventId::from_raw(raw)
}

fn intent(kind: LifecycleKind, generation: u64) -> DesiredIntent {
    match kind {
        LifecycleKind::Shutdown => DesiredIntent::Shutdown,
        LifecycleKind::DeviceRemoved => DesiredIntent::DevicePresence {
            present: false,
            identity_epoch: generation,
        },
        LifecycleKind::VTRelease => DesiredIntent::Seat {
            target: SeatTarget::Released,
            epoch: generation,
        },
        LifecycleKind::DeviceAddedOrReplaced => DesiredIntent::DevicePresence {
            present: true,
            identity_epoch: generation,
        },
        LifecycleKind::VTAcquire => DesiredIntent::Seat {
            target: SeatTarget::Owned,
            epoch: generation,
        },
        LifecycleKind::AdministrativeReprobe => {
            DesiredIntent::AdministrativeReprobe { epoch: generation }
        }
        LifecycleKind::IdentityChangingHotplug => DesiredIntent::Topology {
            discovery_epoch: generation,
            change_class: TopologyChangeClass::IdentityChanging,
        },
        LifecycleKind::TopologyRebuild => DesiredIntent::Topology {
            discovery_epoch: generation,
            change_class: TopologyChangeClass::SameIdentity,
        },
        LifecycleKind::DPMS => DesiredIntent::Dpms {
            level: (generation % 4) as u8,
            epoch: generation,
        },
        LifecycleKind::NormalRecovery => DesiredIntent::NormalRecovery {
            recovery_id: RecoveryId::from_raw(generation.max(1)),
        },
    }
}

fn tag(arbiter: &Arbiter) -> TransitionTag<u32> {
    let transition = arbiter.transition().expect("transition is active");
    TransitionTag::new(1, arbiter.epoch(), transition.id)
}

fn start(arbiter: &mut Arbiter, kind: LifecycleKind, raw: u64) -> Vec<Action> {
    arbiter.apply(ArbiterInput::LifecycleEvent {
        event_id: event(raw),
        intent: intent(kind, raw),
    })
}

fn acknowledge_all(arbiter: &mut Arbiter) -> Vec<Action> {
    let current_tag = tag(arbiter);
    let mut actions = Vec::new();
    for receipt in LifecycleReceipt::all() {
        actions.extend(arbiter.apply(ArbiterInput::Receipt {
            tag: current_tag,
            receipt,
            result: LifecycleReceiptResult::Succeeded,
        }));
    }
    actions
}

fn finish_current(arbiter: &mut Arbiter) -> Vec<Action> {
    let mut actions = acknowledge_all(arbiter);
    let current_tag = tag(arbiter);
    actions.extend(arbiter.apply(ArbiterInput::CommitOutcome {
        tag: current_tag,
        outcome: LifecycleCommitOutcome::Completed {
            dpms_projections_retired: true,
        },
    }));
    actions
}

fn seed_prerequisites(arbiter: &mut Arbiter) {
    arbiter.project_desired(
        event(90_001),
        DesiredIntent::DevicePresence {
            present: true,
            identity_epoch: 1,
        },
    );
    arbiter.record_disposition(
        event(90_001),
        Disposition::Applied(LifecycleTransitionId::from_raw(90_001)),
    );
    arbiter.project_desired(
        event(90_002),
        DesiredIntent::Seat {
            target: SeatTarget::Owned,
            epoch: 1,
        },
    );
    arbiter.record_disposition(
        event(90_002),
        Disposition::Applied(LifecycleTransitionId::from_raw(90_002)),
    );
}

fn field_intent(field: DesiredField, generation: u64) -> DesiredIntent {
    match field {
        DesiredField::Shutdown => DesiredIntent::Shutdown,
        DesiredField::Presence => intent(LifecycleKind::DeviceAddedOrReplaced, generation),
        DesiredField::Seat => intent(LifecycleKind::VTAcquire, generation),
        DesiredField::AdministrativeReprobe => {
            intent(LifecycleKind::AdministrativeReprobe, generation)
        }
        DesiredField::Topology => intent(LifecycleKind::IdentityChangingHotplug, generation),
        DesiredField::Dpms => intent(LifecycleKind::DPMS, generation),
        DesiredField::Recovery => intent(LifecycleKind::NormalRecovery, generation),
    }
}

fn settle_without_driver(arbiter: &mut Arbiter) -> Vec<LifecycleKind> {
    let mut winners = Vec::new();
    arbiter.settle_active_as_applied();
    loop {
        arbiter.converge();
        let Some(active) = arbiter.transition() else {
            break;
        };
        winners.push(active.kind);
        arbiter.settle_active_as_applied();
    }
    winners
}

#[test]
fn c0_3a_every_pair_elects_by_precedence() {
    for active_kind in LifecycleKind::all() {
        for arriving_kind in LifecycleKind::all() {
            let mut arbiter = Arbiter::new(1);
            seed_prerequisites(&mut arbiter);
            start(&mut arbiter, active_kind, 1);
            let active_id = arbiter.transition().unwrap().id;

            arbiter.apply(ArbiterInput::LifecycleEvent {
                event_id: event(2),
                intent: intent(arriving_kind, 2),
            });
            let current = arbiter.transition().expect("one winner remains");
            if arriving_kind.outranks(active_kind) {
                assert_ne!(
                    current.id, active_id,
                    "{active_kind:?} <- {arriving_kind:?}"
                );
                assert_eq!(
                    current.kind, arriving_kind,
                    "{active_kind:?} <- {arriving_kind:?}"
                );
            } else {
                assert_eq!(
                    current.id, active_id,
                    "{active_kind:?} <- {arriving_kind:?}"
                );
                assert_eq!(
                    current.kind, active_kind,
                    "{active_kind:?} <- {arriving_kind:?}"
                );
            }
            assert!(arbiter.transition().is_some());
        }
    }
}

#[test]
fn c0_3a_never_two_transitions() {
    for first in LifecycleKind::all() {
        for second in LifecycleKind::all() {
            for third in LifecycleKind::all() {
                let mut arbiter = Arbiter::new(1);
                seed_prerequisites(&mut arbiter);
                start(&mut arbiter, first, 1);
                let second_actions = arbiter.apply(ArbiterInput::LifecycleEvent {
                    event_id: event(2),
                    intent: intent(second, 2),
                });
                assert!(arbiter.transition().is_some(), "{first:?}, {second:?}");
                assert!(!second_actions.iter().any(|action| matches!(
                    action,
                    LifecycleAction::PhysicalAdvanceAllowed(_)
                )));
                let third_actions = arbiter.apply(ArbiterInput::LifecycleEvent {
                    event_id: event(3),
                    intent: intent(third, 3),
                });
                assert!(!third_actions.iter().any(|action| matches!(
                    action,
                    LifecycleAction::PhysicalAdvanceAllowed(_)
                )));
                assert!(
                    arbiter.transition().is_some(),
                    "{first:?}, {second:?}, {third:?}"
                );
            }
        }
    }
}

#[test]
fn c0_3a_logical_now_physical_after_receipts() {
    for winner in [
        LifecycleKind::VTRelease,
        LifecycleKind::DeviceRemoved,
        LifecycleKind::Shutdown,
    ] {
        let mut arbiter = Arbiter::new(1);
        seed_prerequisites(&mut arbiter);
        start(&mut arbiter, LifecycleKind::DPMS, 1);
        let old_tag = tag(&arbiter);
        arbiter.apply(ArbiterInput::CommitProgress {
            tag: old_tag,
            progress: CommitProgress::Accepted,
        });
        let actions = start(&mut arbiter, winner, 2);
        let winning_tag = tag(&arbiter);
        match winner {
            LifecycleKind::VTRelease => {
                assert!(
                    actions
                        .iter()
                        .any(|action| matches!(action, LifecycleAction::ReleaseSeat(_)))
                );
            }
            LifecycleKind::DeviceRemoved | LifecycleKind::Shutdown => {
                assert!(
                    actions
                        .iter()
                        .any(|action| matches!(action, LifecycleAction::WithdrawOutputs(_)))
                );
                assert!(actions.iter().any(|action| matches!(
                    action,
                    LifecycleAction::TerminalizeProtocolWork(_)
                )));
            }
            _ => unreachable!(),
        }
        assert!(
            !actions
                .iter()
                .any(|action| matches!(action, LifecycleAction::PhysicalAdvanceAllowed(_)))
        );

        let receipts = LifecycleReceipt::all();
        for receipt in receipts.into_iter().take(3) {
            let actions = arbiter.apply(ArbiterInput::Receipt {
                tag: winning_tag,
                receipt,
                result: LifecycleReceiptResult::Succeeded,
            });
            assert!(
                !actions
                    .iter()
                    .any(|action| matches!(action, LifecycleAction::PhysicalAdvanceAllowed(_)))
            );
        }
        let actions = arbiter.apply(ArbiterInput::Receipt {
            tag: winning_tag,
            receipt: LifecycleReceipt::QuarantineTransferred,
            result: LifecycleReceiptResult::Failed,
        });
        assert!(
            actions
                .iter()
                .any(|action| matches!(action, LifecycleAction::ReceiptFailed { .. }))
        );
        assert_eq!(
            arbiter.transition().unwrap().phase,
            LifecycleTransitionPhase::PhysicallyFenced
        );
        assert!(
            !actions
                .iter()
                .any(|action| matches!(action, LifecycleAction::PhysicalAdvanceAllowed(_)))
        );

        let mut second = Arbiter::new(1);
        seed_prerequisites(&mut second);
        start(&mut second, LifecycleKind::DPMS, 10);
        start(&mut second, LifecycleKind::VTRelease, 11);
        let stale_tag = tag(&second);
        start(&mut second, LifecycleKind::Shutdown, 12);
        let newest_tag = tag(&second);
        let mut retagged_stale = stale_tag;
        retagged_stale.lifecycle_epoch = newest_tag.lifecycle_epoch;
        for receipt in receipts {
            let stale = second.apply(ArbiterInput::Receipt {
                tag: retagged_stale,
                receipt,
                result: LifecycleReceiptResult::Succeeded,
            });
            assert!(
                stale.iter().any(|action| matches!(
                    action,
                    LifecycleAction::StaleReceiptIgnored { .. }
                ))
            );
        }
        for receipt in receipts.into_iter().take(3) {
            let actions = second.apply(ArbiterInput::Receipt {
                tag: newest_tag,
                receipt,
                result: LifecycleReceiptResult::Succeeded,
            });
            assert!(
                !actions
                    .iter()
                    .any(|action| matches!(action, LifecycleAction::PhysicalAdvanceAllowed(_)))
            );
        }
        let actions = second.apply(ArbiterInput::Receipt {
            tag: newest_tag,
            receipt: LifecycleReceipt::QuarantineTransferred,
            result: LifecycleReceiptResult::Succeeded,
        });
        assert!(actions.contains(&LifecycleAction::PhysicalAdvanceAllowed(newest_tag)));

        let mut fenced = Arbiter::new(1);
        seed_prerequisites(&mut fenced);
        start(&mut fenced, LifecycleKind::DPMS, 20);
        start(&mut fenced, LifecycleKind::VTRelease, 21);
        let failed_winner_tag = tag(&fenced);
        for receipt in receipts.into_iter().take(3) {
            fenced.apply(ArbiterInput::Receipt {
                tag: failed_winner_tag,
                receipt,
                result: LifecycleReceiptResult::Succeeded,
            });
        }
        fenced.apply(ArbiterInput::Receipt {
            tag: failed_winner_tag,
            receipt: LifecycleReceipt::QuarantineTransferred,
            result: LifecycleReceiptResult::Failed,
        });
        start(&mut fenced, LifecycleKind::Shutdown, 22);
        let fenced_winner_tag = tag(&fenced);
        let mut latest_actions = Vec::new();
        for receipt in LifecycleReceipt::all() {
            latest_actions.extend(fenced.apply(ArbiterInput::Receipt {
                tag: fenced_winner_tag,
                receipt,
                result: LifecycleReceiptResult::Succeeded,
            }));
        }
        assert!(
            !latest_actions
                .iter()
                .any(|action| matches!(action, LifecycleAction::PhysicalAdvanceAllowed(_)))
        );
        let cleared = fenced.apply(ArbiterInput::FdFamilyBarrierCleared {
            tag: fenced_winner_tag,
        });
        assert!(cleared.contains(&LifecycleAction::PhysicalAdvanceAllowed(fenced_winner_tag)));
    }
}

#[test]
fn c0_3a_submitted_is_never_cancelled_as_never_submitted() {
    let mut arbiter = Arbiter::new(1);
    seed_prerequisites(&mut arbiter);
    start(&mut arbiter, LifecycleKind::DPMS, 1);
    let old_tag = tag(&arbiter);
    arbiter.apply(ArbiterInput::CommitProgress {
        tag: old_tag,
        progress: CommitProgress::Accepted,
    });
    let actions = start(&mut arbiter, LifecycleKind::Shutdown, 2);
    assert!(actions.contains(&LifecycleAction::AwaitTerminalState(old_tag)));
    assert!(!actions.contains(&LifecycleAction::CancelPreSubmitWork(old_tag)));
}

#[test]
fn c0_3a_convergence_selects_the_highest_unsatisfied() {
    for mask in 0..(1usize << DesiredField::all().len()) {
        for prerequisite_case in 0..3 {
            let mut arbiter = Arbiter::new(1);
            let mut present_fields = Vec::new();
            for (index, field) in DesiredField::all().into_iter().enumerate() {
                if mask & (1 << index) != 0 {
                    present_fields.push(field);
                    let generation =
                        100 + (prerequisite_case * DesiredField::all().len() + index) as u64;
                    let selected_intent = match (field, prerequisite_case) {
                        (DesiredField::Presence, 2) => DesiredIntent::DevicePresence {
                            present: false,
                            identity_epoch: generation,
                        },
                        (DesiredField::Seat, 1) => DesiredIntent::Seat {
                            target: SeatTarget::Released,
                            epoch: generation,
                        },
                        _ => field_intent(field, generation),
                    };
                    arbiter.project_desired(event(generation), selected_intent);
                }
            }
            let actions = arbiter.converge();
            let expected = arbiter
                .desired()
                .representatives()
                .iter()
                .map(|representative| representative.kind)
                .filter(|kind| match kind {
                    LifecycleKind::DeviceAddedOrReplaced => {
                        arbiter.desired().seat_target() == Some(SeatTarget::Owned)
                    }
                    LifecycleKind::VTAcquire => arbiter.desired().device_presence() == Some(true),
                    _ => true,
                })
                .min_by_key(|kind| kind.precedence());
            assert_eq!(
                arbiter.transition().map(|transition| transition.kind),
                expected,
                "mask {mask:#x}, prerequisite case {prerequisite_case}"
            );
            for field in present_fields {
                let Some(representative) = arbiter.desired().representative(field) else {
                    continue;
                };
                let is_winner = arbiter
                    .transition()
                    .is_some_and(|transition| transition.kind == representative.kind);
                if !is_winner {
                    let expected_prerequisite = match representative.kind {
                        LifecycleKind::DeviceAddedOrReplaced
                            if arbiter.desired().seat_target() != Some(SeatTarget::Owned) =>
                        {
                            Some(Prerequisite::SeatReleased)
                        }
                        LifecycleKind::VTAcquire
                            if arbiter.desired().device_presence() != Some(true) =>
                        {
                            Some(Prerequisite::DeviceAbsent)
                        }
                        _ => None,
                    };
                    if let Some(prerequisite) = expected_prerequisite {
                        assert_eq!(
                            arbiter.desired().disposition(representative.event_id),
                            Some(Disposition::Deferred(prerequisite))
                        );
                    }
                }
            }
            if expected.is_none() {
                assert!(!actions.iter().any(|action| matches!(
                    action,
                    LifecycleAction::PhysicalAdvanceAllowed(_)
                )));
            }
        }
    }
}

#[test]
fn c0_3a_mixed_arrivals_keep_every_lower_field() {
    for active in LifecycleKind::all() {
        let lower: Vec<_> = LifecycleKind::all()
            .into_iter()
            .filter(|kind| kind.precedence() > active.precedence())
            .collect();
        let subset_count = 1usize << lower.len();
        for mask in 0..subset_count {
            let selected: Vec<_> = lower
                .iter()
                .enumerate()
                .filter_map(|(index, kind)| ((mask & (1 << index)) != 0).then_some(*kind))
                .collect();
            let arrivals = mixed_arrivals(&selected);
            let groups = mixed_field_groups(&arrivals);
            let expected = expected_mixed_ledger(active, &arrivals);
            let full_mix = mask + 1 == subset_count;

            if full_mix {
                let sorted = flatten_mixed_groups(&groups, 0..groups.len());
                let reverse = flatten_mixed_groups(&groups, (0..groups.len()).rev());
                let adjacent_generations = if groups.is_empty() {
                    Vec::new()
                } else {
                    flatten_mixed_groups(&groups, (1..groups.len()).chain(std::iter::once(0)))
                };
                let split_generations = split_mixed_generations(&groups);
                let mut orders = vec![sorted, reverse, adjacent_generations, split_generations];
                orders.extend(seeded_mixed_orders(
                    &groups,
                    32,
                    0x03a1_u64 ^ (u64::from(active.precedence()) << 32),
                ));
                let mut checked = Vec::new();
                for order in orders {
                    if !checked.contains(&order) {
                        assert_mixed_ledger_and_winners(active, &order, &expected);
                        checked.push(order);
                    }
                }
            } else if arrivals.len() <= 4 {
                permute_mixed_groups(&groups, |order| {
                    assert_mixed_ledger_and_winners(active, &order, &expected);
                });
            } else {
                let sorted = flatten_mixed_groups(&groups, 0..groups.len());
                assert_mixed_ledger_and_winners(active, &sorted, &expected);
            }
        }
    }
}

#[derive(Clone, Copy, Debug, Eq, PartialEq)]
struct MixedArrival {
    kind: LifecycleKind,
    generation: u64,
    event_id: LifecycleEventId,
}

#[derive(Debug, Eq, PartialEq)]
struct ExpectedMixedLedger {
    dispositions: Vec<(LifecycleEventId, Disposition)>,
    representatives: Vec<(LifecycleEventId, DesiredField, LifecycleKind, Disposition)>,
    winners: Vec<LifecycleKind>,
}

fn latest_wins_field(field: DesiredField) -> bool {
    matches!(
        field,
        DesiredField::Presence
            | DesiredField::Seat
            | DesiredField::AdministrativeReprobe
            | DesiredField::Topology
            | DesiredField::Dpms
    )
}

fn mixed_event_id(kind: LifecycleKind, generation: u64) -> LifecycleEventId {
    event(100 + u64::from(kind.precedence()) * 10 + generation)
}

fn mixed_arrivals(selected: &[LifecycleKind]) -> Vec<MixedArrival> {
    let mut arrivals = Vec::new();
    let mut field_generations: Vec<(DesiredField, u64)> = Vec::new();

    for kind in selected.iter().copied() {
        let field = field_for_kind(kind);
        let generation = if latest_wins_field(field) {
            if let Some((_, current)) = field_generations
                .iter_mut()
                .find(|(current, _)| *current == field)
            {
                *current += 1;
                *current
            } else {
                field_generations.push((field, 1));
                1
            }
        } else {
            1
        };
        arrivals.push(MixedArrival {
            kind,
            generation,
            event_id: mixed_event_id(kind, generation),
        });
    }

    let singleton_fields: Vec<_> = field_generations
        .iter()
        .filter_map(|(field, count)| (*count == 1).then_some(*field))
        .collect();
    for field in singleton_fields {
        let first = arrivals
            .iter()
            .find(|arrival| field_for_kind(arrival.kind) == field)
            .copied()
            .expect("singleton field has an arrival");
        arrivals.push(MixedArrival {
            kind: first.kind,
            generation: 2,
            event_id: mixed_event_id(first.kind, 2),
        });
    }
    arrivals
}

fn mixed_field_groups(arrivals: &[MixedArrival]) -> Vec<Vec<MixedArrival>> {
    let mut groups: Vec<Vec<MixedArrival>> = Vec::new();
    for arrival in arrivals.iter().copied() {
        let field = field_for_kind(arrival.kind);
        if let Some(group) = groups
            .iter_mut()
            .find(|group| field_for_kind(group[0].kind) == field)
        {
            group.push(arrival);
        } else {
            groups.push(vec![arrival]);
        }
    }
    for group in &mut groups {
        group.sort_by_key(|arrival| arrival.generation);
    }
    groups.sort_by_key(|group| {
        group
            .iter()
            .map(|arrival| arrival.kind.precedence())
            .min()
            .unwrap_or(u8::MAX)
    });
    groups
}

fn flatten_mixed_groups(
    groups: &[Vec<MixedArrival>],
    order: impl Iterator<Item = usize>,
) -> Vec<MixedArrival> {
    let mut arrivals = Vec::new();
    for index in order {
        arrivals.extend(groups[index].iter().copied());
    }
    arrivals
}

fn permute_mixed_groups(
    groups: &[Vec<MixedArrival>],
    mut visit: impl FnMut(Vec<MixedArrival>),
) {
    fn recurse(
        groups: &[Vec<MixedArrival>],
        used: &mut [bool],
        order: &mut Vec<usize>,
        visit: &mut impl FnMut(Vec<MixedArrival>),
    ) {
        if order.len() == groups.len() {
            visit(flatten_mixed_groups(groups, order.iter().copied()));
            return;
        }
        for index in 0..groups.len() {
            if !used[index] {
                used[index] = true;
                order.push(index);
                recurse(groups, used, order, visit);
                order.pop();
                used[index] = false;
            }
        }
    }

    recurse(
        groups,
        &mut vec![false; groups.len()],
        &mut Vec::new(),
        &mut visit,
    );
}

fn split_mixed_generations(groups: &[Vec<MixedArrival>]) -> Vec<MixedArrival> {
    let mut order = Vec::new();
    for generation in [1, 2] {
        for group in groups {
            order.extend(
                group
                    .iter()
                    .filter(|arrival| arrival.generation == generation)
                    .copied(),
            );
        }
    }
    order
}

fn seeded_mixed_orders(
    groups: &[Vec<MixedArrival>],
    sample_count: usize,
    mut seed: u64,
) -> Vec<Vec<MixedArrival>> {
    let mut orders = Vec::with_capacity(sample_count);
    for _ in 0..sample_count {
        let mut indexes: Vec<_> = (0..groups.len()).collect();
        for index in (1..indexes.len()).rev() {
            seed ^= seed >> 12;
            seed ^= seed << 25;
            seed ^= seed >> 27;
            let random = seed.wrapping_mul(0x2545_f491_4f6c_dd1d);
            indexes.swap(index, (random % (index as u64 + 1)) as usize);
        }
        orders.push(flatten_mixed_groups(groups, indexes.into_iter()));
    }
    orders
}

fn latest_mixed_by_field(arrivals: &[MixedArrival]) -> Vec<(DesiredField, MixedArrival)> {
    let mut latest: Vec<(DesiredField, MixedArrival)> = Vec::new();
    for arrival in arrivals.iter().copied() {
        let field = field_for_kind(arrival.kind);
        if let Some((_, previous)) = latest.iter_mut().find(|(current, _)| *current == field) {
            if arrival.generation > previous.generation {
                *previous = arrival;
            }
        } else {
            latest.push((field, arrival));
        }
    }
    latest
}

fn expected_deferred(
    kind: LifecycleKind,
    device_present: bool,
    seat_target: SeatTarget,
) -> Option<Disposition> {
    match kind {
        LifecycleKind::DeviceAddedOrReplaced if seat_target != SeatTarget::Owned => {
            Some(Disposition::Deferred(Prerequisite::SeatReleased))
        }
        LifecycleKind::VTAcquire if !device_present => {
            Some(Disposition::Deferred(Prerequisite::DeviceAbsent))
        }
        LifecycleKind::DPMS if seat_target == SeatTarget::Released => {
            Some(Disposition::Deferred(Prerequisite::SeatReleased))
        }
        _ => None,
    }
}

fn expected_mixed_ledger(
    active: LifecycleKind,
    arrivals: &[MixedArrival],
) -> ExpectedMixedLedger {
    let latest = latest_mixed_by_field(arrivals);
    let active_field = field_for_kind(active);
    let first_active_replacement = arrivals
        .iter()
        .filter(|arrival| field_for_kind(arrival.kind) == active_field)
        .min_by_key(|arrival| arrival.generation)
        .copied();

    let device_present = latest
        .iter()
        .find(|(field, _)| *field == DesiredField::Presence)
        .map(|(_, arrival)| arrival.kind == LifecycleKind::DeviceAddedOrReplaced)
        .unwrap_or_else(|| match active {
            LifecycleKind::DeviceRemoved => false,
            LifecycleKind::DeviceAddedOrReplaced => true,
            _ => true,
        });
    let seat_target = latest
        .iter()
        .find(|(field, _)| *field == DesiredField::Seat)
        .map(|(_, arrival)| {
            if arrival.kind == LifecycleKind::VTRelease {
                SeatTarget::Released
            } else {
                SeatTarget::Owned
            }
        })
        .unwrap_or_else(|| match active {
            LifecycleKind::VTRelease => SeatTarget::Released,
            _ => SeatTarget::Owned,
        });

    let mut winners: Vec<_> = if active == LifecycleKind::Shutdown {
        Vec::new()
    } else {
        latest
            .iter()
            .filter_map(|(_, arrival)| {
                expected_deferred(arrival.kind, device_present, seat_target)
                    .is_none()
                    .then_some(arrival.kind)
            })
            .collect()
    };
    winners.sort_by_key(|kind| kind.precedence());

    let disposition_for_latest = |kind: LifecycleKind| {
        if active == LifecycleKind::Shutdown {
            Disposition::Invalidated(kms_owner::lifecycle::InvalidationReason::Shutdown)
        } else if let Some(deferred) = expected_deferred(kind, device_present, seat_target) {
            deferred
        } else {
            let winner_index = winners
                .iter()
                .position(|winner| *winner == kind)
                .expect("runnable representative has a winner");
            Disposition::Applied(LifecycleTransitionId::from_raw(2 + winner_index as u64))
        }
    };

    let mut dispositions = vec![(
        event(1),
        first_active_replacement.map_or(
            Disposition::Applied(LifecycleTransitionId::from_raw(1)),
            |arrival| Disposition::SupersededBy(arrival.event_id),
        ),
    )];
    let mut representatives = Vec::new();
    if first_active_replacement.is_none() {
        representatives.push((
            event(1),
            active_field,
            active,
            Disposition::Applied(LifecycleTransitionId::from_raw(1)),
        ));
    }

    for arrival in arrivals.iter().copied() {
        let disposition = if active == LifecycleKind::Shutdown {
            Disposition::Invalidated(kms_owner::lifecycle::InvalidationReason::Shutdown)
        } else if let Some(next) = arrivals
            .iter()
            .filter(|candidate| {
                field_for_kind(candidate.kind) == field_for_kind(arrival.kind)
                    && candidate.generation > arrival.generation
            })
            .min_by_key(|candidate| candidate.generation)
        {
            Disposition::SupersededBy(next.event_id)
        } else {
            disposition_for_latest(arrival.kind)
        };
        dispositions.push((arrival.event_id, disposition));
        if !matches!(
            disposition,
            Disposition::SupersededBy(_) | Disposition::Invalidated(_)
        ) && active != LifecycleKind::Shutdown
        {
            representatives.push((
                arrival.event_id,
                field_for_kind(arrival.kind),
                arrival.kind,
                disposition,
            ));
        }
    }
    dispositions.sort_by_key(|(event_id, _)| event_id.get());
    representatives.sort_by_key(|(event_id, _, _, _)| event_id.get());

    ExpectedMixedLedger {
        dispositions,
        representatives,
        winners,
    }
}

fn record_mixed_disposition(
    ledger: &mut Vec<(LifecycleEventId, Disposition)>,
    event_id: LifecycleEventId,
    disposition: Disposition,
) {
    if let Some((_, current)) = ledger.iter_mut().find(|(current, _)| *current == event_id) {
        *current = disposition;
    } else {
        ledger.push((event_id, disposition));
    }
}

fn assert_mixed_ledger_and_winners(
    active: LifecycleKind,
    arrivals: &[MixedArrival],
    expected: &ExpectedMixedLedger,
) {
    let mut arbiter = Arbiter::new(1);
    seed_prerequisites(&mut arbiter);
    start(&mut arbiter, active, 1);
    let mut dispositions = Vec::new();
    for arrival in arrivals.iter().copied() {
        let result = arbiter.apply(ArbiterInput::LifecycleEvent {
            event_id: arrival.event_id,
            intent: intent(arrival.kind, arrival.generation),
        });
        for action in result {
            if let LifecycleAction::DispositionChanged {
                event_id,
                disposition,
            } = action
            {
                record_mixed_disposition(&mut dispositions, event_id, disposition);
            }
        }
    }
    let winners = settle_without_driver(&mut arbiter);
    for representative in arbiter.desired().representatives() {
        if representative.event_id == event(1)
            || arrivals
                .iter()
                .any(|arrival| arrival.event_id == representative.event_id)
        {
            if let Some(disposition) = representative.disposition {
                record_mixed_disposition(&mut dispositions, representative.event_id, disposition);
            }
        }
    }

    dispositions.sort_by_key(|(event_id, _)| event_id.get());
    assert_eq!(
        dispositions, expected.dispositions,
        "active {active:?}, arrivals {arrivals:?}"
    );

    let mut representatives: Vec<_> = arbiter
        .desired()
        .representatives()
        .iter()
        .filter(|representative| {
            representative.event_id == event(1)
                || arrivals
                    .iter()
                    .any(|arrival| arrival.event_id == representative.event_id)
        })
        .map(|representative| {
            (
                representative.event_id,
                representative.field,
                representative.kind,
                representative
                    .disposition
                    .expect("every retained mixed representative settles or defers"),
            )
        })
        .collect();
    representatives.sort_by_key(|(event_id, _, _, _)| event_id.get());
    assert_eq!(
        representatives, expected.representatives,
        "active {active:?}, arrivals {arrivals:?}"
    );
    assert_eq!(
        winners, expected.winners,
        "active {active:?}, arrivals {arrivals:?}"
    );
}

#[test]
fn c0_3a_added_and_acquire_converge_in_either_order() {
    for order in [
        [
            LifecycleKind::DeviceAddedOrReplaced,
            LifecycleKind::VTAcquire,
        ],
        [
            LifecycleKind::VTAcquire,
            LifecycleKind::DeviceAddedOrReplaced,
        ],
    ] {
        let mut arbiter = Arbiter::new(1);
        for (index, kind) in order.into_iter().enumerate() {
            arbiter.apply(ArbiterInput::LifecycleEvent {
                event_id: event(10 + index as u64),
                intent: intent(kind, 10 + index as u64),
            });
            if index == 0 {
                assert!(arbiter.transition().is_none());
                let field = if kind == LifecycleKind::DeviceAddedOrReplaced {
                    DesiredField::Presence
                } else {
                    DesiredField::Seat
                };
                let expected = if kind == LifecycleKind::DeviceAddedOrReplaced {
                    Prerequisite::SeatReleased
                } else {
                    Prerequisite::DeviceAbsent
                };
                assert_eq!(
                    arbiter.desired().representative(field).unwrap().disposition,
                    Some(Disposition::Deferred(expected)),
                );
            }
        }
        while arbiter.transition().is_some() {
            finish_current(&mut arbiter);
        }
        assert_eq!(arbiter.desired().representatives().len(), 2);
        assert!(
            arbiter
                .desired()
                .representatives()
                .iter()
                .all(|entry| { entry.disposition.is_some_and(Disposition::is_terminal) })
        );
    }
}

#[test]
fn c0_3a_epoch_bumps_once_and_before_invalidation() {
    let mut clean = Arbiter::new(1);
    start(&mut clean, LifecycleKind::DPMS, 1);
    let before = clean.epoch();
    finish_current(&mut clean);
    assert_eq!(clean.epoch(), before, "clean drain remains under its epoch");

    let mut coalesced = Arbiter::new(1);
    start(&mut coalesced, LifecycleKind::DPMS, 10);
    let mut bumps = 0;
    for generation in 11..21 {
        let actions = start(&mut coalesced, LifecycleKind::DPMS, generation);
        bumps += actions
            .iter()
            .filter(|action| matches!(action, LifecycleAction::EpochAdvanced(_)))
            .count();
    }
    assert_eq!(bumps, 1);
    assert_eq!(coalesced.epoch(), LifecycleEpochId::from_raw(2));

    let mut abandoned = Arbiter::new(1);
    start(&mut abandoned, LifecycleKind::DPMS, 30);
    let abandoned_id = abandoned.transition().unwrap().id;
    let actions = start(&mut abandoned, LifecycleKind::Shutdown, 31);
    assert!(matches!(
        actions.first(),
        Some(LifecycleAction::CloseAdmission(_))
    ));
    let bump_index = actions
        .iter()
        .position(|action| matches!(action, LifecycleAction::EpochAdvanced(_)))
        .expect("forced abandonment advances epoch");
    let invalidation_index = actions
        .iter()
        .position(|action| {
            matches!(
                action,
                LifecycleAction::DispositionChanged {
                    disposition: Disposition::Invalidated(_),
                    ..
                }
            )
        })
        .expect("shutdown invalidates old representatives");
    assert!(bump_index < invalidation_index);
    let abandoned_action_index = actions
        .iter()
        .position(|action| {
            matches!(
                action,
                LifecycleAction::CancelPreSubmitWork(tag) if tag.transition == abandoned_id
            )
        })
        .expect("pre-submit transition is cancelled after fencing its epoch");
    assert!(bump_index < abandoned_action_index);
}

#[test]
fn c0_3a_ordinary_work_is_tagged_without_a_transition() {
    let mut arbiter = Arbiter::new(1);
    let initial = arbiter.ordinary_work_tag().unwrap();
    assert_eq!(initial, WorkTag::ordinary(1, LifecycleEpochId::first()));
    assert_eq!(initial.transition, None);
    start(&mut arbiter, LifecycleKind::DPMS, 1);
    finish_current(&mut arbiter);
    let ordinary = arbiter.ordinary_work_tag().unwrap();
    assert_eq!(ordinary.lifecycle_epoch, arbiter.epoch());
    assert_eq!(ordinary.transition, None);

    start(&mut arbiter, LifecycleKind::DPMS, 2);
    start(&mut arbiter, LifecycleKind::DPMS, 3);
    assert!(arbiter.epoch() > ordinary.lifecycle_epoch);
    finish_current(&mut arbiter);
    let actions = arbiter.apply(ArbiterInput::OrdinaryReply { tag: ordinary });
    assert!(
        actions
            .iter()
            .any(|action| matches!(action, LifecycleAction::StaleResultIgnored { .. }))
    );
}

#[test]
fn c0_3a_outcomes_map_to_dispositions() {
    let mut completed = Arbiter::new(1);
    completed.add_protocol_output(8);
    start(&mut completed, LifecycleKind::DPMS, 1);
    let current_tag = tag(&completed);
    completed.apply(ArbiterInput::CommitOutcome {
        tag: current_tag,
        outcome: LifecycleCommitOutcome::Completed {
            dpms_projections_retired: true,
        },
    });
    assert_eq!(
        completed.desired().disposition(event(1)),
        Some(Disposition::Applied(current_tag.transition))
    );

    for latched in [Some(9), None] {
        let mut rejected = Arbiter::new(1);
        start(
            &mut rejected,
            LifecycleKind::DPMS,
            20 + u64::from(latched.is_some()),
        );
        let rejected_tag = tag(&rejected);
        rejected.apply(ArbiterInput::CommitOutcome {
            tag: rejected_tag,
            outcome: LifecycleCommitOutcome::Rejected {
                topology_latched_generation: latched,
            },
        });
        let expected = latched.map_or(
            Disposition::Deferred(Prerequisite::ReadinessClosed),
            |generation| Disposition::Deferred(Prerequisite::TopologyLatched(generation)),
        );
        let representative = rejected.desired().representative(DesiredField::Dpms).unwrap();
        assert_eq!(representative.disposition, Some(expected));
        assert!(!matches!(
            representative.disposition,
            Some(Disposition::Applied(_))
        ));
        if let Some(generation) = latched {
            let actions = rejected.apply(ArbiterInput::LifecycleEvent {
                event_id: event(30),
                intent: DesiredIntent::Dpms {
                    level: 0,
                    epoch: 30,
                },
            });
            assert!(rejected.transition().is_none());
            assert!(
                !actions
                    .iter()
                    .any(|action| matches!(action, LifecycleAction::PhysicalAdvanceAllowed(_)))
            );
            assert_eq!(
                rejected
                    .desired()
                    .representative(DesiredField::Dpms)
                    .unwrap()
                    .disposition,
                Some(Disposition::Deferred(Prerequisite::TopologyLatched(
                    generation
                ))),
            );
        }
    }

    let mut stale = Arbiter::new(1);
    seed_prerequisites(&mut stale);
    start(&mut stale, LifecycleKind::DPMS, 40);
    let stale_tag = tag(&stale);
    start(&mut stale, LifecycleKind::VTRelease, 41);
    let actions = stale.apply(ArbiterInput::CommitOutcome {
        tag: stale_tag,
        outcome: LifecycleCommitOutcome::Completed {
            dpms_projections_retired: true,
        },
    });
    assert!(
        actions
            .iter()
            .any(|action| matches!(action, LifecycleAction::StaleResultIgnored { .. }))
    );
    assert!(!matches!(
        stale.desired().disposition(event(40)),
        Some(Disposition::Applied(_))
    ));

    let mut lost = Arbiter::new(1);
    lost.add_protocol_output(1);
    start(&mut lost, LifecycleKind::DPMS, 50);
    let outcome_actions = lost.apply(ArbiterInput::CompletionUnknown {
        event_id: event(51),
        boundary_recovery_id: None,
    });
    let result = outcome_actions
        .iter()
        .find_map(|action| match action {
            LifecycleAction::CompletionLossTableU { row, outcome } => Some((*row, *outcome)),
            _ => None,
        })
        .unwrap();
    assert_eq!(
        result.0,
        CompletionUnknownRow::DPMS {
            target: DpmsTarget::Off
        }
    );
    assert!(result.1.recovery.new_incident.is_some());
    assert!(outcome_actions.iter().any(|action| matches!(action, LifecycleAction::AllocateRecoveryIncident { event_id: id, .. } if *id == event(51))));
    assert_eq!(lost.state(), DeviceLifecycleState::Poisoned);
    assert_eq!(
        lost.desired().disposition(event(50)),
        Some(Disposition::Deferred(Prerequisite::ReadinessClosed))
    );

    let mut stale_epoch = Arbiter::new(1);
    start(&mut stale_epoch, LifecycleKind::DPMS, 60);
    let old = tag(&stale_epoch);
    let mut old_epoch = old;
    old_epoch.lifecycle_epoch = LifecycleEpochId::first();
    stale_epoch.apply(ArbiterInput::LifecycleEvent {
        event_id: event(61),
        intent: intent(LifecycleKind::DPMS, 61),
    });
    let actions = stale_epoch.apply(ArbiterInput::CommitOutcome {
        tag: old_epoch,
        outcome: LifecycleCommitOutcome::Completed {
            dpms_projections_retired: true,
        },
    });
    assert!(
        actions
            .iter()
            .any(|action| matches!(action, LifecycleAction::StaleResultIgnored { .. }))
    );
    assert!(!matches!(
        stale_epoch.desired().disposition(event(61)),
        Some(Disposition::Applied(_))
    ));
}

#[test]
fn c0_3a_poisoned_dpms_is_logical_only() {
    let mut allocator = RecoveryIdAllocator::new();
    let seed = IncidentSeed::completion_loss(event(1), RecoveryIncidentState::Paused);
    let incident = allocator.allocate_incident(seed).unwrap();
    let recovery_id = incident.id();
    let mut arbiter = Arbiter::new(1);
    arbiter.project_desired(event(1), DesiredIntent::NormalRecovery { recovery_id });
    arbiter.restore_recovery(Some(incident), DeviceLifecycleState::Poisoned);

    let off = start(&mut arbiter, LifecycleKind::DPMS, 2);
    assert!(arbiter.transition().is_none());
    assert!(
        !off.iter()
            .any(|action| matches!(action, LifecycleAction::PhysicalAdvanceAllowed(_)))
    );
    assert_eq!(
        arbiter.desired().disposition(event(2)),
        Some(Disposition::Deferred(Prerequisite::ReadinessClosed))
    );
    assert_eq!(arbiter.recovery().unwrap().id(), recovery_id);
    assert_eq!(
        arbiter.recovery().unwrap().state(),
        RecoveryIncidentState::Paused
    );

    let on = arbiter.apply(ArbiterInput::LifecycleEvent {
        event_id: event(3),
        intent: DesiredIntent::Dpms { level: 0, epoch: 3 },
    });
    assert!(
        !on.iter()
            .any(|action| matches!(action, LifecycleAction::PhysicalAdvanceAllowed(_)))
    );
    assert!(on.iter().any(|action| matches!(
        action,
        LifecycleAction::DispositionChanged {
            event_id: displaced,
            disposition: Disposition::SupersededBy(newer),
        } if *displaced == event(2) && *newer == event(3)
    )));
    assert_eq!(
        arbiter.desired().disposition(event(3)),
        Some(Disposition::Deferred(Prerequisite::ReadinessClosed))
    );
    assert_eq!(arbiter.recovery().unwrap().id(), recovery_id);
    assert_eq!(
        arbiter.recovery().unwrap().state(),
        RecoveryIncidentState::Active
    );
    assert_eq!(
        arbiter.recovery().unwrap().budget(),
        RecoveryAttemptBudget::Available
    );
    assert!(
        !on.iter()
            .any(|action| matches!(action, LifecycleAction::AllocateRecoveryIncident { .. }))
    );
}

#[test]
fn an_outcome_for_another_transition_is_ignored_and_changes_nothing() {
    let mut arbiter = Arbiter::new(1);
    start(&mut arbiter, LifecycleKind::DPMS, 2);
    let current = tag(&arbiter);
    let other = LifecycleTransitionId::from_raw(current.transition.get() + 7);
    let stale = TransitionTag::new(1, current.lifecycle_epoch, other);
    let before = arbiter.transition().unwrap();
    let actions = arbiter.apply(ArbiterInput::CommitOutcome {
        tag: stale,
        outcome: LifecycleCommitOutcome::Completed {
            dpms_projections_retired: true,
        },
    });
    assert_eq!(
        actions,
        vec![Action::StaleResultIgnored {
            transition_id: Some(other)
        }]
    );
    assert_eq!(arbiter.transition().unwrap().id, before.id);
}

#[test]
fn an_ordinary_reply_from_another_incarnation_is_stale() {
    let mut arbiter = Arbiter::new(1);
    let reply = WorkTag {
        incarnation: 2,
        lifecycle_epoch: arbiter.epoch(),
        transition: None,
    };
    let actions = arbiter.apply(ArbiterInput::OrdinaryReply { tag: reply });
    assert!(matches!(
        actions.as_slice(),
        [Action::StaleResultIgnored { .. }]
    ));
    let current = WorkTag {
        incarnation: 1,
        lifecycle_epoch: arbiter.epoch(),
        transition: None,
    };
    assert_eq!(
        arbiter.apply(ArbiterInput::OrdinaryReply { tag: current }),
        vec![Action::OrdinaryReplyCurrent]
    );
}

#[test]
fn a_failed_receipt_is_reported_and_keeps_work_fenced() {
    let mut arbiter = Arbiter::new(1);
    start(&mut arbiter, LifecycleKind::Shutdown, 3);
    let current = tag(&arbiter);
    let failed = arbiter.apply(ArbiterInput::Receipt {
        tag: current,
        receipt: LifecycleReceipt::AdmissionClosed,
        result: LifecycleReceiptResult::Failed,
    });
    assert_eq!(
        failed,
        vec![Action::ReceiptFailed {
            transition_id: current.transition,
            receipt: LifecycleReceipt::AdmissionClosed,
        }]
    );
    let rest = acknowledge_all(&mut arbiter);
    assert!(
        !rest
            .iter()
            .any(|action| matches!(action, Action::PhysicalAdvanceAllowed(_)))
    );
}

#[test]
fn the_last_receipt_allows_physical_work_once() {
    let mut arbiter = Arbiter::new(1);
    start(&mut arbiter, LifecycleKind::Shutdown, 4);
    let current = tag(&arbiter);
    let first = acknowledge_all(&mut arbiter);
    assert_eq!(first, vec![Action::PhysicalAdvanceAllowed(current)]);
    let again = acknowledge_all(&mut arbiter);
    assert!(again.is_empty());
    assert_eq!(
        arbiter.transition().unwrap().phase,
        LifecycleTransitionPhase::PhysicalReady
    );
}

#[test]
fn a_rejection_with_a_latched_topology_readies_the_device() {
    let mut arbiter = Arbiter::new(1);
    seed_prerequisites(&mut arbiter);
    start(&mut arbiter, LifecycleKind::DPMS, 5);
    let current = tag(&arbiter);
    let actions = arbiter.apply(ArbiterInput::CommitOutcome {
        tag: current,
        outcome: LifecycleCommitOutcome::Rejected {
            topology_latched_generation: Some(9),
        },
    });
    assert_eq!(arbiter.state(), DeviceLifecycleState::Ready);
    assert!(arbiter.transition().is_none());
    assert_eq!(
        actions.last(),
        Some(&Action::ReopenAdmission(WorkTag {
            incarnation: 1,
            lifecycle_epoch: arbiter.epoch(),
            transition: None,
        }))
    );
}

#[test]
fn a_completed_shutdown_leaves_the_device_quiescing() {
    let mut arbiter = Arbiter::new(1);
    start(&mut arbiter, LifecycleKind::Shutdown, 6);
    finish_current(&mut arbiter);
    assert_eq!(arbiter.state(), DeviceLifecycleState::Quiescing);
    assert!(arbiter.transition().is_none());
}

#[test]
fn an_outcome_starts_the_waiting_representative_right_after_its_report() {
    let mut arbiter = Arbiter::new(1);
    seed_prerequisites(&mut arbiter);
    start(&mut arbiter, LifecycleKind::AdministrativeReprobe, 1);
    let first = arbiter.transition().unwrap();
    arbiter.apply(ArbiterInput::LifecycleEvent {
        event_id: event(2),
        intent: DesiredIntent::Dpms { level: 1, epoch: 2 },
    });
    assert_eq!(arbiter.transition().unwrap().id, first.id);
    acknowledge_all(&mut arbiter);
    let ended = tag(&arbiter);
    let actions = arbiter.apply(ArbiterInput::CommitOutcome {
        tag: ended,
        outcome: LifecycleCommitOutcome::Completed {
            dpms_projections_retired: true,
        },
    });
    let next = arbiter.transition().expect("the waiting representative starts");
    assert_eq!(next.kind, LifecycleKind::DPMS);
    assert_ne!(next.id, first.id);
    assert!(!arbiter.admission_open());
    assert_eq!(
        arbiter.desired().disposition(event(1)),
        Some(Disposition::Applied(first.id))
    );
    let started = TransitionTag::new(1, arbiter.epoch(), next.id);
    assert_eq!(
        actions,
        vec![
            Action::DispositionChanged {
                event_id: event(1),
                disposition: Disposition::Applied(first.id),
            },
            Action::CloseAdmission(WorkTag {
                incarnation: 1,
                lifecycle_epoch: arbiter.epoch(),
                transition: Some(next.id),
            }),
            Action::StopAliasCreation(started),
            Action::CancelPreSubmitWork(started),
            Action::TerminalizePresents(started),
            Action::TransferQuarantineToWinner(started),
        ]
    );
}
