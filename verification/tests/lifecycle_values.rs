use kms_owner::lifecycle::{Disposition, LifecycleEventId, LifecycleKind};

#[test]
fn c0_3a_kind_order_is_c0_precedence() {
    let expected = [
        LifecycleKind::Shutdown,
        LifecycleKind::DeviceRemoved,
        LifecycleKind::VTRelease,
        LifecycleKind::DeviceAddedOrReplaced,
        LifecycleKind::VTAcquire,
        LifecycleKind::AdministrativeReprobe,
        LifecycleKind::IdentityChangingHotplug,
        LifecycleKind::TopologyRebuild,
        LifecycleKind::DPMS,
        LifecycleKind::NormalRecovery,
    ];

    assert_eq!(LifecycleKind::all(), expected);
    for (rank, kind) in LifecycleKind::all().into_iter().enumerate() {
        assert_eq!(kind.precedence(), rank as u8);
    }
    for adjacent in LifecycleKind::all().windows(2) {
        assert!(adjacent[0] < adjacent[1]);
        assert!(adjacent[0].outranks(adjacent[1]));
    }
}

#[test]
fn c0_3a_event_id_is_checked() {
    let first = LifecycleEventId::first();
    assert_eq!(first.get(), 1);
    assert_eq!(first.checked_next(), Some(first.next()));
    assert_eq!(first.next().get(), 2);
    assert_eq!(LifecycleEventId::from_raw(u64::MAX).checked_next(), None);
}

#[test]
fn c0_3a_terminal_and_deferred_are_distinct() {
    let expected_terminal = [true, true, true, true, true, false];
    assert_eq!(
        Disposition::all().map(Disposition::is_terminal),
        expected_terminal
    );
}

