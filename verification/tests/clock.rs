use kms_owner::clock::{
    extend_sequence, page_ust, ClockError, ClockKey, ClockSample, ClockSource, CrtcClock, ProbeState,
};

#[test]
fn raw_zero_is_a_real_wrap_not_a_source_switch() {
    assert_eq!(extend_sequence(0xffff_ffff, 0), Ok(0x1_0000_0000));
    assert_eq!(extend_sequence(0x1_0000_0001, 0xffff_ffff), Ok(0xffff_ffff));
    assert_eq!(extend_sequence(0, 0x8000_0000), Err(ClockError::HalfRange));
    assert_eq!(
        extend_sequence(0, 0xffff_ffff),
        Err(ClockError::NoRepresentative)
    );
    assert_eq!(page_ust(11, 22), Ok(11_000_022));
    assert_eq!(page_ust(11, 1_000_000), Err(ClockError::BadMicroseconds));
    assert_eq!(page_ust(u32::MAX, 999_999), Ok(4_294_967_295_999_999));
    let mut reference = 0xffff_fffe;
    for (raw, expected) in [
        (0xffff_ffff, 0xffff_ffff),
        (0, 0x1_0000_0000),
        (1, 0x1_0000_0001),
    ] {
        reference = extend_sequence(reference, raw).unwrap();
        assert_eq!(reference, expected);
    }
}

#[test]
fn installing_a_reference_does_not_manufacture_a_sample() {
    let mut clock = test_clock(1, 1);
    clock.install_reference(44);
    assert_eq!(clock.source, ClockSource::KernelSequence);
    assert_eq!(clock.probe, ProbeState::Succeeded);
    assert_eq!(clock.reference, Some(44));
    assert_eq!(clock.latest, None);
}

#[test]
fn observe_never_regresses_msc_or_ust() {
    let mut clock = test_clock(1, 1);
    assert!(clock.observe(ClockSample { msc: 10, ust: 100 }));
    assert!(!clock.observe(ClockSample { msc: 9, ust: 90 }));
    assert_eq!(clock.latest, Some(ClockSample { msc: 10, ust: 100 }));
}

fn test_clock(hardware_crtc: u32, epoch: u64) -> CrtcClock {
    CrtcClock::new(
        ClockKey {
            hardware_crtc,
            epoch: kms_owner::identity::ClockEpochId::from_raw(epoch),
        },
        kms_owner::lifecycle::LifecycleEpochId::first(),
        1,
    )
}
