use kms_owner::closure::{
    AtomicCrtcClosure, AtomicPropertyList, ClosureError, CrtcPower, FencePolicy, ObjectKind, PropertyIds,
    SerializedObject,
};
use std::collections::BTreeMap;

const IDS: PropertyIds = PropertyIds {
    crtc_id: 20,
    active: 21,
    out_fence_ptr: 22,
};

fn crtc(id: u32, new_active: bool) -> SerializedObject {
    SerializedObject {
        object: id,
        kind: ObjectKind::Crtc,
        old_crtc_id: None,
        props: vec![(IDS.active, u64::from(new_active))],
    }
}
fn plane(id: u32, old: u32, new: u32) -> SerializedObject {
    SerializedObject {
        object: id,
        kind: ObjectKind::Plane,
        old_crtc_id: Some(old),
        props: vec![(IDS.crtc_id, u64::from(new))],
    }
}
fn pw(id: u32, old: bool, new: bool) -> CrtcPower {
    CrtcPower {
        crtc_id: id,
        old_active: old,
        new_active: new,
    }
}

#[test]
fn a_plane_only_request_needs_no_crtc_property_at_all() {
    let c = AtomicCrtcClosure::compute(
        &[plane(31, 1, 2)],
        &[pw(1, true, true), pw(2, true, true)],
        &IDS,
        false,
        &[],
    )
    .expect("closure");
    assert_eq!(c.closure(), &[1, 2]);
    assert_eq!(c.expected_completion(), &[1, 2]);
    assert_eq!(
        c.old_binding_only(),
        &[1],
        "CRTC 1 appears only as an old binding"
    );
}

#[test]
fn a_power_row_for_a_crtc_outside_the_closure_is_refused() {
    let err = AtomicCrtcClosure::compute(
        &[crtc(1, true)],
        &[pw(1, true, true), pw(7, true, true)],
        &IDS,
        false,
        &[],
    )
    .expect_err("must refuse");
    assert_eq!(err, ClosureError::PowerOutsideClosure(7));
}

#[test]
fn a_crtc_id_value_that_does_not_fit_u32_is_refused_not_truncated() {
    let mut p = plane(31, 0, 1);
    p.props = vec![(IDS.crtc_id, 0x1_0000_0001)];
    let err = AtomicCrtcClosure::compute(&[p], &[pw(1, true, true)], &IDS, false, &[])
        .expect_err("must refuse");
    assert_eq!(err, ClosureError::CrtcIdOutOfRange(0x1_0000_0001));
}

#[test]
fn duplicate_properties_and_duplicate_object_rows_are_refused() {
    let mut c1 = crtc(1, true);
    c1.props.push((IDS.active, 0));
    assert_eq!(
        AtomicCrtcClosure::compute(&[c1], &[pw(1, true, true)], &IDS, false, &[])
            .expect_err("must refuse"),
        ClosureError::DuplicateProperty {
            object: 1,
            prop: IDS.active
        }
    );
    assert_eq!(
        AtomicCrtcClosure::compute(
            &[crtc(1, true), crtc(1, false)],
            &[pw(1, true, true)],
            &IDS,
            false,
            &[],
        )
        .expect_err("must refuse"),
        ClosureError::DuplicateObject(1)
    );
}

#[test]
fn a_plane_move_includes_both_powered_endpoints() {
    let c = AtomicCrtcClosure::compute(
        &[crtc(1, true), crtc(2, true), plane(31, 1, 2)],
        &[pw(1, true, true), pw(2, true, true)],
        &IDS,
        false,
        &[],
    )
    .expect("closure");
    assert_eq!(c.closure(), &[1, 2]);
    assert_eq!(c.expected_completion(), &[1, 2]);
    assert!(
        c.old_binding_only().is_empty(),
        "both CRTCs also appear as objects"
    );
}

#[test]
fn a_detach_records_the_old_endpoint_as_serialization_invisible() {
    let c = AtomicCrtcClosure::compute(
        &[crtc(2, true), plane(31, 1, 2)],
        &[pw(2, true, true)],
        &IDS,
        false,
        &[],
    )
    .expect_err("CRTC 1 has no power row");
    assert_eq!(c, ClosureError::UnknownPower(1));

    let c = AtomicCrtcClosure::compute(
        &[crtc(1, false), crtc(2, true), plane(31, 1, 2)],
        &[pw(1, true, false), pw(2, true, true)],
        &IDS,
        false,
        &[],
    )
    .expect("closure");
    assert_eq!(c.closure(), &[1, 2]);
}

#[test]
fn an_unbound_endpoint_is_not_a_closure_member() {
    let c = AtomicCrtcClosure::compute(
        &[crtc(2, true), plane(31, 0, 2)],
        &[pw(2, false, true)],
        &IDS,
        false,
        &[],
    )
    .expect("closure");
    assert_eq!(c.closure(), &[2]);
}

#[test]
fn a_disable_still_owes_completion_evidence() {
    let c =
        AtomicCrtcClosure::compute(&[crtc(1, false)], &[pw(1, true, false)], &IDS, false, &[])
            .expect("closure");
    assert_eq!(c.expected_completion(), &[1]);
}

#[test]
fn an_inactive_to_inactive_member_owes_nothing_and_is_not_an_error() {
    let c =
        AtomicCrtcClosure::compute(&[crtc(1, false)], &[pw(1, false, false)], &IDS, false, &[])
            .expect("closure");
    assert_eq!(c.closure(), &[1]);
    assert!(c.expected_completion().is_empty());
}

#[test]
fn an_off_to_off_member_with_a_page_event_fails_construction() {
    let err = AtomicCrtcClosure::compute(
        &[crtc(1, true), crtc(2, false)],
        &[pw(1, true, true), pw(2, false, false)],
        &IDS,
        true,
        &[],
    )
    .expect_err("must not construct");
    assert_eq!(err, ClosureError::OffToOffWithPageEvent(2));
}

#[test]
fn the_kernel_event_set_is_the_expected_set_only_when_the_flag_is_set() {
    let with =
        AtomicCrtcClosure::compute(&[crtc(1, true)], &[pw(1, true, true)], &IDS, true, &[])
            .expect("closure");
    assert_eq!(with.kernel_event(), &[1]);
    let without =
        AtomicCrtcClosure::compute(&[crtc(1, true)], &[pw(1, true, true)], &IDS, false, &[])
            .expect("closure");
    assert!(without.kernel_event().is_empty());
}

#[test]
fn the_present_set_is_the_consumer_subset_of_the_event_set() {
    let c = AtomicCrtcClosure::compute(
        &[crtc(1, true), crtc(2, true)],
        &[pw(1, true, true), pw(2, true, true)],
        &IDS,
        true,
        &[1],
    )
    .expect("closure");
    assert_eq!(c.kernel_event(), &[1, 2]);
    assert_eq!(c.present_event(), &[1]);
}

#[test]
fn a_present_consumer_outside_the_event_set_is_rejected_not_dropped() {
    let err =
        AtomicCrtcClosure::compute(&[crtc(1, true)], &[pw(1, true, true)], &IDS, true, &[9])
            .expect_err("a consumer with no event must not construct");
    assert_eq!(err, ClosureError::PresentConsumerOutsideEventSet(9));
}

#[test]
fn a_closure_member_with_no_power_row_is_an_error_not_an_assumption() {
    let err = AtomicCrtcClosure::compute(&[crtc(1, true)], &[], &IDS, false, &[])
        .expect_err("an unknown powered state must not default");
    assert_eq!(err, ClosureError::UnknownPower(1));
}

#[test]
fn an_out_fence_the_caller_supplied_is_refused() {
    let mut c1 = crtc(1, true);
    c1.props.push((IDS.out_fence_ptr, 0));
    let err = AtomicCrtcClosure::compute(&[c1], &[pw(1, true, true)], &IDS, false, &[])
        .expect_err("a caller-supplied out-fence must not construct");
    assert_eq!(err, ClosureError::UnsolicitedOutFence(1));
}

fn kinds() -> BTreeMap<u32, ObjectKind> {
    BTreeMap::from([
        (1, ObjectKind::Crtc),
        (2, ObjectKind::Crtc),
        (31, ObjectKind::Plane),
    ])
}
fn list(objs: &[(u32, &[(u32, u64)])]) -> AtomicPropertyList {
    let mut l = AtomicPropertyList {
        objects: Vec::new(),
        count_props: Vec::new(),
        props: Vec::new(),
        values: Vec::new(),
    };
    for (object, entries) in objs {
        l.objects.push(*object);
        l.count_props.push(entries.len() as u32);
        for (p, v) in *entries {
            l.props.push(*p);
            l.values.push(*v);
        }
    }
    l
}

#[test]
fn the_rescan_accepts_a_list_matching_the_recorded_closure() {
    let c =
        AtomicCrtcClosure::compute(&[crtc(1, true)], &[pw(1, true, true)], &IDS, false, &[])
            .expect("closure");
    let props = list(&[(1, &[(IDS.active, 1), (IDS.out_fence_ptr, u64::MAX)])]);
    c.verify_serialized(&props, &kinds(), &IDS, FencePolicy::Required)
        .expect("matches");
}

#[test]
fn the_rescan_demands_equality_not_containment() {
    let c =
        AtomicCrtcClosure::compute(&[crtc(1, true)], &[pw(1, true, true)], &IDS, false, &[])
            .expect("closure");
    let props = list(&[
        (1, &[(IDS.active, 1), (IDS.out_fence_ptr, u64::MAX)]),
        (2, &[(IDS.active, 1)]),
    ]);
    let err = c
        .verify_serialized(&props, &kinds(), &IDS, FencePolicy::Required)
        .expect_err("must differ");
    assert!(matches!(err, ClosureError::SerializedClosureDiffers { .. }));
}

#[test]
fn the_rescan_subtracts_exactly_the_old_binding_only_members() {
    let c = AtomicCrtcClosure::compute(
        &[crtc(1, false), crtc(2, true), plane(31, 1, 2)],
        &[pw(1, true, false), pw(2, true, true)],
        &IDS,
        false,
        &[],
    )
    .expect("closure");
    assert_eq!(c.closure(), &[1, 2]);
    let props = list(&[
        (1, &[(IDS.active, 0), (IDS.out_fence_ptr, u64::MAX)]),
        (2, &[(IDS.active, 1), (IDS.out_fence_ptr, u64::MAX)]),
        (31, &[(IDS.crtc_id, 2)]),
    ]);
    c.verify_serialized(&props, &kinds(), &IDS, FencePolicy::Required)
        .expect("matches");
}

#[test]
fn the_rescan_rejects_a_duplicate_out_fence_on_one_crtc() {
    let c =
        AtomicCrtcClosure::compute(&[crtc(1, true)], &[pw(1, true, true)], &IDS, false, &[])
            .expect("closure");
    let props = list(&[(
        1,
        &[
            (IDS.active, 1),
            (IDS.out_fence_ptr, u64::MAX),
            (IDS.out_fence_ptr, u64::MAX),
        ],
    )]);
    let err = c
        .verify_serialized(&props, &kinds(), &IDS, FencePolicy::Required)
        .expect_err("must reject");
    assert_eq!(err, ClosureError::DuplicateOutFence(1));
}

#[test]
fn the_rescan_rejects_an_out_fence_outside_the_expected_set() {
    let c = AtomicCrtcClosure::compute(
        &[crtc(1, true), crtc(2, false)],
        &[pw(1, true, true), pw(2, false, false)],
        &IDS,
        false,
        &[],
    )
    .expect("closure");
    assert_eq!(c.expected_completion(), &[1]);
    let props = list(&[
        (1, &[(IDS.active, 1), (IDS.out_fence_ptr, u64::MAX)]),
        (2, &[(IDS.active, 0), (IDS.out_fence_ptr, u64::MAX)]),
    ]);
    let err = c
        .verify_serialized(&props, &kinds(), &IDS, FencePolicy::Required)
        .expect_err("must reject");
    assert!(matches!(err, ClosureError::OutFenceCoverageDiffers { .. }));
}

#[test]
fn a_validation_rescan_requires_no_fences_and_therefore_passes() {
    let c =
        AtomicCrtcClosure::compute(&[crtc(1, true)], &[pw(1, true, true)], &IDS, false, &[])
            .expect("closure");
    assert_eq!(c.expected_completion(), &[1]);
    let props = list(&[(1, &[(IDS.active, 1)])]);
    c.verify_serialized(&props, &kinds(), &IDS, FencePolicy::Forbidden)
        .expect("a validation carries no fences and that is correct");
}

#[test]
fn a_validation_rescan_rejects_a_fence_that_slipped_in() {
    let c =
        AtomicCrtcClosure::compute(&[crtc(1, true)], &[pw(1, true, true)], &IDS, false, &[])
            .expect("closure");
    let props = list(&[(1, &[(IDS.active, 1), (IDS.out_fence_ptr, u64::MAX)])]);
    let err = c
        .verify_serialized(&props, &kinds(), &IDS, FencePolicy::Forbidden)
        .expect_err("must reject");
    assert!(matches!(err, ClosureError::OutFenceCoverageDiffers { .. }));
}

#[test]
fn the_rescan_rejects_a_list_whose_counts_do_not_describe_its_values() {
    let c =
        AtomicCrtcClosure::compute(&[crtc(1, true)], &[pw(1, true, true)], &IDS, false, &[])
            .expect("closure");
    let mut props = list(&[(1, &[(IDS.active, 1), (IDS.out_fence_ptr, u64::MAX)])]);
    props.count_props[0] = 9;
    let err = c
        .verify_serialized(&props, &kinds(), &IDS, FencePolicy::Required)
        .expect_err("must be malformed");
    assert!(matches!(err, ClosureError::MalformedPropertyList(_)));
}

#[test]
fn the_rescan_rejects_an_object_of_unknown_kind() {
    let c =
        AtomicCrtcClosure::compute(&[crtc(1, true)], &[pw(1, true, true)], &IDS, false, &[])
            .expect("closure");
    let props = list(&[
        (1, &[(IDS.active, 1), (IDS.out_fence_ptr, u64::MAX)]),
        (99, &[(IDS.crtc_id, 1)]),
    ]);
    let err = c
        .verify_serialized(&props, &kinds(), &IDS, FencePolicy::Required)
        .expect_err("must reject");
    assert_eq!(err, ClosureError::UnknownObject(99));
}

#[test]
fn the_rescan_rejects_active_contradicting_recorded_power() {
    let c =
        AtomicCrtcClosure::compute(&[crtc(1, true)], &[pw(1, true, true)], &IDS, false, &[])
            .expect("closure");
    let props = list(&[(1, &[(IDS.active, 0), (IDS.out_fence_ptr, u64::MAX)])]);
    let err = c
        .verify_serialized(&props, &kinds(), &IDS, FencePolicy::Required)
        .expect_err("must reject");
    assert_eq!(
        err,
        ClosureError::ActiveContradictsPower {
            crtc: 1,
            serialized: false,
            recorded: true,
        }
    );
}

#[test]
fn the_first_defective_object_decides_the_construction_error() {
    let mut c1 = crtc(1, true);
    c1.props.push((IDS.active, 0));
    let mut p = plane(31, 0, 1);
    p.props = vec![(IDS.crtc_id, 0x1_0000_0001)];
    let mut c2 = crtc(2, true);
    c2.props.push((IDS.out_fence_ptr, 0));
    let err = AtomicCrtcClosure::compute(
        &[p, c1, c2],
        &[pw(1, true, true), pw(2, true, true)],
        &IDS,
        false,
        &[],
    )
    .expect_err("must refuse");
    assert_eq!(err, ClosureError::CrtcIdOutOfRange(0x1_0000_0001));
}

#[test]
fn within_one_object_the_first_defective_entry_decides() {
    let mut c1 = crtc(1, true);
    c1.props.push((IDS.active, 0));
    c1.props.push((IDS.out_fence_ptr, 0));
    let err = AtomicCrtcClosure::compute(&[c1], &[pw(1, true, true)], &IDS, false, &[])
        .expect_err("must refuse");
    assert_eq!(
        err,
        ClosureError::DuplicateProperty {
            object: 1,
            prop: IDS.active
        }
    );
}

#[test]
fn the_rescan_reports_the_first_defect_in_entry_order() {
    let c =
        AtomicCrtcClosure::compute(&[crtc(1, true)], &[pw(1, true, true)], &IDS, false, &[])
            .expect("closure");
    let props = list(&[
        (31, &[(IDS.out_fence_ptr, u64::MAX)]),
        (1, &[(IDS.active, 0)]),
        (99, &[]),
    ]);
    let err = c
        .verify_serialized(&props, &kinds(), &IDS, FencePolicy::Required)
        .expect_err("must reject");
    assert_eq!(err, ClosureError::OutFenceOnNonCrtc(31));
}
