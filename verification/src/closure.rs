//! The atomic CRTC closure of one commit request: which CRTCs it touches,
//! which owe completion evidence, and which carry page events.
use vstd::prelude::*;

use std::collections::BTreeMap;

use crate::sorted::{
    copy_vec, lemma_increasing_same_members, lemma_u32_keys_ordered, sorted_insert, strictly_increasing,
    vec_contains, vec_eq,
};

verus! {

#[derive(Debug, Clone, Copy, PartialEq, Eq, Structural)]
pub enum ObjectKind {
    Crtc,
    Connector,
    Plane,
}

/// One DRM object's serialized persistent properties, plus its binding
/// before this request (the one thing the wire cannot show).
#[derive(Debug, Clone, PartialEq, Eq)]
pub struct SerializedObject {
    pub object: u32,
    pub kind: ObjectKind,
    /// `CRTC_ID` before this request. `None` for a CRTC; `Some(0)` means it
    /// was unbound.
    pub old_crtc_id: Option<u32>,
    /// `(property id, value)` in wire order: the minimal list.
    pub props: Vec<(u32, u64)>,
}

/// Powered state of one CRTC across the request. Retained metadata, not a
/// property.
#[derive(Debug, Clone, Copy, PartialEq, Eq, Structural)]
pub struct CrtcPower {
    pub crtc_id: u32,
    pub old_active: bool,
    pub new_active: bool,
}

#[derive(Debug, Clone, Copy, PartialEq, Eq, Structural)]
pub struct PropertyIds {
    pub crtc_id: u32,
    pub active: u32,
    pub out_fence_ptr: u32,
}

/// Whether a request's class may carry out-fences at all.
#[derive(Debug, Clone, Copy, PartialEq, Eq, Structural)]
pub enum FencePolicy {
    /// Every live class: one `OUT_FENCE_PTR` per expected-completion CRTC.
    Required,
    /// Validation only: none, on any CRTC.
    Forbidden,
}

/// The four parallel arrays of a serialized atomic property list.
#[derive(Debug, Clone, PartialEq, Eq)]
pub struct AtomicPropertyList {
    pub objects: Vec<u32>,
    pub count_props: Vec<u32>,
    pub props: Vec<u32>,
    pub values: Vec<u64>,
}

#[derive(Debug, Clone, PartialEq, Eq)]
pub enum ClosureError {
    /// A closure member CRTC has no powered-state row.
    UnknownPower(u32),
    /// A CRTC has more than one powered-state row.
    DuplicatePower(u32),
    /// A powered-state row names a CRTC outside the closure.
    PowerOutsideClosure(u32),
    /// An object appears more than once.
    DuplicateObject(u32),
    /// An object carries a property more than once.
    DuplicateProperty { object: u32, prop: u32 },
    /// A `CRTC_ID` value does not fit a `u32`.
    CrtcIdOutOfRange(u64),
    /// An object supplied its own `OUT_FENCE_PTR`.
    UnsolicitedOutFence(u32),
    /// An inactive-to-inactive CRTC cannot carry the global page-event flag.
    OffToOffWithPageEvent(u32),
    /// A present consumer CRTC is outside the kernel event set.
    PresentConsumerOutsideEventSet(u32),
    /// The serialized closure differs from the recorded one.
    SerializedClosureDiffers { recorded: Vec<u32>, serialized: Vec<u32> },
    /// `OUT_FENCE_PTR` coverage differs from the expected set.
    OutFenceCoverageDiffers { expected: Vec<u32>, found: Vec<u32> },
    /// A CRTC carries more than one `OUT_FENCE_PTR`.
    DuplicateOutFence(u32),
    /// `OUT_FENCE_PTR` on a non-CRTC object.
    OutFenceOnNonCrtc(u32),
    /// A CRTC serializes `ACTIVE` against its recorded power.
    ActiveContradictsPower { crtc: u32, serialized: bool, recorded: bool },
    /// An object in the serialized list has no known kind.
    UnknownObject(u32),
    /// The serialized property list is malformed.
    MalformedPropertyList(&'static str),
}

// ---- The closure of a request, as sets over its description ----

/// Object `o` names CRTC `c` in this request: a CRTC names itself; a plane
/// or connector names the nonzero `CRTC_ID` it sets.
pub open spec fn object_binds(o: SerializedObject, ids: PropertyIds, c: u32) -> bool {
    match o.kind {
        ObjectKind::Crtc => o.object == c,
        _ => exists|k: int|
            0 <= k < o.props@.len() && (#[trigger] o.props@[k]).0 == ids.crtc_id && o.props@[k].1 != 0
                && o.props@[k].1 == c,
    }
}

/// A plane or connector was bound to nonzero CRTC `c` before the request.
pub open spec fn old_binds(o: SerializedObject, c: u32) -> bool {
    o.kind != ObjectKind::Crtc && o.old_crtc_id == Some(c) && c != 0
}

pub open spec fn bound_by_objects(objs: Seq<SerializedObject>, ids: PropertyIds, c: u32) -> bool {
    exists|i: int| 0 <= i < objs.len() && object_binds(#[trigger] objs[i], ids, c)
}

pub open spec fn bound_before(objs: Seq<SerializedObject>, c: u32) -> bool {
    exists|i: int| 0 <= i < objs.len() && old_binds(#[trigger] objs[i], c)
}

/// CRTC `c` is in the closure: named by the request or bound before it.
pub open spec fn closure_member(objs: Seq<SerializedObject>, ids: PropertyIds, c: u32) -> bool {
    bound_by_objects(objs, ids, c) || bound_before(objs, c)
}

pub open spec fn has_row(rows: Seq<CrtcPower>, c: u32) -> bool {
    exists|i: int| 0 <= i < rows.len() && (#[trigger] rows[i]).crtc_id == c
}

/// The power row for CRTC `c` (meaningful when there is exactly one).
pub open spec fn row_for(rows: Seq<CrtcPower>, c: u32) -> CrtcPower {
    rows[choose|i: int| 0 <= i < rows.len() && (#[trigger] rows[i]).crtc_id == c]
}

/// CRTC `c` changes or keeps an active state, so it owes completion evidence.
pub open spec fn owes_completion(rows: Seq<CrtcPower>, c: u32) -> bool {
    row_for(rows, c).old_active || row_for(rows, c).new_active
}

pub open spec fn power_rows_distinct(rows: Seq<CrtcPower>) -> bool {
    forall|i: int, j: int| 0 <= i < j < rows.len() ==> rows[i].crtc_id != rows[j].crtc_id
}

pub open spec fn objects_distinct(objs: Seq<SerializedObject>) -> bool {
    forall|i: int, j: int| 0 <= i < j < objs.len() ==> objs[i].object != objs[j].object
}

/// No caller-supplied out-fence, no repeated property, and every nonzero
/// `CRTC_ID` a plane or connector sets fits a `u32`.
pub open spec fn object_props_ok(o: SerializedObject, ids: PropertyIds) -> bool {
    &&& forall|k: int| 0 <= k < o.props@.len() ==> (#[trigger] o.props@[k]).0 != ids.out_fence_ptr
    &&& forall|k: int, l: int| 0 <= k < l < o.props@.len() ==> o.props@[k].0 != o.props@[l].0
    &&& o.kind != ObjectKind::Crtc ==> forall|k: int|
        0 <= k < o.props@.len() && (#[trigger] o.props@[k]).0 == ids.crtc_id && o.props@[k].1 != 0
            ==> o.props@[k].1 <= u32::MAX
}

/// A present consumer must be in the kernel event set.
pub open spec fn in_kernel_event_set(
    objs: Seq<SerializedObject>,
    rows: Seq<CrtcPower>,
    ids: PropertyIds,
    page_flip_event: bool,
    c: u32,
) -> bool {
    page_flip_event && closure_member(objs, ids, c) && owes_completion(rows, c)
}

/// The inputs from which a closure is constructed without error.
pub open spec fn closure_input_valid(
    objs: Seq<SerializedObject>,
    rows: Seq<CrtcPower>,
    ids: PropertyIds,
    page_flip_event: bool,
    consumers: Seq<u32>,
) -> bool {
    &&& power_rows_distinct(rows)
    &&& objects_distinct(objs)
    &&& forall|i: int| 0 <= i < objs.len() ==> object_props_ok(#[trigger] objs[i], ids)
    &&& forall|i: int| 0 <= i < rows.len() ==> closure_member(objs, ids, (#[trigger] rows[i]).crtc_id)
    &&& forall|c: u32| closure_member(objs, ids, c) ==> has_row(rows, c)
    &&& page_flip_event ==> forall|c: u32| closure_member(objs, ids, c) ==> owes_completion(rows, c)
    &&& forall|k: int| 0 <= k < consumers.len() ==> in_kernel_event_set(
        objs,
        rows,
        ids,
        page_flip_event,
        #[trigger] consumers[k],
    )
}

/// An error names a defect of this object's properties.
pub open spec fn object_error_justified(o: SerializedObject, ids: PropertyIds, e: ClosureError) -> bool {
    match e {
        ClosureError::UnsolicitedOutFence(x) => x == o.object && exists|k: int|
            0 <= k < o.props@.len() && (#[trigger] o.props@[k]).0 == ids.out_fence_ptr,
        ClosureError::DuplicateProperty { object, prop } => object == o.object && exists|k: int, l: int|
            0 <= k < l < o.props@.len() && o.props@[k].0 == prop && o.props@[l].0 == prop,
        ClosureError::CrtcIdOutOfRange(v) => o.kind != ObjectKind::Crtc && v > u32::MAX && exists|k: int|
            0 <= k < o.props@.len() && (#[trigger] o.props@[k]) == (ids.crtc_id, v),
        _ => false,
    }
}

/// The defect of entry `k` of an object, judged against the entries
/// before it: a caller-supplied out-fence, or a property an earlier entry
/// already set.
pub open spec fn entry_fault(o: SerializedObject, ids: PropertyIds, k: int) -> Option<ClosureError> {
    if o.props@[k].0 == ids.out_fence_ptr {
        Some(ClosureError::UnsolicitedOutFence(o.object))
    } else if exists|l: int| 0 <= l < k && o.props@[l].0 == o.props@[k].0 {
        Some(ClosureError::DuplicateProperty { object: o.object, prop: o.props@[k].0 })
    } else {
        None
    }
}

/// Entry `k` is a plane's or connector's `CRTC_ID` that does not fit a `u32`.
pub open spec fn entry_out_of_range(o: SerializedObject, ids: PropertyIds, k: int) -> bool {
    o.kind != ObjectKind::Crtc && o.props@[k].0 == ids.crtc_id && o.props@[k].1 != 0 && o.props@[k].1 > u32::MAX
}

/// The error object `o` gives after the objects `earlier`: a repeated
/// object first; else the first entry defect in entry order; else the
/// first `CRTC_ID` out of range.
pub open spec fn object_fault(earlier: Seq<SerializedObject>, o: SerializedObject, ids: PropertyIds, e: ClosureError) -> bool {
    if exists|a: int| 0 <= a < earlier.len() && (#[trigger] earlier[a]).object == o.object {
        e == ClosureError::DuplicateObject(o.object)
    } else if exists|k: int| 0 <= k < o.props@.len() && entry_fault(o, ids, k) is Some {
        exists|k: int|
            0 <= k < o.props@.len() && entry_fault(o, ids, k) == Some(e) && forall|m: int| 0 <= m < k ==> entry_fault(o, ids, m) is None
    } else {
        exists|k: int|
            0 <= k < o.props@.len() && entry_out_of_range(o, ids, k) && e == ClosureError::CrtcIdOutOfRange(o.props@[k].1)
                && forall|m: int| 0 <= m < k ==> !entry_out_of_range(o, ids, m)
    }
}

/// The first defective object, in object order, gives `e`: every object
/// before it is distinct and well formed.
pub open spec fn first_object_fault(objs: Seq<SerializedObject>, ids: PropertyIds, e: ClosureError) -> bool {
    exists|i: int|
        0 <= i < objs.len() && objects_distinct(objs.take(i)) && (forall|a: int| 0 <= a < i ==> object_props_ok(#[trigger] objs[a], ids))
            && object_fault(objs.take(i), objs[i], ids, e)
}

/// Each error names a concrete defect of the inputs.
pub open spec fn closure_error_justified(
    objs: Seq<SerializedObject>,
    rows: Seq<CrtcPower>,
    ids: PropertyIds,
    page_flip_event: bool,
    consumers: Seq<u32>,
    e: ClosureError,
) -> bool {
    match e {
        ClosureError::DuplicatePower(c) => exists|i: int, j: int|
            0 <= i < j < rows.len() && rows[i].crtc_id == c && rows[j].crtc_id == c,
        ClosureError::DuplicateObject(x) => exists|i: int, j: int|
            0 <= i < j < objs.len() && objs[i].object == x && objs[j].object == x,
        ClosureError::UnsolicitedOutFence(_) | ClosureError::DuplicateProperty { .. }
        | ClosureError::CrtcIdOutOfRange(_) => exists|i: int|
            0 <= i < objs.len() && object_error_justified(#[trigger] objs[i], ids, e),
        ClosureError::PowerOutsideClosure(c) => has_row(rows, c) && !closure_member(objs, ids, c),
        ClosureError::UnknownPower(c) => closure_member(objs, ids, c) && !has_row(rows, c),
        ClosureError::OffToOffWithPageEvent(c) => page_flip_event && closure_member(objs, ids, c)
            && has_row(rows, c) && !owes_completion(rows, c),
        ClosureError::PresentConsumerOutsideEventSet(c) => consumers.contains(c)
            && !in_kernel_event_set(objs, rows, ids, page_flip_event, c),
        _ => false,
    }
}


/// The order in which the closure's checks find defects: duplicate power
/// rows first, then the first defective object's first defect, in object
/// and entry order, then the smallest CRTC with a
/// power row outside the closure, then the smallest closure member without
/// a row or owing no completion under a page event, then the first present
/// consumer outside the event set. An error of a later check means every
/// earlier check passed.
pub open spec fn closure_error_in_order(
    objs: Seq<SerializedObject>,
    rows: Seq<CrtcPower>,
    ids: PropertyIds,
    page_flip_event: bool,
    consumers: Seq<u32>,
    e: ClosureError,
) -> bool {
    let objects_ok = objects_distinct(objs) && forall|i: int| 0 <= i < objs.len() ==> object_props_ok(#[trigger] objs[i], ids);
    let rows_inside = forall|i: int| 0 <= i < rows.len() ==> closure_member(objs, ids, (#[trigger] rows[i]).crtc_id);
    let members_ok = forall|c: u32| closure_member(objs, ids, c) ==> has_row(rows, c) && (page_flip_event ==> owes_completion(rows, c));
    match e {
        ClosureError::DuplicateObject(_) | ClosureError::UnsolicitedOutFence(_) | ClosureError::DuplicateProperty { .. }
        | ClosureError::CrtcIdOutOfRange(_) => power_rows_distinct(rows),
        ClosureError::PowerOutsideClosure(c) => power_rows_distinct(rows) && objects_ok && forall|d: u32|
            has_row(rows, d) && !closure_member(objs, ids, d) ==> c <= d,
        ClosureError::UnknownPower(c) | ClosureError::OffToOffWithPageEvent(c) => power_rows_distinct(rows) && objects_ok
            && rows_inside && forall|d: u32| d < c && closure_member(objs, ids, d) ==> has_row(rows, d) && (page_flip_event
            ==> owes_completion(rows, d)),
        ClosureError::PresentConsumerOutsideEventSet(c) => power_rows_distinct(rows) && objects_ok && rows_inside && members_ok
            && exists|k: int|
            0 <= k < consumers.len() && consumers[k] == c && forall|m: int|
                0 <= m < k ==> in_kernel_event_set(objs, rows, ids, page_flip_event, #[trigger] consumers[m]),
        _ => true,
    }
}

/// The first row whose CRTC already had a row is a duplicate.
fn check_power_rows(rows: &[CrtcPower]) -> (r: Result<(), ClosureError>)
    ensures
        r is Ok <==> power_rows_distinct(rows@),
        r matches Err(e) ==> (e is DuplicatePower && closure_error_justified(
            Seq::empty(),
            rows@,
            PropertyIds { crtc_id: 0, active: 0, out_fence_ptr: 0 },
            false,
            Seq::empty(),
            e,
        )),
{
    let mut i: usize = 0;
    while i < rows.len()
        invariant
            0 <= i <= rows@.len(),
            forall|a: int, b: int| 0 <= a < b < i ==> rows@[a].crtc_id != rows@[b].crtc_id,
        decreases rows@.len() - i,
    {
        let mut j: usize = 0;
        while j < i
            invariant
                0 <= j <= i < rows@.len(),
                forall|a: int| 0 <= a < j ==> rows@[a].crtc_id != rows@[i as int].crtc_id,
            decreases i - j,
        {
            if rows[j].crtc_id == rows[i].crtc_id {
                assert(!power_rows_distinct(rows@));
                return Err(ClosureError::DuplicatePower(rows[i].crtc_id));
            }
            j = j + 1;
        }
        i = i + 1;
    }
    Ok(())
}

/// The property checks of one object: no caller-supplied out-fence and no
/// repeated property, in wire order.
fn check_object_props(o: &SerializedObject, ids: &PropertyIds) -> (r: Result<(), ClosureError>)
    ensures
        r is Ok <==> ((forall|k: int| 0 <= k < o.props@.len() ==> (#[trigger] o.props@[k]).0 != ids.out_fence_ptr)
            && (forall|k: int, l: int| 0 <= k < l < o.props@.len() ==> o.props@[k].0 != o.props@[l].0)),
        r matches Err(e) ==> object_error_justified(*o, *ids, e),
        r matches Err(e) ==> exists|k: int|
            0 <= k < o.props@.len() && entry_fault(*o, *ids, k) == Some(e) && forall|m: int| 0 <= m < k ==> entry_fault(*o, *ids, m) is None,
        r is Ok ==> forall|k: int| 0 <= k < o.props@.len() ==> entry_fault(*o, *ids, k) is None,
{
    let mut k: usize = 0;
    while k < o.props.len()
        invariant
            0 <= k <= o.props@.len(),
            forall|m: int| 0 <= m < k ==> (#[trigger] o.props@[m]).0 != ids.out_fence_ptr,
            forall|m: int, l: int| 0 <= m < l < k ==> o.props@[m].0 != o.props@[l].0,
        decreases o.props@.len() - k,
    {
        let prop = o.props[k].0;
        assert forall|m: int| 0 <= m < k implies entry_fault(*o, *ids, m) is None by {
            assert(o.props@[m].0 != ids.out_fence_ptr);
        }
        if prop == ids.out_fence_ptr {
            assert(entry_fault(*o, *ids, k as int) == Some(ClosureError::UnsolicitedOutFence(o.object)));
            return Err(ClosureError::UnsolicitedOutFence(o.object));
        }
        let mut l: usize = 0;
        while l < k
            invariant
                0 <= l <= k < o.props@.len(),
                prop == o.props@[k as int].0,
                prop != ids.out_fence_ptr,
                forall|m: int| 0 <= m < k ==> entry_fault(*o, *ids, m) is None,
                forall|m: int| 0 <= m < l ==> o.props@[m].0 != prop,
            decreases k - l,
        {
            if o.props[l].0 == prop {
                assert(o.props@[l as int].0 == o.props@[k as int].0);
                assert(entry_fault(*o, *ids, k as int) == Some(ClosureError::DuplicateProperty { object: o.object, prop }));
                return Err(ClosureError::DuplicateProperty { object: o.object, prop });
            }
            l = l + 1;
        }
        k = k + 1;
    }
    assert forall|m: int| 0 <= m < o.props@.len() implies entry_fault(*o, *ids, m) is None by {
        assert(o.props@[m].0 != ids.out_fence_ptr);
    }
    Ok(())
}


/// Add the nonzero `CRTC_ID`s a plane or connector sets to `acc`.
fn add_plane_bindings(o: &SerializedObject, ids: &PropertyIds, acc: &mut Vec<u32>) -> (r: Result<(), ClosureError>)
    requires
        o.kind != ObjectKind::Crtc,
        strictly_increasing(old(acc)@),
    ensures
        r is Ok <==> (forall|k: int|
            0 <= k < o.props@.len() && (#[trigger] o.props@[k]).0 == ids.crtc_id && o.props@[k].1 != 0
                ==> o.props@[k].1 <= u32::MAX),
        r is Ok ==> strictly_increasing(final(acc)@),
        r is Ok ==> forall|c: u32| final(acc)@.contains(c) <==> (old(acc)@.contains(c) || object_binds(*o, *ids, c)),
        r matches Err(e) ==> object_error_justified(*o, *ids, e),
        r matches Err(e) ==> exists|k: int|
            0 <= k < o.props@.len() && entry_out_of_range(*o, *ids, k) && e == ClosureError::CrtcIdOutOfRange(o.props@[k].1)
                && forall|m: int| 0 <= m < k ==> !entry_out_of_range(*o, *ids, m),
{
    let mut k: usize = 0;
    while k < o.props.len()
        invariant
            0 <= k <= o.props@.len(),
            o.kind != ObjectKind::Crtc,
            strictly_increasing(acc@),
            forall|m: int|
                0 <= m < k && (#[trigger] o.props@[m]).0 == ids.crtc_id && o.props@[m].1 != 0
                    ==> o.props@[m].1 <= u32::MAX,
            forall|c: u32| acc@.contains(c) <==> (old(acc)@.contains(c) || exists|m: int|
                0 <= m < k && (#[trigger] o.props@[m]).0 == ids.crtc_id && o.props@[m].1 != 0
                    && o.props@[m].1 == c),
        decreases o.props@.len() - k,
    {
        let (prop, value) = o.props[k];
        if prop == ids.crtc_id && value != 0 {
            if value > u32::MAX as u64 {
                assert(o.props@[k as int] == (ids.crtc_id, value));
                assert(entry_out_of_range(*o, *ids, k as int));
                return Err(ClosureError::CrtcIdOutOfRange(value));
            }
            let ghost before = acc@;
            sorted_insert(acc, value as u32);
            assert forall|c: u32| acc@.contains(c) <==> (old(acc)@.contains(c) || exists|m: int|
                0 <= m < k + 1 && (#[trigger] o.props@[m]).0 == ids.crtc_id && o.props@[m].1 != 0
                    && o.props@[m].1 == c) by {
                assert(acc@.contains(c) <==> acc@.to_set().contains(c));
                assert(before.contains(c) <==> before.to_set().contains(c));
                if c == value as u32 {
                    assert(o.props@[k as int].1 == c);
                }
            }
        } else {
            assert forall|c: u32| acc@.contains(c) <==> (old(acc)@.contains(c) || exists|m: int|
                0 <= m < k + 1 && (#[trigger] o.props@[m]).0 == ids.crtc_id && o.props@[m].1 != 0
                    && o.props@[m].1 == c) by {
                if exists|m: int|
                    0 <= m < k + 1 && (#[trigger] o.props@[m]).0 == ids.crtc_id && o.props@[m].1 != 0
                        && o.props@[m].1 == c {
                    let m = choose|m: int|
                        0 <= m < k + 1 && (#[trigger] o.props@[m]).0 == ids.crtc_id && o.props@[m].1
                            != 0 && o.props@[m].1 == c;
                    assert(m != k);
                }
            }
        }
        k = k + 1;
    }
    Ok(())
}

/// The first defective object is the one at `i` when every object before
/// it is distinct and well formed and it gives `e`.
proof fn lemma_object_fault_at(objs: Seq<SerializedObject>, ids: PropertyIds, i: int, e: ClosureError)
    requires
        0 <= i < objs.len(),
        forall|a: int, b: int| 0 <= a < b < i ==> objs[a].object != objs[b].object,
        forall|a: int| 0 <= a < i ==> object_props_ok(#[trigger] objs[a], ids),
        object_fault(objs.take(i), objs[i], ids, e),
    ensures
        first_object_fault(objs, ids, e),
{
    let earlier = objs.take(i);
    assert forall|a: int, b: int| 0 <= a < b < earlier.len() implies earlier[a].object != earlier[b].object by {
        assert(earlier[a] == objs[a] && earlier[b] == objs[b]);
    }
}

/// Scan the request's objects in order: distinct objects, well-formed
/// properties; collect the CRTCs they name and those bound before.
fn scan_objects(objs: &[SerializedObject], ids: &PropertyIds) -> (r: Result<(Vec<u32>, Vec<u32>), ClosureError>)
    ensures
        r is Ok <==> (objects_distinct(objs@) && forall|i: int|
            0 <= i < objs@.len() ==> object_props_ok(#[trigger] objs@[i], *ids)),
        r matches Ok(sets) ==> {
            &&& strictly_increasing(sets.0@)
            &&& forall|c: u32| sets.0@.contains(c) <==> bound_by_objects(objs@, *ids, c)
            &&& strictly_increasing(sets.1@)
            &&& forall|c: u32| sets.1@.contains(c) <==> bound_before(objs@, c)
        },
        r matches Err(e) ==> {
            &&& (e is DuplicateObject || e is UnsolicitedOutFence || e is DuplicateProperty || e is CrtcIdOutOfRange)
            &&& closure_error_justified(objs@, Seq::empty(), *ids, false, Seq::empty(), e)
            &&& first_object_fault(objs@, *ids, e)
        },
{
    let mut from_objects: Vec<u32> = Vec::new();
    let mut from_old: Vec<u32> = Vec::new();
    let mut i: usize = 0;
    while i < objs.len()
        invariant
            0 <= i <= objs@.len(),
            forall|a: int, b: int| 0 <= a < b < i ==> objs@[a].object != objs@[b].object,
            forall|a: int| 0 <= a < i ==> object_props_ok(#[trigger] objs@[a], *ids),
            strictly_increasing(from_objects@),
            strictly_increasing(from_old@),
            forall|c: u32| from_objects@.contains(c) <==> exists|a: int| 0 <= a < i && object_binds(#[trigger] objs@[a], *ids, c),
            forall|c: u32| from_old@.contains(c) <==> exists|a: int| 0 <= a < i && old_binds(#[trigger] objs@[a], c),
        decreases objs@.len() - i,
    {
        let o = &objs[i];
        let mut j: usize = 0;
        while j < i
            invariant
                0 <= j <= i < objs@.len(),
                *o == objs@[i as int],
                forall|a: int| 0 <= a < j ==> objs@[a].object != o.object,
            ensures
                j <= i,
                j < i ==> objs@[j as int].object == o.object,
                forall|a: int| 0 <= a < j ==> objs@[a].object != o.object,
            decreases i - j,
        {
            if objs[j].object == o.object {
                break;
            }
            j = j + 1;
        }
        if j < i {
            proof {
                assert(objs@.take(i as int)[j as int] == objs@[j as int]);
                lemma_object_fault_at(objs@, *ids, i as int, ClosureError::DuplicateObject(o.object));
            }
            return Err(ClosureError::DuplicateObject(o.object));
        }
        proof {
            let earlier = objs@.take(i as int);
            assert forall|a: int| 0 <= a < earlier.len() implies (#[trigger] earlier[a]).object != o.object by {
                assert(earlier[a] == objs@[a]);
            }
        }
        match check_object_props(o, ids) {
            Err(e) => {
                proof {
                    lemma_object_fault_at(objs@, *ids, i as int, e);
                }
                return Err(e);
            },
            Ok(()) => {},
        }
        let ghost objects_before = from_objects@;
        let ghost old_before = from_old@;
        match o.kind {
            ObjectKind::Crtc => {
                sorted_insert(&mut from_objects, o.object);
                assert forall|c: u32| from_objects@.contains(c) <==> exists|a: int| 0 <= a < i + 1 && object_binds(#[trigger] objs@[a], *ids, c) by {
                    assert(from_objects@.contains(c) <==> from_objects@.to_set().contains(c));
                    assert(objects_before.contains(c) <==> objects_before.to_set().contains(c));
                    if exists|a: int| 0 <= a < i + 1 && object_binds(#[trigger] objs@[a], *ids, c) {
                        let a = choose|a: int| 0 <= a < i + 1 && object_binds(#[trigger] objs@[a], *ids, c);
                        if a == i {
                            assert(c == o.object);
                        }
                    }
                    if c == o.object {
                        assert(object_binds(objs@[i as int], *ids, c));
                    }
                }
                assert forall|c: u32| from_old@.contains(c) <==> exists|a: int| 0 <= a < i + 1 && old_binds(#[trigger] objs@[a], c) by {
                    if exists|a: int| 0 <= a < i + 1 && old_binds(#[trigger] objs@[a], c) {
                        let a = choose|a: int| 0 <= a < i + 1 && old_binds(#[trigger] objs@[a], c);
                        assert(a != i);
                    }
                }
            },
            _ => {
                match o.old_crtc_id {
                    Some(b) => {
                        if b != 0 {
                            sorted_insert(&mut from_old, b);
                        }
                    },
                    None => {},
                }
                assert forall|c: u32| from_old@.contains(c) <==> exists|a: int| 0 <= a < i + 1 && old_binds(#[trigger] objs@[a], c) by {
                    assert(from_old@.contains(c) <==> from_old@.to_set().contains(c));
                    assert(old_before.contains(c) <==> old_before.to_set().contains(c));
                    if exists|a: int| 0 <= a < i + 1 && old_binds(#[trigger] objs@[a], c) {
                        let a = choose|a: int| 0 <= a < i + 1 && old_binds(#[trigger] objs@[a], c);
                        if a == i {
                            assert(o.old_crtc_id == Some(c));
                        }
                    }
                    if old_binds(objs@[i as int], c) {
                        assert(o.old_crtc_id == Some(c));
                    }
                }
                match add_plane_bindings(o, ids, &mut from_objects) {
                    Err(e) => {
                        proof {
                            lemma_object_fault_at(objs@, *ids, i as int, e);
                        }
                        return Err(e);
                    },
                    Ok(()) => {},
                }
                assert forall|c: u32| from_objects@.contains(c) <==> exists|a: int| 0 <= a < i + 1 && object_binds(#[trigger] objs@[a], *ids, c) by {
                    if exists|a: int| 0 <= a < i + 1 && object_binds(#[trigger] objs@[a], *ids, c) {
                        let a = choose|a: int| 0 <= a < i + 1 && object_binds(#[trigger] objs@[a], *ids, c);
                        if a == i {
                            assert(object_binds(*o, *ids, c));
                        }
                    }
                }
            },
        }
        assert(object_props_ok(objs@[i as int], *ids));
        i = i + 1;
    }
    Ok((from_objects, from_old))
}


/// The row for CRTC `c`, when there is one; rows are distinct.
fn find_row(rows: &[CrtcPower], c: u32) -> (r: Option<CrtcPower>)
    requires
        power_rows_distinct(rows@),
    ensures
        r is None <==> !has_row(rows@, c),
        r matches Some(row) ==> row == row_for(rows@, c) && row.crtc_id == c,
{
    let mut i: usize = 0;
    while i < rows.len()
        invariant
            0 <= i <= rows@.len(),
            power_rows_distinct(rows@),
            forall|a: int| 0 <= a < i ==> rows@[a].crtc_id != c,
        decreases rows@.len() - i,
    {
        if rows[i].crtc_id == c {
            proof {
                assert(has_row(rows@, c));
                let chosen = choose|a: int| 0 <= a < rows@.len() && (#[trigger] rows@[a]).crtc_id == c;
                if chosen < i {
                    assert(rows@[chosen].crtc_id != rows@[i as int].crtc_id);
                }
                if chosen > i {
                    let ii = i as int;
                    assert(0 <= ii < chosen < rows@.len());
                    assert(rows@[ii].crtc_id != rows@[chosen].crtc_id);
                }
            }
            return Some(rows[i]);
        }
        i = i + 1;
    }
    None
}

/// The union of two ordered sets, and the members of the second absent from
/// the first, both ordered.
fn merge_bindings(named: &Vec<u32>, before: &Vec<u32>) -> (r: (Vec<u32>, Vec<u32>))
    requires
        strictly_increasing(named@),
        strictly_increasing(before@),
    ensures
        strictly_increasing(r.0@),
        forall|c: u32| r.0@.contains(c) <==> (named@.contains(c) || before@.contains(c)),
        strictly_increasing(r.1@),
        forall|c: u32| r.1@.contains(c) <==> (before@.contains(c) && !named@.contains(c)),
{
    let mut union = copy_vec(named);
    let mut only: Vec<u32> = Vec::new();
    let mut k: usize = 0;
    while k < before.len()
        invariant
            0 <= k <= before@.len(),
            strictly_increasing(before@),
            strictly_increasing(union@),
            strictly_increasing(only@),
            forall|c: u32| union@.contains(c) <==> (named@.contains(c) || exists|m: int| 0 <= m < k && before@[m] == c),
            forall|c: u32| only@.contains(c) <==> ((exists|m: int| 0 <= m < k && before@[m] == c) && !named@.contains(c)),
            forall|n: int| 0 <= n < only@.len() ==> exists|m: int| 0 <= m < k && before@[m] == #[trigger] only@[n],
        decreases before@.len() - k,
    {
        let x = before[k];
        let ghost u0 = union@;
        sorted_insert(&mut union, x);
        assert forall|c: u32| union@.contains(c) <==> (named@.contains(c) || exists|m: int| 0 <= m < k + 1 && before@[m] == c) by {
            assert(union@.contains(c) <==> union@.to_set().contains(c));
            assert(u0.contains(c) <==> u0.to_set().contains(c));
            if exists|m: int| 0 <= m < k + 1 && before@[m] == c {
                let m = choose|m: int| 0 <= m < k + 1 && before@[m] == c;
                if m < k {
                    assert(exists|m: int| 0 <= m < k && before@[m] == c);
                }
            }
        }
        if !vec_contains(named, x) {
            let ghost o0 = only@;
            proof {
                assert forall|n: int| 0 <= n < o0.len() implies o0[n] < x by {
                    let m = choose|m: int| 0 <= m < k && before@[m] == o0[n];
                }
            }
            only.push(x);
            assert(only@ == o0.push(x));
            assert forall|n: int| 0 <= n < only@.len() implies exists|m: int| 0 <= m < k + 1 && before@[m] == #[trigger] only@[n] by {
                if n < o0.len() {
                    let m = choose|m: int| 0 <= m < k && before@[m] == o0[n];
                    assert(only@[n] == o0[n]);
                } else {
                    assert(before@[k as int] == only@[n]);
                }
            }
            assert forall|c: u32| only@.contains(c) <==> ((exists|m: int| 0 <= m < k + 1 && before@[m] == c) && !named@.contains(c)) by {
                if only@.contains(c) {
                    let n = choose|n: int| 0 <= n < only@.len() && only@[n] == c;
                    if n < o0.len() {
                        assert(o0[n] == c);
                        assert(o0.contains(c));
                    }
                }
                if (exists|m: int| 0 <= m < k + 1 && before@[m] == c) && !named@.contains(c) {
                    let m = choose|m: int| 0 <= m < k + 1 && before@[m] == c;
                    if m == k {
                        assert(only@[only@.len() - 1] == c);
                    } else {
                        assert(o0.contains(c));
                        let n = choose|n: int| 0 <= n < o0.len() && o0[n] == c;
                        assert(only@[n] == c);
                    }
                }
            }
        } else {
            assert forall|c: u32| only@.contains(c) <==> ((exists|m: int| 0 <= m < k + 1 && before@[m] == c) && !named@.contains(c)) by {
                if (exists|m: int| 0 <= m < k + 1 && before@[m] == c) && !named@.contains(c) {
                    let m = choose|m: int| 0 <= m < k + 1 && before@[m] == c;
                    if m == k {
                        assert(named@.contains(c));
                    }
                }
            }
            assert forall|n: int| 0 <= n < only@.len() implies exists|m: int| 0 <= m < k + 1 && before@[m] == #[trigger] only@[n] by {
                let m = choose|m: int| 0 <= m < k && before@[m] == only@[n];
            }
        }
        k = k + 1;
    }
    assert forall|c: u32| union@.contains(c) <==> (named@.contains(c) || before@.contains(c)) by {
        if before@.contains(c) {
            let m = choose|m: int| 0 <= m < before@.len() && before@[m] == c;
        }
    }
    assert forall|c: u32| only@.contains(c) <==> (before@.contains(c) && !named@.contains(c)) by {
        if before@.contains(c) {
            let m = choose|m: int| 0 <= m < before@.len() && before@[m] == c;
        }
    }
    (union, only)
}


// ---- The re-scan of a serialized property list ----

/// The sum of the declared per-object property counts.
pub open spec fn count_sum(counts: Seq<u32>) -> nat
    decreases counts.len(),
{
    if counts.len() == 0 {
        0
    } else {
        count_sum(counts.drop_last()) + counts.last() as nat
    }
}

/// Where object `i`'s properties start in the flat arrays.
pub open spec fn entries_start(counts: Seq<u32>, i: int) -> int {
    count_sum(counts.subrange(0, i)) as int
}

/// Flat entry `n` is one of object `i`'s properties.
pub open spec fn in_object(counts: Seq<u32>, i: int, n: int) -> bool {
    0 <= i < counts.len() && entries_start(counts, i) <= n < entries_start(counts, i) + counts[i]
}

/// The four arrays agree on their lengths and the declared counts.
pub open spec fn list_well_formed(l: AtomicPropertyList) -> bool {
    &&& l.count_props@.len() == l.objects@.len()
    &&& l.props@.len() == l.values@.len()
    &&& count_sum(l.count_props@) == l.props@.len()
}

pub open spec fn kind_of(kinds: Map<u32, ObjectKind>, object: u32) -> ObjectKind {
    kinds[object]
}

/// Entry `n` of object `i` binds a plane or connector to CRTC `c`.
pub open spec fn entry_binds(l: AtomicPropertyList, kinds: Map<u32, ObjectKind>, ids: PropertyIds, i: int, n: int, c: u32) -> bool {
    &&& in_object(l.count_props@, i, n)
    &&& l.props@[n] == ids.crtc_id
    &&& kind_of(kinds, l.objects@[i]) != ObjectKind::Crtc
    &&& l.values@[n] != 0
    &&& l.values@[n] as u32 == c
}

/// CRTC `c` appears in the serialized list: as a CRTC object among the
/// first `objects` objects, or bound by one of the first `pos` entries.
pub open spec fn serialized_member(l: AtomicPropertyList, kinds: Map<u32, ObjectKind>, ids: PropertyIds, objects: int, pos: int, c: u32) -> bool {
    ||| exists|i: int| 0 <= i < objects && kind_of(kinds, l.objects@[i]) == ObjectKind::Crtc && #[trigger] l.objects@[i] == c
    ||| exists|i: int, n: int| n < pos && #[trigger] entry_binds(l, kinds, ids, i, n, c)
}

/// Entry `n` of object `i` is an `OUT_FENCE_PTR`.
pub open spec fn entry_fences(l: AtomicPropertyList, ids: PropertyIds, i: int, n: int) -> bool {
    in_object(l.count_props@, i, n) && l.props@[n] == ids.out_fence_ptr
}

pub open spec fn fenced_member(l: AtomicPropertyList, ids: PropertyIds, pos: int, c: u32) -> bool {
    exists|i: int, n: int| n < pos && #[trigger] entry_fences(l, ids, i, n) && l.objects@[i] == c
}

pub open spec fn fenced_twice(l: AtomicPropertyList, ids: PropertyIds, pos: int, c: u32) -> bool {
    exists|i1: int, n1: int, i2: int, n2: int|
        n1 < n2 < pos && #[trigger] entry_fences(l, ids, i1, n1) && #[trigger] entry_fences(l, ids, i2, n2)
            && l.objects@[i1] == c && l.objects@[i2] == c
}

pub open spec fn fence_on_non_crtc(l: AtomicPropertyList, kinds: Map<u32, ObjectKind>, ids: PropertyIds, pos: int) -> bool {
    exists|i: int, n: int| n < pos && #[trigger] entry_fences(l, ids, i, n) && kind_of(kinds, l.objects@[i]) != ObjectKind::Crtc
}

/// The expected out-fence set under a policy.
pub open spec fn fence_expected(c: &AtomicCrtcClosure, fences: FencePolicy, x: u32) -> bool {
    fences == FencePolicy::Required && c.spec_expected_completion().contains(x)
}

/// The CRTCs a serialized list must show: the closure minus the members
/// only an old binding contributed.
pub open spec fn shows(c: &AtomicCrtcClosure, x: u32) -> bool {
    c.spec_closure().contains(x) && !c.spec_old_binding_only().contains(x)
}


/// Entry `n` of CRTC object `i` serializes `ACTIVE` against the power the
/// closure recorded for that CRTC.
pub open spec fn entry_contradicts(c: &AtomicCrtcClosure, l: AtomicPropertyList, kinds: Map<u32, ObjectKind>, ids: PropertyIds, i: int, n: int) -> bool {
    &&& in_object(l.count_props@, i, n)
    &&& l.props@[n] == ids.active
    &&& kind_of(kinds, l.objects@[i]) == ObjectKind::Crtc
    &&& exists|m: int|
        0 <= m < c.spec_closure().len() && c.spec_closure()[m] == l.objects@[i]
            && #[trigger] c.spec_new_active()[m] != (l.values@[n] != 0)
}

pub open spec fn active_contradiction(c: &AtomicCrtcClosure, l: AtomicPropertyList, kinds: Map<u32, ObjectKind>, ids: PropertyIds, pos: int) -> bool {
    exists|i: int, n: int| n < pos && #[trigger] entry_contradicts(c, l, kinds, ids, i, n)
}

/// A serialized list describes exactly the recorded closure: it is
/// well-formed, every object has a known kind, it shows exactly the closure
/// minus old-binding-only members, no `ACTIVE` contradicts recorded power,
/// and out-fences sit only on CRTCs, at most one each, covering exactly the
/// set the policy expects.
pub open spec fn serialized_matches(c: &AtomicCrtcClosure, l: AtomicPropertyList, kinds: Map<u32, ObjectKind>, ids: PropertyIds, fences: FencePolicy) -> bool {
    let total = l.props@.len() as int;
    let nobj = l.objects@.len() as int;
    &&& list_well_formed(l)
    &&& forall|i: int| 0 <= i < nobj ==> kinds.contains_key(#[trigger] l.objects@[i])
    &&& !fence_on_non_crtc(l, kinds, ids, total)
    &&& !active_contradiction(c, l, kinds, ids, total)
    &&& forall|x: u32| serialized_member(l, kinds, ids, nobj, total, x) <==> shows(c, x)
    &&& forall|x: u32| !fenced_twice(l, ids, total, x)
    &&& forall|x: u32| fenced_member(l, ids, total, x) <==> fence_expected(c, fences, x)
}

/// The object scan met `e` first, in object and entry order: an unknown
/// object before any of its entries, then, entry by entry, an out-fence on
/// a non-CRTC or an `ACTIVE` that contradicts the recorded power; every
/// object before it was known and every entry before it clean.
pub open spec fn rescan_object_fault_first(
    c: &AtomicCrtcClosure,
    l: AtomicPropertyList,
    kinds: Map<u32, ObjectKind>,
    ids: PropertyIds,
    e: ClosureError,
) -> bool {
    let counts = l.count_props@;
    match e {
        ClosureError::UnknownObject(x) => exists|i: int|
            0 <= i < l.objects@.len() && #[trigger] l.objects@[i] == x && !kinds.contains_key(x) && (forall|a: int|
                0 <= a < i ==> kinds.contains_key(#[trigger] l.objects@[a])) && !fence_on_non_crtc(l, kinds, ids, entries_start(counts, i))
                && !active_contradiction(c, l, kinds, ids, entries_start(counts, i)),
        ClosureError::OutFenceOnNonCrtc(x) => exists|i: int, n: int|
            #[trigger] entry_fences(l, ids, i, n) && l.objects@[i] == x && kinds.contains_key(x) && kind_of(kinds, x) != ObjectKind::Crtc
                && (forall|a: int| 0 <= a < i ==> kinds.contains_key(#[trigger] l.objects@[a])) && !fence_on_non_crtc(l, kinds, ids, n)
                && !active_contradiction(c, l, kinds, ids, n),
        ClosureError::ActiveContradictsPower { crtc, .. } => exists|i: int, n: int|
            #[trigger] entry_contradicts(c, l, kinds, ids, i, n) && l.objects@[i] == crtc && kinds.contains_key(crtc) && (forall|a: int|
                0 <= a < i ==> kinds.contains_key(#[trigger] l.objects@[a])) && !fence_on_non_crtc(l, kinds, ids, n + 1)
                && !active_contradiction(c, l, kinds, ids, n),
        _ => true,
    }
}

/// The order in which the re-scan finds defects: the list's shape first;
/// then, object by object, unknown objects, out-fences on non-CRTCs and
/// contradicted powered states; then the closure the list shows; then a
/// doubled out-fence; then out-fence coverage. An error of a later check
/// means every earlier check passed.
pub open spec fn rescan_error_in_order(c: &AtomicCrtcClosure, l: AtomicPropertyList, kinds: Map<u32, ObjectKind>, ids: PropertyIds, e: ClosureError) -> bool {
    let total = l.props@.len() as int;
    let nobj = l.objects@.len() as int;
    let scanned = list_well_formed(l) && (forall|i: int| 0 <= i < nobj ==> kinds.contains_key(#[trigger] l.objects@[i]))
        && !fence_on_non_crtc(l, kinds, ids, total) && !active_contradiction(c, l, kinds, ids, total);
    let shown = forall|x: u32| serialized_member(l, kinds, ids, nobj, total, x) <==> shows(c, x);
    match e {
        ClosureError::UnknownObject(_) | ClosureError::OutFenceOnNonCrtc(_) | ClosureError::ActiveContradictsPower { .. } => list_well_formed(l)
            && rescan_object_fault_first(c, l, kinds, ids, e),
        ClosureError::SerializedClosureDiffers { .. } => scanned,
        ClosureError::DuplicateOutFence(_) => scanned && shown,
        ClosureError::OutFenceCoverageDiffers { .. } => scanned && shown && forall|x: u32| !fenced_twice(l, ids, total, x),
        _ => true,
    }
}

/// Each re-scan error names a concrete defect of the serialized list.
pub open spec fn rescan_error_justified(c: &AtomicCrtcClosure, l: AtomicPropertyList, kinds: Map<u32, ObjectKind>, ids: PropertyIds, fences: FencePolicy, e: ClosureError) -> bool {
    let total = l.props@.len() as int;
    let nobj = l.objects@.len() as int;
    match e {
        ClosureError::MalformedPropertyList(_) => !list_well_formed(l),
        ClosureError::UnknownObject(x) => exists|i: int|
            0 <= i < nobj && #[trigger] l.objects@[i] == x && !kinds.contains_key(x),
        ClosureError::OutFenceOnNonCrtc(x) => exists|i: int, n: int|
            #[trigger] entry_fences(l, ids, i, n) && l.objects@[i] == x && kinds.contains_key(x)
                && kind_of(kinds, x) != ObjectKind::Crtc,
        ClosureError::ActiveContradictsPower { crtc, serialized, recorded } => exists|i: int, n: int, m: int|
            #![trigger in_object(l.count_props@, i, n), c.spec_new_active()[m]]
            in_object(l.count_props@, i, n) && l.props@[n] == ids.active && l.objects@[i] == crtc
                && kinds.contains_key(crtc) && kind_of(kinds, crtc) == ObjectKind::Crtc && serialized == (
            l.values@[n] != 0) && 0 <= m < c.spec_closure().len() && c.spec_closure()[m] == crtc
                && c.spec_new_active()[m] == recorded && recorded != serialized,
        ClosureError::SerializedClosureDiffers { recorded, serialized } => {
            &&& list_well_formed(l)
            &&& strictly_increasing(recorded@)
            &&& forall|x: u32| recorded@.contains(x) <==> shows(c, x)
            &&& strictly_increasing(serialized@)
            &&& forall|x: u32| serialized@.contains(x) <==> serialized_member(l, kinds, ids, nobj, total, x)
            &&& recorded@ != serialized@
        },
        ClosureError::DuplicateOutFence(x) => list_well_formed(l) && fenced_twice(l, ids, total, x),
        ClosureError::OutFenceCoverageDiffers { expected, found } => {
            &&& list_well_formed(l)
            &&& strictly_increasing(expected@)
            &&& forall|x: u32| expected@.contains(x) <==> fence_expected(c, fences, x)
            &&& strictly_increasing(found@)
            &&& forall|x: u32| found@.contains(x) <==> fenced_member(l, ids, total, x)
            &&& expected@ != found@
        },
        _ => false,
    }
}

proof fn lemma_entries_start_step(counts: Seq<u32>, i: int)
    requires
        0 <= i < counts.len(),
    ensures
        entries_start(counts, i + 1) == entries_start(counts, i) + counts[i],
{
    assert(counts.subrange(0, i + 1).drop_last() =~= counts.subrange(0, i));
}

proof fn lemma_entries_start_mono(counts: Seq<u32>, i: int, j: int)
    requires
        0 <= i <= j <= counts.len(),
    ensures
        entries_start(counts, i) <= entries_start(counts, j),
    decreases j - i,
{
    if i < j {
        lemma_entries_start_step(counts, j - 1);
        lemma_entries_start_mono(counts, i, j - 1);
    }
}

proof fn lemma_entries_start_total(counts: Seq<u32>)
    ensures
        entries_start(counts, counts.len() as int) == count_sum(counts),
{
    assert(counts.subrange(0, counts.len() as int) =~= counts);
}

/// Each flat entry belongs to at most one object.
proof fn lemma_in_object_unique(counts: Seq<u32>, i: int, j: int, n: int)
    requires
        in_object(counts, i, n),
        in_object(counts, j, n),
    ensures
        i == j,
{
    if i < j {
        lemma_entries_start_step(counts, i);
        lemma_entries_start_mono(counts, i + 1, j);
    }
    if j < i {
        lemma_entries_start_step(counts, j);
        lemma_entries_start_mono(counts, j + 1, i);
    }
}

#[derive(Debug, PartialEq, Eq)]
pub struct AtomicCrtcClosure {
    closure: Vec<u32>,
    /// Members contributed only by an old binding. A serialized list cannot
    /// show these, so the re-scan subtracts them before demanding equality.
    old_binding_only: Vec<u32>,
    expected_completion: Vec<u32>,
    kernel_event: Vec<u32>,
    present_event: Vec<u32>,
    /// The recorded `new_active` of each closure member, in closure order.
    new_active: Vec<bool>,
}

impl AtomicCrtcClosure {
    #[verifier::type_invariant]
    spec fn well_formed(self) -> bool {
        &&& strictly_increasing(self.closure@)
        &&& strictly_increasing(self.old_binding_only@)
        &&& strictly_increasing(self.expected_completion@)
        &&& self.new_active@.len() == self.closure@.len()
    }

    pub closed spec fn spec_closure(&self) -> Seq<u32> {
        self.closure@
    }

    pub closed spec fn spec_old_binding_only(&self) -> Seq<u32> {
        self.old_binding_only@
    }

    pub closed spec fn spec_expected_completion(&self) -> Seq<u32> {
        self.expected_completion@
    }

    pub closed spec fn spec_kernel_event(&self) -> Seq<u32> {
        self.kernel_event@
    }

    pub closed spec fn spec_present_event(&self) -> Seq<u32> {
        self.present_event@
    }

    pub closed spec fn spec_new_active(&self) -> Seq<bool> {
        self.new_active@
    }

    pub fn closure(&self) -> (r: &[u32])
        ensures
            r@ == self.spec_closure(),
    {
        self.closure.as_slice()
    }

    pub fn old_binding_only(&self) -> (r: &[u32])
        ensures
            r@ == self.spec_old_binding_only(),
    {
        self.old_binding_only.as_slice()
    }

    pub fn expected_completion(&self) -> (r: &[u32])
        ensures
            r@ == self.spec_expected_completion(),
    {
        self.expected_completion.as_slice()
    }

    pub fn kernel_event(&self) -> (r: &[u32])
        ensures
            r@ == self.spec_kernel_event(),
    {
        self.kernel_event.as_slice()
    }

    pub fn present_event(&self) -> (r: &[u32])
        ensures
            r@ == self.spec_present_event(),
    {
        self.present_event.as_slice()
    }

    /// Compute the closure of a request from its description, refusing any
    /// description that would make it ambiguous.
    pub fn compute(
        objects: &[SerializedObject],
        power_rows: &[CrtcPower],
        ids: &PropertyIds,
        page_flip_event: bool,
        present_consumers: &[u32],
    ) -> (r: Result<Self, ClosureError>)
        ensures
            r is Ok <==> closure_input_valid(objects@, power_rows@, *ids, page_flip_event, present_consumers@),
            r matches Ok(c) ==> c.describes(objects@, power_rows@, *ids, page_flip_event, present_consumers@),
            r matches Err(e) ==> closure_error_justified(
                objects@,
                power_rows@,
                *ids,
                page_flip_event,
                present_consumers@,
                e,
            ),
            r matches Err(e) ==> closure_error_in_order(objects@, power_rows@, *ids, page_flip_event, present_consumers@, e),
    {
        let ghost objs = objects@;
        let ghost rows = power_rows@;
        let ghost consumers = present_consumers@;
        match check_power_rows(power_rows) {
            Err(e) => {
                return Err(e);
            },
            Ok(()) => {},
        }
        let (from_objects, from_old) = match scan_objects(objects, ids) {
            Err(e) => {
                return Err(e);
            },
            Ok(sets) => sets,
        };
        let (closure, old_binding_only) = merge_bindings(&from_objects, &from_old);
        assert forall|c: u32| closure@.contains(c) <==> closure_member(objs, *ids, c) by {}

        // A power row outside the closure: report the smallest such CRTC.
        let mut outside: Option<u32> = None;
        let mut i: usize = 0;
        while i < power_rows.len()
            invariant
                0 <= i <= rows.len(),
                rows == power_rows@,
                forall|c: u32| closure@.contains(c) <==> closure_member(objs, *ids, c),
                outside is None ==> forall|a: int| 0 <= a < i ==> closure_member(objs, *ids, #[trigger] rows[a].crtc_id),
                outside matches Some(c) ==> has_row(rows, c) && !closure_member(objs, *ids, c),
                outside matches Some(c) ==> forall|a: int| 0 <= a < i && !closure_member(objs, *ids, #[trigger] rows[a].crtc_id) ==> c
                    <= rows[a].crtc_id,
            decreases rows.len() - i,
        {
            let id = power_rows[i].crtc_id;
            if !vec_contains(&closure, id) {
                let smaller = match outside {
                    Some(prev) => id < prev,
                    None => true,
                };
                if smaller {
                    outside = Some(id);
                }
            }
            i = i + 1;
        }
        if let Some(c) = outside {
            proof {
                assert forall|d: u32| has_row(rows, d) && !closure_member(objs, *ids, d) implies c <= d by {
                    let a = choose|a: int| 0 <= a < rows.len() && rows[a].crtc_id == d;
                    assert(!closure_member(objs, *ids, rows[a].crtc_id));
                }
            }
            return Err(ClosureError::PowerOutsideClosure(c));
        }
        assert(forall|a: int| 0 <= a < rows.len() ==> closure_member(objs, *ids, #[trigger] rows[a].crtc_id));

        // Walk the closure in order: every member needs a power row; those
        // that are or become active owe completion evidence.
        let mut expected: Vec<u32> = Vec::new();
        let mut new_active: Vec<bool> = Vec::new();
        let mut k: usize = 0;
        while k < closure.len()
            invariant
                0 <= k <= closure@.len(),
                rows == power_rows@,
                objs == objects@,
                consumers == present_consumers@,
                power_rows_distinct(rows),
                objects_distinct(objs),
                forall|i: int| 0 <= i < objs.len() ==> object_props_ok(#[trigger] objs[i], *ids),
                forall|a: int| 0 <= a < rows.len() ==> closure_member(objs, *ids, #[trigger] rows[a].crtc_id),
                strictly_increasing(closure@),
                forall|c: u32| closure@.contains(c) <==> closure_member(objs, *ids, c),
                forall|m: int| 0 <= m < k ==> has_row(rows, #[trigger] closure@[m]),
                page_flip_event ==> forall|m: int| 0 <= m < k ==> owes_completion(rows, #[trigger] closure@[m]),
                new_active@.len() == k,
                forall|m: int| 0 <= m < k ==> new_active@[m] == row_for(rows, closure@[m]).new_active,
                strictly_increasing(expected@),
                forall|c: u32| expected@.contains(c) <==> (exists|m: int| 0 <= m < k && closure@[m] == c) && owes_completion(rows, c),
                forall|n: int| 0 <= n < expected@.len() ==> exists|m: int| 0 <= m < k && closure@[m] == #[trigger] expected@[n],
            decreases closure@.len() - k,
        {
            let id = closure[k];
            proof {
                assert forall|d: u32| d < id && closure_member(objs, *ids, d) implies has_row(rows, d) && (page_flip_event
                    ==> owes_completion(rows, d)) by {
                    assert(closure@.contains(d));
                    let m = choose|m: int| 0 <= m < closure@.len() && closure@[m] == d;
                    if m >= k {
                        if m > k {
                            assert(closure@[k as int] < closure@[m]);
                        }
                    }
                }
            }
            let row = match find_row(power_rows, id) {
                None => {
                    assert(closure@[k as int] == id);
                    assert(closure@.contains(id));
                    assert(closure_member(objs, *ids, id));
                    assert(!has_row(rows, id));
                    assert(!closure_input_valid(objs, rows, *ids, page_flip_event, consumers));
                    return Err(ClosureError::UnknownPower(id));
                },
                Some(row) => row,
            };
            new_active.push(row.new_active);
            if row.old_active || row.new_active {
                let ghost e0 = expected@;
                proof {
                    assert forall|n: int| 0 <= n < e0.len() implies e0[n] < id by {
                        let m = choose|m: int| 0 <= m < k && closure@[m] == e0[n];
                    }
                }
                expected.push(id);
                assert(expected@ == e0.push(id));
                assert forall|n: int| 0 <= n < expected@.len() implies exists|m: int| 0 <= m < k + 1 && closure@[m] == #[trigger] expected@[n] by {
                    if n < e0.len() {
                        let m = choose|m: int| 0 <= m < k && closure@[m] == e0[n];
                        assert(expected@[n] == e0[n]);
                    } else {
                        assert(closure@[k as int] == expected@[n]);
                    }
                }
                assert forall|c: u32| expected@.contains(c) <==> (exists|m: int| 0 <= m < k + 1 && closure@[m] == c) && owes_completion(rows, c) by {
                    if expected@.contains(c) {
                        let n = choose|n: int| 0 <= n < expected@.len() && expected@[n] == c;
                        if n < e0.len() {
                            assert(e0[n] == c);
                            assert(e0.contains(c));
                        }
                    }
                    if (exists|m: int| 0 <= m < k + 1 && closure@[m] == c) && owes_completion(rows, c) {
                        let m = choose|m: int| 0 <= m < k + 1 && closure@[m] == c;
                        if m == k {
                            assert(expected@[expected@.len() - 1] == c);
                        } else {
                            assert(e0.contains(c));
                            let n = choose|n: int| 0 <= n < e0.len() && e0[n] == c;
                            assert(expected@[n] == c);
                        }
                    }
                }
            } else {
                if page_flip_event {
                    assert(closure@[k as int] == id);
                    assert(closure@.contains(id));
                    assert(closure_member(objs, *ids, id));
                    assert(!owes_completion(rows, id));
                    assert(!closure_input_valid(objs, rows, *ids, page_flip_event, consumers));
                    return Err(ClosureError::OffToOffWithPageEvent(id));
                }
                assert forall|c: u32| expected@.contains(c) <==> (exists|m: int| 0 <= m < k + 1 && closure@[m] == c) && owes_completion(rows, c) by {
                    if (exists|m: int| 0 <= m < k + 1 && closure@[m] == c) && owes_completion(rows, c) {
                        let m = choose|m: int| 0 <= m < k + 1 && closure@[m] == c;
                        assert(m != k);
                    }
                }
                assert forall|n: int| 0 <= n < expected@.len() implies exists|m: int| 0 <= m < k + 1 && closure@[m] == #[trigger] expected@[n] by {
                    let m = choose|m: int| 0 <= m < k && closure@[m] == expected@[n];
                }
            }
            k = k + 1;
        }
        assert forall|c: u32| closure_member(objs, *ids, c) implies has_row(rows, c) by {
            assert(closure@.contains(c));
            let m = choose|m: int| 0 <= m < closure@.len() && closure@[m] == c;
        }
        assert(page_flip_event ==> forall|c: u32| closure_member(objs, *ids, c) ==> owes_completion(rows, c)) by {
            if page_flip_event {
                assert forall|c: u32| closure_member(objs, *ids, c) implies owes_completion(rows, c) by {
                    assert(closure@.contains(c));
                    let m = choose|m: int| 0 <= m < closure@.len() && closure@[m] == c;
                }
            }
        }
        assert forall|c: u32| expected@.contains(c) <==> (closure_member(objs, *ids, c) && owes_completion(rows, c)) by {
            if closure_member(objs, *ids, c) {
                assert(closure@.contains(c));
                let m = choose|m: int| 0 <= m < closure@.len() && closure@[m] == c;
            }
        }

        let kernel_event = if page_flip_event {
            copy_vec(&expected)
        } else {
            Vec::new()
        };
        assert forall|c: u32| kernel_event@.contains(c) <==> in_kernel_event_set(objs, rows, *ids, page_flip_event, c) by {}

        // Present consumers must be in the event set; keep each once, ordered.
        let mut present: Vec<u32> = Vec::new();
        let mut p: usize = 0;
        while p < present_consumers.len()
            invariant
                0 <= p <= consumers.len(),
                consumers == present_consumers@,
                objs == objects@,
                rows == power_rows@,
                forall|c: u32| kernel_event@.contains(c) <==> in_kernel_event_set(objs, rows, *ids, page_flip_event, c),
                forall|m: int| 0 <= m < p ==> in_kernel_event_set(objs, rows, *ids, page_flip_event, #[trigger] consumers[m]),
                power_rows_distinct(rows),
                objects_distinct(objs),
                forall|i: int| 0 <= i < objs.len() ==> object_props_ok(#[trigger] objs[i], *ids),
                forall|a: int| 0 <= a < rows.len() ==> closure_member(objs, *ids, #[trigger] rows[a].crtc_id),
                forall|c: u32| closure_member(objs, *ids, c) ==> has_row(rows, c) && (page_flip_event ==> owes_completion(rows, c)),
                strictly_increasing(present@),
                forall|c: u32| present@.contains(c) <==> exists|m: int| 0 <= m < p && consumers[m] == c,
            decreases consumers.len() - p,
        {
            let id = present_consumers[p];
            if !vec_contains(&kernel_event, id) {
                assert(consumers[p as int] == id);
                assert(consumers.contains(id));
                assert(!in_kernel_event_set(objs, rows, *ids, page_flip_event, id));
                assert(!closure_input_valid(objs, rows, *ids, page_flip_event, consumers));
                assert(forall|m: int| 0 <= m < p ==> in_kernel_event_set(objs, rows, *ids, page_flip_event, #[trigger] consumers[m]));
                return Err(ClosureError::PresentConsumerOutsideEventSet(id));
            }
            let ghost p0 = present@;
            sorted_insert(&mut present, id);
            assert forall|c: u32| present@.contains(c) <==> exists|m: int| 0 <= m < p + 1 && consumers[m] == c by {
                assert(present@.contains(c) <==> present@.to_set().contains(c));
                assert(p0.contains(c) <==> p0.to_set().contains(c));
                if exists|m: int| 0 <= m < p + 1 && consumers[m] == c {
                    let m = choose|m: int| 0 <= m < p + 1 && consumers[m] == c;
                    if m < p {
                        assert(exists|m: int| 0 <= m < p && consumers[m] == c);
                    }
                }
            }
            p = p + 1;
        }
        assert forall|c: u32| present@.contains(c) <==> consumers.contains(c) by {
            if consumers.contains(c) {
                let m = choose|m: int| 0 <= m < consumers.len() && consumers[m] == c;
            }
        }

        let result = AtomicCrtcClosure {
            closure,
            old_binding_only,
            expected_completion: expected,
            kernel_event,
            present_event: present,
            new_active,
        };
        assert(result.describes(objs, rows, *ids, page_flip_event, consumers));
        Ok(result)
    }

    /// The recorded `new_active` of a closure member.
    fn recorded_active(&self, crtc: u32) -> (r: Option<bool>)
        ensures
            r matches Some(b) ==> exists|m: int|
                0 <= m < self.spec_closure().len() && self.spec_closure()[m] == crtc && #[trigger] self.spec_new_active()[m] == b,
            r is None ==> !self.spec_closure().contains(crtc),
    {
        proof {
            use_type_invariant(self);
        }
        let mut m: usize = 0;
        while m < self.closure.len()
            invariant
                0 <= m <= self.closure@.len(),
                self.new_active@.len() == self.closure@.len(),
                forall|k: int| 0 <= k < m ==> self.closure@[k] != crtc,
            decreases self.closure@.len() - m,
        {
            if self.closure[m] == crtc {
                assert(self.spec_new_active()[m as int] == self.new_active@[m as int]);
                return Some(self.new_active[m]);
            }
            m = m + 1;
        }
        None
    }

    /// The members a serialized list must show, in closure order.
    fn expected_serialized(&self) -> (r: Vec<u32>)
        ensures
            strictly_increasing(r@),
            forall|x: u32| r@.contains(x) <==> shows(self, x),
    {
        proof {
            use_type_invariant(self);
        }
        let mut out: Vec<u32> = Vec::new();
        let mut m: usize = 0;
        while m < self.closure.len()
            invariant
                0 <= m <= self.closure@.len(),
                strictly_increasing(self.closure@),
                strictly_increasing(out@),
                forall|x: u32| out@.contains(x) <==> ((exists|k: int| 0 <= k < m && self.closure@[k] == x) && !self.old_binding_only@.contains(x)),
                forall|n: int| 0 <= n < out@.len() ==> exists|k: int| 0 <= k < m && self.closure@[k] == #[trigger] out@[n],
            decreases self.closure@.len() - m,
        {
            let x = self.closure[m];
            if !vec_contains(&self.old_binding_only, x) {
                let ghost o0 = out@;
                proof {
                    assert forall|n: int| 0 <= n < o0.len() implies o0[n] < x by {
                        let k = choose|k: int| 0 <= k < m && self.closure@[k] == o0[n];
                    }
                }
                out.push(x);
                assert(out@ == o0.push(x));
                assert forall|n: int| 0 <= n < out@.len() implies exists|k: int| 0 <= k < m + 1 && self.closure@[k] == #[trigger] out@[n] by {
                    if n < o0.len() {
                        let k = choose|k: int| 0 <= k < m && self.closure@[k] == o0[n];
                        assert(out@[n] == o0[n]);
                    } else {
                        assert(self.closure@[m as int] == out@[n]);
                    }
                }
                assert forall|y: u32| out@.contains(y) <==> ((exists|k: int| 0 <= k < m + 1 && self.closure@[k] == y) && !self.old_binding_only@.contains(y)) by {
                    if out@.contains(y) {
                        let n = choose|n: int| 0 <= n < out@.len() && out@[n] == y;
                        if n < o0.len() {
                            assert(o0[n] == y);
                            assert(o0.contains(y));
                        }
                    }
                    if (exists|k: int| 0 <= k < m + 1 && self.closure@[k] == y) && !self.old_binding_only@.contains(y) {
                        let k = choose|k: int| 0 <= k < m + 1 && self.closure@[k] == y;
                        if k == m {
                            assert(out@[out@.len() - 1] == y);
                        } else {
                            assert(o0.contains(y));
                            let n = choose|n: int| 0 <= n < o0.len() && o0[n] == y;
                            assert(out@[n] == y);
                        }
                    }
                }
            } else {
                assert forall|y: u32| out@.contains(y) <==> ((exists|k: int| 0 <= k < m + 1 && self.closure@[k] == y) && !self.old_binding_only@.contains(y)) by {
                    if (exists|k: int| 0 <= k < m + 1 && self.closure@[k] == y) && !self.old_binding_only@.contains(y) {
                        let k = choose|k: int| 0 <= k < m + 1 && self.closure@[k] == y;
                        assert(k != m);
                    }
                }
                assert forall|n: int| 0 <= n < out@.len() implies exists|k: int| 0 <= k < m + 1 && self.closure@[k] == #[trigger] out@[n] by {
                    let k = choose|k: int| 0 <= k < m && self.closure@[k] == out@[n];
                }
            }
            m = m + 1;
        }
        assert forall|x: u32| out@.contains(x) <==> shows(self, x) by {
            if self.closure@.contains(x) {
                let k = choose|k: int| 0 <= k < self.closure@.len() && self.closure@[k] == x;
            }
        }
        out
    }

    /// Re-scan the serialized list that will actually be sent and demand
    /// that it describes exactly this closure.
    pub fn verify_serialized(
        &self,
        props: &AtomicPropertyList,
        kinds: &BTreeMap<u32, ObjectKind>,
        ids: &PropertyIds,
        fences: FencePolicy,
    ) -> (r: Result<(), ClosureError>)
        ensures
            r is Ok <==> serialized_matches(self, *props, kinds@, *ids, fences),
            r matches Err(e) ==> rescan_error_justified(self, *props, kinds@, *ids, fences, e),
            r matches Err(e) ==> rescan_error_in_order(self, *props, kinds@, *ids, e),
    {
        proof {
            use_type_invariant(self);
            lemma_u32_keys_ordered();
        }
        let ghost l = *props;
        let ghost counts = props.count_props@;
        if props.count_props.len() != props.objects.len() {
            return Err(ClosureError::MalformedPropertyList("count_props length"));
        }
        if props.props.len() != props.values.len() {
            return Err(ClosureError::MalformedPropertyList("props/values length"));
        }
        // Sum the declared counts, stopping as soon as they exceed the payload.
        let mut declared: usize = 0;
        let mut d: usize = 0;
        while d < props.count_props.len()
            invariant
                0 <= d <= counts.len(),
                counts == props.count_props@,
                declared == entries_start(counts, d as int),
                declared <= props.props@.len(),
            decreases counts.len() - d,
        {
            proof {
                lemma_entries_start_step(counts, d as int);
            }
            let c = props.count_props[d] as usize;
            if c > props.props.len() - declared {
                proof {
                    lemma_entries_start_mono(counts, d as int + 1, counts.len() as int);
                    lemma_entries_start_total(counts);
                }
                return Err(ClosureError::MalformedPropertyList("declared count vs payload"));
            }
            declared = declared + c;
            d = d + 1;
        }
        proof {
            lemma_entries_start_total(counts);
        }
        if declared != props.props.len() {
            return Err(ClosureError::MalformedPropertyList("declared count vs payload"));
        }
        assert(list_well_formed(l));

        let ghost total = l.props@.len() as int;
        let ghost nobj = l.objects@.len() as int;
        let mut serialized: Vec<u32> = Vec::new();
        let mut fenced: Vec<u32> = Vec::new();
        let mut twice: Vec<u32> = Vec::new();
        let mut cursor: usize = 0;
        let mut i: usize = 0;
        while i < props.objects.len()
            invariant
                0 <= i <= nobj,
                l == *props,
                counts == l.count_props@,
                list_well_formed(l),
                total == l.props@.len(),
                total <= usize::MAX,
                strictly_increasing(self.spec_closure()),
                self.spec_new_active().len() == self.spec_closure().len(),
                nobj == l.objects@.len(),
                cursor == entries_start(counts, i as int),
                cursor <= total,
                forall|a: int| 0 <= a < i ==> kinds@.contains_key(#[trigger] l.objects@[a]),
                strictly_increasing(serialized@),
                strictly_increasing(fenced@),
                strictly_increasing(twice@),
                forall|x: u32| serialized@.contains(x) <==> serialized_member(l, kinds@, *ids, i as int, cursor as int, x),
                forall|x: u32| fenced@.contains(x) <==> fenced_member(l, *ids, cursor as int, x),
                forall|x: u32| twice@.contains(x) <==> fenced_twice(l, *ids, cursor as int, x),
                !fence_on_non_crtc(l, kinds@, *ids, cursor as int),
                !active_contradiction(self, l, kinds@, *ids, cursor as int),
            decreases nobj - i,
        {
            let object = props.objects[i];
            let count = props.count_props[i] as usize;
            proof {
                lemma_entries_start_step(counts, i as int);
                lemma_entries_start_mono(counts, i as int + 1, counts.len() as int);
                lemma_entries_start_total(counts);
            }
            let kind = match kinds.get(&object) {
                Some(k) => *k,
                None => {
                    assert(l.objects@[i as int] == object && !kinds@.contains_key(object));
                    assert(rescan_object_fault_first(self, l, kinds@, *ids, ClosureError::UnknownObject(object)));
                    return Err(ClosureError::UnknownObject(object));
                },
            };
            let ghost s0 = serialized@;
            if kind == ObjectKind::Crtc {
                sorted_insert(&mut serialized, object);
            }
            assert forall|x: u32| serialized@.contains(x) <==> serialized_member(l, kinds@, *ids, i as int + 1, cursor as int, x) by {
                assert(serialized@.contains(x) <==> serialized@.to_set().contains(x));
                assert(s0.contains(x) <==> s0.to_set().contains(x));
                if exists|a: int| 0 <= a < i + 1 && kind_of(kinds@, l.objects@[a]) == ObjectKind::Crtc && #[trigger] l.objects@[a] == x {
                    let a = choose|a: int| 0 <= a < i + 1 && kind_of(kinds@, l.objects@[a]) == ObjectKind::Crtc && #[trigger] l.objects@[a] == x;
                    if a < i {
                        assert(serialized_member(l, kinds@, *ids, i as int, cursor as int, x));
                    }
                }
                if kind == ObjectKind::Crtc && x == object {
                    assert(l.objects@[i as int] == x);
                }
            }
            let mut k: usize = 0;
            while k < count
                invariant
                    0 <= k <= count,
                    0 <= i < nobj,
                    l == *props,
                    counts == l.count_props@,
                    list_well_formed(l),
                    total == l.props@.len(),
                    total <= usize::MAX,
                    strictly_increasing(self.spec_closure()),
                    self.spec_new_active().len() == self.spec_closure().len(),
                    nobj == l.objects@.len(),
                    object == l.objects@[i as int],
                    count == counts[i as int],
                    kinds@.contains_key(object),
                    kind == kind_of(kinds@, object),
                    forall|a: int| 0 <= a < i ==> kinds@.contains_key(#[trigger] l.objects@[a]),
                    cursor == entries_start(counts, i as int),
                    cursor + count <= total,
                    strictly_increasing(serialized@),
                    strictly_increasing(fenced@),
                    strictly_increasing(twice@),
                    forall|x: u32| serialized@.contains(x) <==> serialized_member(l, kinds@, *ids, i as int + 1, cursor + k, x),
                    forall|x: u32| fenced@.contains(x) <==> fenced_member(l, *ids, cursor + k, x),
                    forall|x: u32| twice@.contains(x) <==> fenced_twice(l, *ids, cursor + k, x),
                    !fence_on_non_crtc(l, kinds@, *ids, cursor + k),
                    !active_contradiction(self, l, kinds@, *ids, cursor + k),
                decreases count - k,
            {
                let n = cursor + k;
                let prop = props.props[n];
                let value = props.values[n];
                assert(in_object(counts, i as int, n as int));
                // Every other object's entries lie elsewhere.
                assert forall|a: int| #[trigger] in_object(counts, a, n as int) implies a == i by {
                    lemma_in_object_unique(counts, a, i as int, n as int);
                }
                let ghost s1 = serialized@;
                if prop == ids.crtc_id && kind != ObjectKind::Crtc && value != 0 {
                    sorted_insert(&mut serialized, value as u32);
                }
                assert forall|x: u32| serialized@.contains(x) <==> serialized_member(l, kinds@, *ids, i as int + 1, n + 1, x) by {
                    assert(serialized@.contains(x) <==> serialized@.to_set().contains(x));
                    assert(s1.contains(x) <==> s1.to_set().contains(x));
                    if exists|a: int, b: int| b < n + 1 && #[trigger] entry_binds(l, kinds@, *ids, a, b, x) {
                        let (a, b) = choose|a: int, b: int| b < n + 1 && #[trigger] entry_binds(l, kinds@, *ids, a, b, x);
                        if b < n {
                            assert(serialized_member(l, kinds@, *ids, i as int + 1, n as int, x));
                        } else {
                            assert(a == i);
                        }
                    }
                    if prop == ids.crtc_id && kind != ObjectKind::Crtc && value != 0 && x == value as u32 {
                        assert(entry_binds(l, kinds@, *ids, i as int, n as int, x));
                    }
                }
                if prop == ids.out_fence_ptr {
                    if kind != ObjectKind::Crtc {
                        assert(entry_fences(l, *ids, i as int, n as int));
                        assert(fence_on_non_crtc(l, kinds@, *ids, total));
                        assert(rescan_object_fault_first(self, l, kinds@, *ids, ClosureError::OutFenceOnNonCrtc(object)));
                        return Err(ClosureError::OutFenceOnNonCrtc(object));
                    }
                    let ghost f0 = fenced@;
                    let ghost t0 = twice@;
                    if vec_contains(&fenced, object) {
                        sorted_insert(&mut twice, object);
                    } else {
                        sorted_insert(&mut fenced, object);
                    }
                    assert(entry_fences(l, *ids, i as int, n as int));
                    assert forall|x: u32| fenced@.contains(x) <==> fenced_member(l, *ids, n + 1, x) by {
                        assert(fenced@.contains(x) <==> fenced@.to_set().contains(x));
                        assert(f0.contains(x) <==> f0.to_set().contains(x));
                        if fenced_member(l, *ids, n + 1, x) {
                            let (a, b) = choose|a: int, b: int| b < n + 1 && #[trigger] entry_fences(l, *ids, a, b) && l.objects@[a] == x;
                            if b < n {
                                assert(fenced_member(l, *ids, n as int, x));
                            } else {
                                assert(a == i);
                            }
                        }
                    }
                    assert forall|x: u32| twice@.contains(x) <==> fenced_twice(l, *ids, n + 1, x) by {
                        assert(twice@.contains(x) <==> twice@.to_set().contains(x));
                        assert(t0.contains(x) <==> t0.to_set().contains(x));
                        if fenced_twice(l, *ids, n + 1, x) {
                            let (a1, b1, a2, b2) = choose|a1: int, b1: int, a2: int, b2: int|
                                b1 < b2 < n + 1 && #[trigger] entry_fences(l, *ids, a1, b1) && #[trigger] entry_fences(l, *ids, a2, b2)
                                    && l.objects@[a1] == x && l.objects@[a2] == x;
                            if b2 < n {
                                assert(fenced_twice(l, *ids, n as int, x));
                            } else {
                                assert(a2 == i);
                                assert(fenced_member(l, *ids, n as int, x));
                            }
                        }
                        if x == object && f0.contains(object) {
                            assert(fenced_member(l, *ids, n as int, x));
                            let (a1, b1) = choose|a1: int, b1: int| b1 < n && #[trigger] entry_fences(l, *ids, a1, b1) && l.objects@[a1] == x;
                            assert(fenced_twice(l, *ids, n + 1, x));
                        }
                    }
                    assert(!fence_on_non_crtc(l, kinds@, *ids, n + 1)) by {
                        if fence_on_non_crtc(l, kinds@, *ids, n + 1) {
                            let (a, b) = choose|a: int, b: int| b < n + 1 && #[trigger] entry_fences(l, *ids, a, b) && kind_of(kinds@, l.objects@[a]) != ObjectKind::Crtc;
                            if b == n {
                                assert(a == i);
                            }
                        }
                    }
                } else {
                    assert forall|x: u32| fenced@.contains(x) <==> fenced_member(l, *ids, n + 1, x) by {
                        if fenced_member(l, *ids, n + 1, x) {
                            let (a, b) = choose|a: int, b: int| b < n + 1 && #[trigger] entry_fences(l, *ids, a, b) && l.objects@[a] == x;
                            if b == n {
                                assert(a == i);
                            }
                        }
                    }
                    assert forall|x: u32| twice@.contains(x) <==> fenced_twice(l, *ids, n + 1, x) by {
                        if fenced_twice(l, *ids, n + 1, x) {
                            let (a1, b1, a2, b2) = choose|a1: int, b1: int, a2: int, b2: int|
                                b1 < b2 < n + 1 && #[trigger] entry_fences(l, *ids, a1, b1) && #[trigger] entry_fences(l, *ids, a2, b2)
                                    && l.objects@[a1] == x && l.objects@[a2] == x;
                            if b2 == n {
                                assert(a2 == i);
                            }
                        }
                    }
                    assert(!fence_on_non_crtc(l, kinds@, *ids, n + 1)) by {
                        if fence_on_non_crtc(l, kinds@, *ids, n + 1) {
                            let (a, b) = choose|a: int, b: int| b < n + 1 && #[trigger] entry_fences(l, *ids, a, b) && kind_of(kinds@, l.objects@[a]) != ObjectKind::Crtc;
                            if b == n {
                                assert(a == i);
                            }
                        }
                    }
                }
                if prop == ids.active && kind == ObjectKind::Crtc {
                    let serialized_active = value != 0;
                    match self.recorded_active(object) {
                        Some(recorded) => {
                            let ghost m1 = choose|m: int|
                                0 <= m < self.spec_closure().len() && self.spec_closure()[m] == object
                                    && #[trigger] self.spec_new_active()[m] == recorded;
                            if recorded != serialized_active {
                                assert(in_object(counts, i as int, n as int));
                                assert(self.spec_new_active()[m1] != (l.values@[n as int] != 0));
                                assert(entry_contradicts(self, l, kinds@, *ids, i as int, n as int));
                                assert(active_contradiction(self, l, kinds@, *ids, total));
                                assert(rescan_object_fault_first(
                                    self,
                                    l,
                                    kinds@,
                                    *ids,
                                    ClosureError::ActiveContradictsPower { crtc: object, serialized: serialized_active, recorded },
                                ));
                                return Err(ClosureError::ActiveContradictsPower {
                                    crtc: object,
                                    serialized: serialized_active,
                                    recorded,
                                });
                            }
                            assert forall|m: int|
                                0 <= m < self.spec_closure().len() && self.spec_closure()[m] == object implies
                                #[trigger] self.spec_new_active()[m] == (l.values@[n as int] != 0) by {
                                if m < m1 {
                                    assert(self.spec_closure()[m] < self.spec_closure()[m1]);
                                } else if m > m1 {
                                    assert(self.spec_closure()[m1] < self.spec_closure()[m]);
                                }
                            }
                        },
                        None => {
                            assert(!self.spec_closure().contains(object));
                        },
                    }
                }
                assert(!active_contradiction(self, l, kinds@, *ids, n + 1)) by {
                    if active_contradiction(self, l, kinds@, *ids, n + 1) {
                        let (a, b) = choose|a: int, b: int| b < n + 1 && #[trigger] entry_contradicts(self, l, kinds@, *ids, a, b);
                        if b == n {
                            assert(a == i);
                            let m = choose|m: int|
                                0 <= m < self.spec_closure().len() && self.spec_closure()[m] == l.objects@[a]
                                    && #[trigger] self.spec_new_active()[m] != (l.values@[b] != 0);
                            assert(self.spec_closure()[m] == object);
                            assert(self.spec_closure().contains(object));
                        }
                    }
                }
                k = k + 1;
            }
            cursor = cursor + count;
            assert forall|x: u32| serialized@.contains(x) <==> serialized_member(l, kinds@, *ids, i as int + 1, cursor as int, x) by {}
            i = i + 1;
        }
        assert(cursor == total);

        let recorded = self.expected_serialized();
        if !vec_eq(&serialized, &recorded) {
            proof {
                if recorded@ == serialized@ {
                }
                if forall|x: u32| serialized_member(l, kinds@, *ids, nobj, total, x) <==> shows(self, x) {
                    assert forall|x: u32| recorded@.contains(x) <==> serialized@.contains(x) by {
                        assert(serialized@.contains(x) <==> serialized_member(l, kinds@, *ids, nobj, total, x));
                        assert(recorded@.contains(x) <==> shows(self, x));
                    }
                    lemma_increasing_same_members(recorded@, serialized@);
                }
            }
            return Err(ClosureError::SerializedClosureDiffers { recorded, serialized });
        }
        if twice.len() > 0 {
            let first = twice[0];
            assert(twice@.contains(first));
            return Err(ClosureError::DuplicateOutFence(first));
        }
        assert forall|x: u32| !fenced_twice(l, *ids, total, x) by {
            if fenced_twice(l, *ids, total, x) {
                assert(twice@.contains(x));
            }
        }
        let expected: Vec<u32> = match fences {
            FencePolicy::Required => copy_vec(&self.expected_completion),
            FencePolicy::Forbidden => Vec::new(),
        };
        if !vec_eq(&fenced, &expected) {
            proof {
                if forall|x: u32| fenced_member(l, *ids, total, x) <==> fence_expected(self, fences, x) {
                    assert forall|x: u32| expected@.contains(x) <==> fenced@.contains(x) by {
                        assert(fenced@.contains(x) <==> fenced_member(l, *ids, total, x));
                        assert(expected@.contains(x) <==> fence_expected(self, fences, x));
                    }
                    lemma_increasing_same_members(expected@, fenced@);
                }
            }
            return Err(ClosureError::OutFenceCoverageDiffers { expected, found: fenced });
        }
        assert(i == nobj);
        assert forall|x: u32| serialized_member(l, kinds@, *ids, nobj, total, x) <==> shows(self, x) by {
            assert(serialized@.contains(x) <==> serialized_member(l, kinds@, *ids, nobj, total, x));
            assert(recorded@.contains(x) <==> shows(self, x));
        }
        assert forall|x: u32| fenced_member(l, *ids, total, x) <==> fence_expected(self, fences, x) by {
            assert(fenced@.contains(x) <==> fenced_member(l, *ids, total, x));
            assert(expected@.contains(x) <==> fence_expected(self, fences, x));
        }
        Ok(())
    }

    /// The closure computed from a request's description, as ordered sets.
    pub open spec fn describes(
        self,
        objs: Seq<SerializedObject>,
        rows: Seq<CrtcPower>,
        ids: PropertyIds,
        page_flip_event: bool,
        consumers: Seq<u32>,
    ) -> bool {
        &&& strictly_increasing(self.spec_closure())
        &&& forall|c: u32| self.spec_closure().contains(c) <==> closure_member(objs, ids, c)
        &&& strictly_increasing(self.spec_old_binding_only())
        &&& forall|c: u32| self.spec_old_binding_only().contains(c) <==> (bound_before(objs, c)
            && !bound_by_objects(objs, ids, c))
        &&& strictly_increasing(self.spec_expected_completion())
        &&& forall|c: u32| self.spec_expected_completion().contains(c) <==> (closure_member(objs, ids, c)
            && owes_completion(rows, c))
        &&& self.spec_kernel_event() == (if page_flip_event {
            self.spec_expected_completion()
        } else {
            Seq::<u32>::empty()
        })
        &&& strictly_increasing(self.spec_present_event())
        &&& forall|c: u32| self.spec_present_event().contains(c) <==> consumers.contains(c)
        &&& self.spec_new_active().len() == self.spec_closure().len()
        &&& forall|i: int| 0 <= i < self.spec_closure().len() ==> self.spec_new_active()[i] == row_for(
            rows,
            self.spec_closure()[i],
        ).new_active
    }
}

} // verus!
