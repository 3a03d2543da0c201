//! Strictly increasing `u32` vectors used as ordered sets.
use vstd::prelude::*;
use vstd::std_specs::cmp::OrdSpec;
use std::collections::{BTreeMap, BTreeSet};
use vstd::std_specs::iter::IteratorSpec;

verus! {

/// Every element is smaller than the next: an ordered set without repeats.
pub open spec fn strictly_increasing(s: Seq<u32>) -> bool {
    forall|i: int, j: int| 0 <= i < j < s.len() ==> s[i] < s[j]
}

/// Whether `x` occurs in `v`.
pub fn vec_contains(v: &Vec<u32>, x: u32) -> (r: bool)
    ensures
        r == v@.contains(x),
{
    let mut i: usize = 0;
    while i < v.len()
        invariant
            0 <= i <= v@.len(),
            forall|k: int| 0 <= k < i ==> v@[k] != x,
        decreases v@.len() - i,
    {
        if v[i] == x {
            return true;
        }
        i = i + 1;
    }
    false
}

/// Insert `x` into an ordered set, keeping it ordered.
pub fn sorted_insert(v: &mut Vec<u32>, x: u32)
    requires
        strictly_increasing(old(v)@),
    ensures
        strictly_increasing(final(v)@),
        final(v)@.to_set() == old(v)@.to_set().insert(x),
{
    let mut i: usize = 0;
    while i < v.len() && v[i] < x
        invariant
            0 <= i <= v@.len(),
            strictly_increasing(v@),
            forall|k: int| 0 <= k < i ==> v@[k] < x,
        decreases v@.len() - i,
    {
        i = i + 1;
    }
    if i < v.len() && v[i] == x {
        assert(old(v)@.to_set().insert(x) =~= old(v)@.to_set()) by {
            assert(old(v)@[i as int] == x);
        }
        return;
    }
    let ghost before = v@;
    v.insert(i, x);
    assert(v@ =~= before.subrange(0, i as int).push(x) + before.subrange(i as int, before.len() as int));
    assert(forall|k: int| 0 <= k < v@.len() ==> (v@[k] == if k < i { before[k] } else if k == i { x } else { before[k - 1] }));
    assert(v@.to_set() =~= before.to_set().insert(x)) by {
        assert forall|y: u32| v@.to_set().contains(y) implies before.to_set().insert(x).contains(y) by {
            let k = choose|k: int| 0 <= k < v@.len() && v@[k] == y;
            if k < i {
                assert(before[k] == y);
            } else if k > i {
                assert(before[k - 1] == y);
            }
        }
        assert forall|y: u32| before.to_set().insert(x).contains(y) implies v@.to_set().contains(y) by {
            if y == x {
                assert(v@[i as int] == x);
            } else {
                let k = choose|k: int| 0 <= k < before.len() && before[k] == y;
                if k < i {
                    assert(v@[k] == y);
                } else {
                    assert(v@[k + 1] == y);
                }
            }
        }
    }
}

/// Two ordered sets with the same members are the same sequence.
pub proof fn lemma_increasing_same_members(a: Seq<u32>, b: Seq<u32>)
    requires
        strictly_increasing(a),
        strictly_increasing(b),
        forall|x: u32| a.contains(x) <==> b.contains(x),
    ensures
        a == b,
    decreases a.len(),
{
    if a.len() == 0 {
        if b.len() > 0 {
            assert(b.contains(b[0]));
        }
        assert(a =~= b);
    } else {
        if b.len() == 0 {
            assert(a.contains(a[0]));
        } else {
            assert(a.contains(a[0]));
            assert(b.contains(b[0]));
            let ia = choose|i: int| 0 <= i < a.len() && a[i] == b[0];
            let ib = choose|i: int| 0 <= i < b.len() && b[i] == a[0];
            if ia > 0 {
                assert(a[0] < a[ia]);
            }
            if ib > 0 {
                assert(b[0] < b[ib]);
            }
            assert(a[0] == b[0]);
            let ta = a.drop_first();
            let tb = b.drop_first();
            assert forall|x: u32| ta.contains(x) <==> tb.contains(x) by {
                if ta.contains(x) {
                    let i = choose|i: int| 0 <= i < ta.len() && ta[i] == x;
                    assert(a[i + 1] == x);
                    assert(a.contains(x));
                    assert(x != a[0]);
                    let j = choose|j: int| 0 <= j < b.len() && b[j] == x;
                    assert(j != 0);
                    assert(tb[j - 1] == x);
                }
                if tb.contains(x) {
                    let i = choose|i: int| 0 <= i < tb.len() && tb[i] == x;
                    assert(b[i + 1] == x);
                    assert(b.contains(x));
                    assert(x != b[0]);
                    let j = choose|j: int| 0 <= j < a.len() && a[j] == x;
                    assert(j != 0);
                    assert(ta[j - 1] == x);
                }
            }
            lemma_increasing_same_members(ta, tb);
            assert(a =~= seq![a[0]] + ta);
            assert(b =~= seq![b[0]] + tb);
        }
    }
}

/// Every `u64` is smaller than the next.
pub open spec fn strictly_increasing_u64(s: Seq<u64>) -> bool {
    forall|i: int, j: int| 0 <= i < j < s.len() ==> s[i] < s[j]
}

/// Two ordered `u64` sets with the same members are the same sequence.
pub proof fn lemma_increasing_same_members_u64(a: Seq<u64>, b: Seq<u64>)
    requires
        strictly_increasing_u64(a),
        strictly_increasing_u64(b),
        forall|x: u64| a.contains(x) <==> b.contains(x),
    ensures
        a == b,
    decreases a.len(),
{
    if a.len() == 0 {
        if b.len() > 0 {
            assert(b.contains(b[0]));
        }
        assert(a =~= b);
    } else {
        if b.len() == 0 {
            assert(a.contains(a[0]));
        } else {
            assert(a.contains(a[0]));
            assert(b.contains(b[0]));
            let ia = choose|i: int| 0 <= i < a.len() && a[i] == b[0];
            let ib = choose|i: int| 0 <= i < b.len() && b[i] == a[0];
            if ia > 0 {
                assert(a[0] < a[ia]);
            }
            if ib > 0 {
                assert(b[0] < b[ib]);
            }
            assert(a[0] == b[0]);
            let ta = a.drop_first();
            let tb = b.drop_first();
            assert forall|x: u64| ta.contains(x) <==> tb.contains(x) by {
                if ta.contains(x) {
                    let i = choose|i: int| 0 <= i < ta.len() && ta[i] == x;
                    assert(a[i + 1] == x);
                    assert(a.contains(x));
                    assert(x != a[0]);
                    let j = choose|j: int| 0 <= j < b.len() && b[j] == x;
                    assert(j != 0);
                    assert(tb[j - 1] == x);
                }
                if tb.contains(x) {
                    let i = choose|i: int| 0 <= i < tb.len() && tb[i] == x;
                    assert(b[i + 1] == x);
                    assert(b.contains(x));
                    assert(x != b[0]);
                    let j = choose|j: int| 0 <= j < a.len() && a[j] == x;
                    assert(j != 0);
                    assert(ta[j - 1] == x);
                }
            }
            lemma_increasing_same_members_u64(ta, tb);
            assert(a =~= seq![a[0]] + ta);
            assert(b =~= seq![b[0]] + tb);
        }
    }
}

/// Element-wise equality of two vectors.
pub fn vec_eq(a: &Vec<u32>, b: &Vec<u32>) -> (r: bool)
    ensures
        r == (a@ == b@),
{
    if a.len() != b.len() {
        return false;
    }
    let mut i: usize = 0;
    while i < a.len()
        invariant
            0 <= i <= a@.len(),
            a@.len() == b@.len(),
            forall|k: int| 0 <= k < i ==> a@[k] == b@[k],
        decreases a@.len() - i,
    {
        if a[i] != b[i] {
            return false;
        }
        i = i + 1;
    }
    assert(a@ =~= b@);
    true
}

/// An element-for-element copy.
pub fn copy_vec(v: &Vec<u32>) -> (r: Vec<u32>)
    ensures
        r@ == v@,
{
    let mut r: Vec<u32> = Vec::new();
    let mut i: usize = 0;
    while i < v.len()
        invariant
            0 <= i <= v@.len(),
            r@ == v@.subrange(0, i as int),
        decreases v@.len() - i,
    {
        r.push(v[i]);
        i = i + 1;
        assert(r@ =~= v@.subrange(0, i as int));
    }
    assert(v@.subrange(0, v@.len() as int) =~= v@);
    r
}


/// `u32` keys are ordered the way the ordered std maps expect.
pub open spec fn u32_keys_ordered() -> bool {
    &&& vstd::std_specs::btree::key_obeys_cmp_spec::<u32>()
    &&& vstd::laws_cmp::obeys_cmp::<u32>()
}

/// `u32` keys are totally ordered the way the ordered std maps expect.
pub proof fn lemma_u32_keys_ordered()
    ensures
        u32_keys_ordered(),
{
    broadcast use {vstd::laws_cmp::group_laws_cmp, vstd::std_specs::btree::group_btree_axioms};
}

/// `u64` keys are ordered the way the ordered std maps expect.
pub open spec fn u64_keys_ordered() -> bool {
    &&& vstd::std_specs::btree::key_obeys_cmp_spec::<u64>()
    &&& vstd::laws_cmp::obeys_cmp::<u64>()
}

/// `u64` keys are totally ordered the way the ordered std maps expect.
pub proof fn lemma_u64_keys_ordered()
    ensures
        u64_keys_ordered(),
{
    broadcast use {vstd::laws_cmp::group_laws_cmp, vstd::std_specs::btree::group_btree_axioms};
}

/// An ordered map hands its `u64` keys out in increasing order.
proof fn lemma_keys_increasing_u64<V>(m: &BTreeMap<u64, V>)
    ensures
        forall|i: int, j: int| 0 <= i < j < vstd::std_specs::btree::spec_keys_iter(m).remaining().len()
            ==> *vstd::std_specs::btree::spec_keys_iter(m).remaining()[i] < *vstd::std_specs::btree::spec_keys_iter(m).remaining()[j],
{
    broadcast use {vstd::laws_cmp::group_laws_cmp, vstd::std_specs::btree::group_btree_axioms};

    let rem = vstd::std_specs::btree::spec_keys_iter(m).remaining();
    assert(vstd::laws_cmp::obeys_cmp::<&u64>());
    assert(vstd::std_specs::btree::increasing_seq(rem));
    assert forall|i: int, j: int| 0 <= i < j < rem.len() implies *rem[i] < *rem[j] by {
        lemma_increasing_at(rem, i, j);
    }
}

/// Two positions of an increasing sequence compare as less.
proof fn lemma_increasing_at<K: Ord>(s: Seq<K>, i: int, j: int)
    requires
        vstd::laws_cmp::obeys_cmp::<K>(),
        vstd::std_specs::btree::increasing_seq(s),
        0 <= i < j < s.len(),
    ensures
        s[i].cmp_spec(&s[j]) is Less,
{
    vstd::std_specs::btree::axiom_increasing_seq_meaning(s);
}

/// The keys of an ordered map, once each, in increasing order.
pub fn map_keys_u64<V>(m: &BTreeMap<u64, V>) -> (r: Vec<u64>)
    ensures
        r@.to_set() == m@.dom(),
        r@.no_duplicates(),
        strictly_increasing_u64(r@),
{
    proof {
        lemma_u64_keys_ordered();
        broadcast use vstd::std_specs::btree::group_btree_axioms;
    }
    let mut out: Vec<u64> = Vec::new();
    for k in it: m.keys()
        invariant
            it.seq() == vstd::std_specs::btree::spec_keys_iter(m).remaining(),
            out@ == it.seq().subrange(0, it.index() as int).map_values(|x: &u64| *x),
    {
        out.push(*k);
        assert(out@ =~= it.seq().subrange(0, it.index() + 1).map_values(|x: &u64| *x));
    }
    proof {
        let rem = vstd::std_specs::btree::spec_keys_iter(m).remaining();
        assert(out@ =~= rem.unref());
        assert forall|i: int, j: int| 0 <= i < out@.len() && 0 <= j < out@.len() && i != j implies out@[i] != out@[j] by {
            assert(rem[i] != rem[j]);
        }
        lemma_keys_increasing_u64(m);
    }
    out
}

/// An ordered map hands its `u32` keys out in increasing order.
proof fn lemma_keys_increasing_u32<V>(m: &BTreeMap<u32, V>)
    ensures
        forall|i: int, j: int| 0 <= i < j < vstd::std_specs::btree::spec_keys_iter(m).remaining().len()
            ==> *vstd::std_specs::btree::spec_keys_iter(m).remaining()[i] < *vstd::std_specs::btree::spec_keys_iter(m).remaining()[j],
{
    broadcast use {vstd::laws_cmp::group_laws_cmp, vstd::std_specs::btree::group_btree_axioms};

    let rem = vstd::std_specs::btree::spec_keys_iter(m).remaining();
    assert(vstd::laws_cmp::obeys_cmp::<&u32>());
    assert(vstd::std_specs::btree::increasing_seq(rem));
    assert forall|i: int, j: int| 0 <= i < j < rem.len() implies *rem[i] < *rem[j] by {
        lemma_increasing_at(rem, i, j);
    }
}

/// The keys of an ordered map, once each, in increasing order.
pub fn map_keys_u32<V>(m: &BTreeMap<u32, V>) -> (r: Vec<u32>)
    ensures
        r@.to_set() == m@.dom(),
        r@.no_duplicates(),
        strictly_increasing(r@),
{
    proof {
        lemma_u32_keys_ordered();
        broadcast use vstd::std_specs::btree::group_btree_axioms;
    }
    let mut out: Vec<u32> = Vec::new();
    for k in it: m.keys()
        invariant
            it.seq() == vstd::std_specs::btree::spec_keys_iter(m).remaining(),
            out@ == it.seq().subrange(0, it.index() as int).map_values(|x: &u32| *x),
    {
        out.push(*k);
        assert(out@ =~= it.seq().subrange(0, it.index() + 1).map_values(|x: &u32| *x));
    }
    proof {
        let rem = vstd::std_specs::btree::spec_keys_iter(m).remaining();
        assert(out@ =~= rem.unref());
        assert forall|i: int, j: int| 0 <= i < out@.len() && 0 <= j < out@.len() && i != j implies out@[i] != out@[j] by {
            assert(rem[i] != rem[j]);
        }
        lemma_keys_increasing_u32(m);
    }
    out
}

/// The members of an ordered set, once each.
pub fn set_members_u32(s: &BTreeSet<u32>) -> (r: Vec<u32>)
    ensures
        r@.to_set() == s@,
        r@.no_duplicates(),
{
    proof {
        lemma_u32_keys_ordered();
        broadcast use vstd::std_specs::btree::group_btree_axioms;
    }
    let mut out: Vec<u32> = Vec::new();
    for k in it: s.iter()
        invariant
            it.seq() == vstd::std_specs::btree::spec_btree_keys_iter(s).remaining(),
            out@ == it.seq().subrange(0, it.index() as int).map_values(|x: &u32| *x),
    {
        out.push(*k);
        assert(out@ =~= it.seq().subrange(0, it.index() + 1).map_values(|x: &u32| *x));
    }
    proof {
        let rem = vstd::std_specs::btree::spec_btree_keys_iter(s).remaining();
        assert(out@ =~= rem.unref());
        assert forall|i: int, j: int| 0 <= i < out@.len() && 0 <= j < out@.len() && i != j implies out@[i] != out@[j] by {
            assert(rem[i] != rem[j]);
        }
    }
    out
}


/// Whether two ordered sets have the same members.
pub fn sets_equal_u32(a: &BTreeSet<u32>, b: &BTreeSet<u32>) -> (r: bool)
    ensures
        r == (a@ == b@),
{
    proof {
        lemma_u32_keys_ordered();
        broadcast use vstd::std_specs::btree::group_btree_axioms;
    }
    let ma = set_members_u32(a);
    let mb = set_members_u32(b);
    proof {
        broadcast use vstd::seq_lib::group_seq_lib_default;
        assert(a@.finite());
        assert(b@.finite());
    }
    if a.len() != b.len() {
        return false;
    }
    let mut i: usize = 0;
    while i < ma.len()
        invariant
            u32_keys_ordered(),
            ma@.to_set() == a@,
            0 <= i <= ma@.len(),
            forall|k: int| 0 <= k < i ==> b@.contains(#[trigger] ma@[k]),
        decreases ma@.len() - i,
    {
        if !b.contains(&ma[i]) {
            assert(a@.contains(ma@[i as int]));
            return false;
        }
        i = i + 1;
    }
    proof {
        assert forall|x: u32| a@.contains(x) implies b@.contains(x) by {
            let k = choose|k: int| 0 <= k < ma@.len() && ma@[k] == x;
        }
        vstd::set_lib::lemma_subset_equality(a@, b@);
    }
    true
}


/// Add every member of `src` to `dst`.
pub fn extend_u32(dst: &mut BTreeSet<u32>, src: &BTreeSet<u32>)
    ensures
        final(dst)@ == old(dst)@.union(src@),
{
    proof {
        lemma_u32_keys_ordered();
    }
    let members = set_members_u32(src);
    let mut i: usize = 0;
    while i < members.len()
        invariant
            u32_keys_ordered(),
            members@.to_set() == src@,
            0 <= i <= members@.len(),
            dst@ == old(dst)@.union(members@.subrange(0, i as int).to_set()),
        decreases members@.len() - i,
    {
        dst.insert(members[i]);
        proof {
            assert(members@.subrange(0, i + 1) =~= members@.subrange(0, i as int).push(members@[i as int]));
            members@.subrange(0, i as int).lemma_push_to_set_commute(members@[i as int]);
        }
        i = i + 1;
    }
    assert(members@.subrange(0, members@.len() as int) =~= members@);
}

} // verus!
