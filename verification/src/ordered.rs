//! Listing ordered maps.

use std::collections::BTreeMap;
use vstd::prelude::*;

verus! {

broadcast use vstd::std_specs::btree::group_btree_axioms;

/// Whether a list holds what a map holds, in the order of its keys.
pub open spec fn lists_map<V>(v: Seq<(u64, V)>, m: Map<u64, V>) -> bool {
    &&& forall|i: int, j: int| 0 <= i < j < v.len() ==> (#[trigger] v[i]).0 < (#[trigger] v[j]).0
    &&& forall|i: int|
        0 <= i < v.len() ==> m.dom().contains((#[trigger] v[i]).0) && m[v[i].0] == v[i].1
    &&& forall|k: u64| #[trigger]
        m.dom().contains(k) ==> exists|i: int| 0 <= i < v.len() && (#[trigger] v[i]).0 == k
}

/// What a map holds, in the order of its keys.
pub fn list_map<V: Copy>(m: &BTreeMap<u64, V>) -> (v: Vec<(u64, V)>)
    ensures
        lists_map(v@, m@),
{
    let mut v: Vec<(u64, V)> = Vec::new();
    let iter = m.iter();
    let ghost all = vstd::std_specs::iter::IteratorSpec::remaining(&iter);
    let ghost keys = all.map_values(|kv: (&u64, &V)| *kv.0);
    assert(vstd::std_specs::btree::increasing_seq(keys));
    assert forall|i: int, j: int|
        #![trigger keys[i], keys[j]]
        0 <= i < j < keys.len() implies keys[i] < keys[j] by {
        assert(vstd::std_specs::cmp::OrdSpec::cmp_spec(&keys[i], &keys[j]) is Less);
    }
    for x in it: iter
        invariant
            it.seq() == all,
            v@.len() == it.index(),
            forall|i: int|
                0 <= i < v@.len() ==> (#[trigger] v@[i]).0 == *all[i].0 && v@[i].1 == *all[i].1,
    {
        v.push((*x.0, *x.1));
    }
    proof {
        assert(v@.len() == all.len());
        assert forall|i: int, j: int| 0 <= i < j < v@.len() implies (#[trigger] v@[i]).0 < (
        #[trigger] v@[j]).0 by {
            assert(keys[i] == v@[i].0);
            assert(keys[j] == v@[j].0);
        }
        assert forall|i: int| 0 <= i < v@.len() implies m@.dom().contains((#[trigger] v@[i]).0)
            && m@[v@[i].0] == v@[i].1 by {
            assert(m@.contains_key(*all[i].0));
        }
        assert forall|k: u64| #[trigger] m@.dom().contains(k) implies exists|i: int|
            0 <= i < v@.len() && (#[trigger] v@[i]).0 == k by {
            assert(m@.contains_key(k));
            assert(all.contains((&k, &m@[k])));
            let i = choose|i: int| 0 <= i < all.len() && all[i] == (&k, &m@[k]);
            assert(v@[i].0 == k);
        }
    }
    v
}

/// The keys of a map.
pub fn list_keys<V>(m: &BTreeMap<u128, V>) -> (v: Vec<u128>)
    ensures
        forall|k: u128| #[trigger] m@.dom().contains(k) <==> v@.contains(k),
{
    let mut v: Vec<u128> = Vec::new();
    let iter = m.iter();
    let ghost all = vstd::std_specs::iter::IteratorSpec::remaining(&iter);
    for x in it: iter
        invariant
            it.seq() == all,
            v@.len() == it.index(),
            forall|i: int| 0 <= i < v@.len() ==> #[trigger] v@[i] == *all[i].0,
    {
        v.push(*x.0);
    }
    proof {
        assert(v@.len() == all.len());
        assert forall|k: u128| #[trigger] m@.dom().contains(k) <==> v@.contains(k) by {
            if m@.contains_key(k) {
                assert(all.contains((&k, &m@[k])));
                let i = choose|i: int| 0 <= i < all.len() && all[i] == (&k, &m@[k]);
                assert(v@[i] == k);
            }
            if v@.contains(k) {
                let i = choose|i: int| 0 <= i < v@.len() && v@[i] == k;
                assert(m@.contains_key(*all[i].0));
            }
        }
    }
    v
}

} // verus!
