//! Maps with numbers for keys.
use std::collections::{BTreeMap, HashMap};

use vstd::prelude::*;
use vstd::std_specs::cmp::OrdSpec;
use vstd::std_specs::btree::*;
use vstd::std_specs::iter::IteratorSpec;

verus! {

/// Takes the value of a key out of a map.
pub fn take<V>(m: &mut BTreeMap<u32, V>, k: u32) -> (r: Option<V>)
    ensures
        final(m)@ == old(m)@.remove(k),
        match r {
            Some(v) => old(m)@.contains_key(k) && old(m)@[k] == v,
            None => !old(m)@.contains_key(k),
        },
{
    broadcast use vstd::laws_cmp::group_laws_cmp;
    broadcast use vstd::std_specs::btree::group_btree_axioms;

    let r = m.remove(&k);
    assert(final(m)@ =~= old(m)@.remove(k));
    r
}

/// Puts a value under a key.
pub fn put<V>(m: &mut BTreeMap<u32, V>, k: u32, v: V)
    ensures
        final(m)@ == old(m)@.insert(k, v),
{
    broadcast use vstd::laws_cmp::group_laws_cmp;
    broadcast use vstd::std_specs::btree::group_btree_axioms;

    m.insert(k, v);
}

/// The value of a key.
pub fn get<V>(m: &BTreeMap<u32, V>, k: u32) -> (r: Option<&V>)
    ensures
        match r {
            Some(v) => m@.contains_key(k) && m@[k] == *v,
            None => !m@.contains_key(k),
        },
{
    broadcast use vstd::laws_cmp::group_laws_cmp;
    broadcast use vstd::std_specs::btree::group_btree_axioms;

    m.get(&k)
}

/// Whether numbers are in rising order.
pub open spec fn rising(s: Seq<u32>) -> bool {
    forall|i: int, j: int| 0 <= i < j < s.len() ==> s[i] < s[j]
}

/// The keys of a map, in order.
pub fn keys<V>(m: &BTreeMap<u32, V>) -> (r: Vec<u32>)
    ensures
        r@.to_set() == m@.dom(),
        rising(r@),
{
    broadcast use vstd::laws_cmp::group_laws_cmp;
    broadcast use vstd::std_specs::btree::group_btree_axioms;

    let mut r: Vec<u32> = Vec::new();
    let it = m.iter();
    let ghost pairs = it.remaining();
    let ghost all = pairs.map_values(|kv: (&u32, &V)| *kv.0);
    for kv in iter: it
        invariant
            iter.seq() == pairs,
            all == pairs.map_values(|kv: (&u32, &V)| *kv.0),
            r@ == all.take(iter.index()),
    {
        r.push(*kv.0);
    }
    proof {
        assert(r@ =~= all);
        assert forall|k: u32| r@.to_set().contains(k) <==> m@.dom().contains(k) by {
            if r@.to_set().contains(k) {
                let i = choose|i: int| 0 <= i < r@.len() && r@[i] == k;
                assert(m@.contains_key(*pairs[i].0));
            }
            if m@.dom().contains(k) {
                assert(m@.contains_key(k));
                assert(pairs.contains((&k, &m@[k])));
                let i = choose|i: int| 0 <= i < pairs.len() && pairs[i] == (&k, &m@[k]);
                assert(r@[i] == k);
            }
        }
        assert(r@.to_set() =~= m@.dom());
        assert forall|i: int, j: int| 0 <= i < j < r@.len() implies r@[i] < r@[j] by {
            assert(all[i].cmp_spec(&all[j]) is Less);
        }
    }
    r
}

/// Takes the value of a key out of a map.
pub fn hash_take<V>(m: &mut HashMap<u32, V>, k: u32) -> (r: Option<V>)
    ensures
        final(m)@ == old(m)@.remove(k),
        match r {
            Some(v) => old(m)@.contains_key(k) && old(m)@[k] == v,
            None => !old(m)@.contains_key(k),
        },
{
    broadcast use vstd::std_specs::hash::group_hash_axioms;

    let r = m.remove(&k);
    assert(final(m)@ =~= old(m)@.remove(k));
    r
}

/// Puts a value under a key.
pub fn hash_put<V>(m: &mut HashMap<u32, V>, k: u32, v: V)
    ensures
        final(m)@ == old(m)@.insert(k, v),
{
    broadcast use vstd::std_specs::hash::group_hash_axioms;

    m.insert(k, v);
}

} // verus!
