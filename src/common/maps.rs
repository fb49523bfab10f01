use vstd::prelude::*;

use std::collections::{BTreeMap, BTreeSet};

verus! {

/// `k` is the least element of `keys`.
pub open spec fn is_least(k: u64, keys: Set<u64>) -> bool {
    &&& keys.contains(k)
    &&& forall|j: u64| keys.contains(j) ==> k <= j
}

/// `s` lists `keys` in strictly increasing order.
pub open spec fn lists_in_order(s: Seq<u64>, keys: Set<u64>) -> bool {
    &&& s.to_set() == keys
    &&& forall|i: int, j: int| 0 <= i < j < s.len() ==> s[i] < s[j]
}

/// Relies on BTreeMap::first_key_value: the entry with the least key, `None` when
/// the map is empty.
#[verifier::external_body]
pub fn first_key<V>(m: &BTreeMap<u64, V>) -> (r: Option<u64>)
    ensures
        r is None ==> m@.dom() == Set::<u64>::empty(),
        r matches Some(k) ==> is_least(k, m@.dom()),
{
    m.first_key_value().map(|(k, _)| *k)
}

/// Relies on BTreeSet::first: the least element, `None` when the set is empty.
#[verifier::external_body]
pub fn first_member(s: &BTreeSet<u64>) -> (r: Option<u64>)
    ensures
        r is None ==> s@ == Set::<u64>::empty(),
        r matches Some(k) ==> is_least(k, s@),
{
    s.first().copied()
}

/// Relies on BTreeMap::keys: the keys in increasing order.
#[verifier::external_body]
pub fn keys_in_order<V>(m: &BTreeMap<u64, V>) -> (r: Vec<u64>)
    ensures
        lists_in_order(r@, m@.dom()),
{
    m.keys().copied().collect()
}

/// Relies on BTreeSet::iter: the elements in increasing order.
#[verifier::external_body]
pub fn members_in_order(s: &BTreeSet<u64>) -> (r: Vec<u64>)
    ensures
        lists_in_order(r@, s@),
{
    s.iter().copied().collect()
}

/// Relies on BTreeMap::get_mut: a mutable borrow of the value under `k`, if any;
/// what is written through it is what the map then holds under `k`.
#[verifier::external_body]
pub fn value_mut<V>(m: &mut BTreeMap<u64, V>, k: u64) -> (r: Option<&mut V>)
    ensures
        match r {
            Some(v) => {
                &&& old(m)@.contains_key(k)
                &&& *v == old(m)@[k]
                &&& final(m)@ == old(m)@.insert(k, *final(v))
            },
            None => !old(m)@.contains_key(k) && *final(m) == *old(m),
        },
{
    m.get_mut(&k)
}

} // verus!
