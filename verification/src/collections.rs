//! The hashed collections of `rustc_hash` that the type model keeps its
//! literal sets and symbol-keyed maps in.
use vstd::prelude::*;
use rustc_hash::{FxBuildHasher, FxHashMap, FxHashSet};

verus! {

/// `rustc_hash::FxBuildHasher`, the hasher builder behind `FxHashSet` and
/// `FxHashMap`; opaque to the proofs.
#[verifier::external_type_specification]
#[verifier::external_body]
pub struct ExFxBuildHasher(FxBuildHasher);

/// Calls `HashSet::insert` on an `FxHashSet<u64>`. Claimed, as std documents
/// it: the set afterwards holds exactly the old items and `k`, and the result
/// tells whether `k` was absent before.
#[verifier::external_body]
pub(crate) fn fx_set_insert(s: &mut FxHashSet<u64>, k: u64) -> (newly: bool)
    ensures
        final(s)@ == old(s)@.insert(k),
        newly == !old(s)@.contains(k),
{
    s.insert(k)
}

/// Calls `HashSet::iter` on an `FxHashSet<u64>` and collects the items.
/// Claimed, as std documents iteration: every item is visited exactly once.
/// The order is the hasher's and is left unsaid.
#[verifier::external_body]
pub(crate) fn fx_set_items(s: &FxHashSet<u64>) -> (items: Vec<u64>)
    ensures
        items@.no_duplicates(),
        items@.to_set() == s@,
{
    s.iter().copied().collect()
}

/// Calls `HashMap::insert` on an `FxHashMap<u64, V>`. Claimed, as std
/// documents it: the map afterwards maps `k` to `v` and is otherwise unchanged.
#[verifier::external_body]
pub(crate) fn fx_map_insert<V>(m: &mut FxHashMap<u64, V>, k: u64, v: V)
    ensures
        final(m)@ == old(m)@.insert(k, v),
{
    m.insert(k, v);
}

/// Calls `HashMap::get` on an `FxHashMap<u64, V>` and copies the value out.
/// Claimed, as std documents it: the value stored under `k`, if any.
#[verifier::external_body]
pub(crate) fn fx_map_get<V: Copy>(m: &FxHashMap<u64, V>, k: u64) -> (r: Option<V>)
    ensures
        r == (if m@.dom().contains(k) { Some(m@[k]) } else { None::<V> }),
{
    m.get(&k).copied()
}

/// Calls `Extend::extend` of an `FxHashMap<u64, V>` with the entries of another
/// map. Claimed, as std documents it: every entry of `other` is inserted, so
/// entries of `other` win over those already present.
#[verifier::external_body]
pub(crate) fn fx_map_extend<V: Copy>(m: &mut FxHashMap<u64, V>, other: &FxHashMap<u64, V>)
    ensures
        final(m)@ == old(m)@.union_prefer_right(other@),
{
    m.extend(other.iter().map(|(k, v)| (*k, *v)));
}

/// Calls `HashMap::iter` on an `FxHashMap<u64, V>` and collects the entries.
/// Claimed, as std documents iteration: every entry is visited exactly once.
/// The order is the hasher's and is left unsaid.
#[verifier::external_body]
pub(crate) fn fx_map_entries<V: Copy>(m: &FxHashMap<u64, V>) -> (entries: Vec<(u64, V)>)
    ensures
        entries@.map_values(|e: (u64, V)| e.0).no_duplicates(),
        forall|i: int| 0 <= i < entries.len() ==> m@.dom().contains(#[trigger] entries@[i].0)
            && m@[entries@[i].0] == entries@[i].1,
        forall|k: u64| m@.dom().contains(k) ==> exists|i: int| 0 <= i < entries.len() && #[trigger] entries@[i].0 == k,
{
    m.iter().map(|(k, v)| (*k, *v)).collect()
}

/// Calls `HashMap::remove` on an `FxHashMap<u64, V>`. Claimed, as std
/// documents it: the entry under `k` is gone afterwards, and its value is
/// returned if there was one.
#[verifier::external_body]
pub(crate) fn fx_map_remove<V>(m: &mut FxHashMap<u64, V>, k: u64) -> (r: Option<V>)
    ensures
        final(m)@ == old(m)@.remove(k),
        r == (if old(m)@.dom().contains(k) { Some(old(m)@[k]) } else { None::<V> }),
{
    m.remove(&k)
}

/// Calls `IntoIterator::into_iter` on an `FxHashMap<u64, V>` and collects
/// the entries. Claimed, as std documents iteration: every entry is
/// yielded exactly once. The order is the hasher's and is left unsaid.
#[verifier::external_body]
pub(crate) fn fx_map_into_entries<V>(m: FxHashMap<u64, V>) -> (entries: Vec<(u64, V)>)
    ensures
        entries@.map_values(|e: (u64, V)| e.0).no_duplicates(),
        entries@.map_values(|e: (u64, V)| e.0).to_set() == m@.dom(),
        forall|i: int| 0 <= i < entries.len() ==> m@[#[trigger] entries@[i].0] == entries@[i].1,
{
    m.into_iter().collect()
}

} // verus!
