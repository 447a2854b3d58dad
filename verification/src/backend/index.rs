//! The concurrent map that indexes registry slots by name.
//!
//! The registries keep their adapters in slots and find a slot by name
//! through a `DashMap` from names to slot numbers. The functions that call
//! into the `dashmap` crate are not proved: each states what the crate does,
//! over `index_entries`, the map from names to slot numbers that the
//! `DashMap` holds. Keys are told apart by their characters. The functions
//! that change the map take it by `&mut`, so that the entries before and
//! after a call are two values.

use dashmap::DashMap;
use vstd::prelude::*;

verus! {

/// `dashmap::DashMap`, of which nothing but the entries is looked at.
#[verifier::external_type_specification]
#[verifier::external_body]
#[verifier::reject_recursive_types(K)]
#[verifier::reject_recursive_types(V)]
#[verifier::reject_recursive_types(S)]
pub struct ExDashMap<K, V, S>(DashMap<K, V, S>);

/// The entries of a name index: what `DashMap::get` finds under each key.
pub uninterp spec fn index_entries(index: DashMap<String, usize>) -> Map<Seq<char>, usize>;

/// The map without entries.
pub open spec fn no_entries() -> Map<Seq<char>, usize> {
    Map::empty()
}

/// What `entries` holds under `key`, if anything.
pub open spec fn index_value(entries: Map<Seq<char>, usize>, key: Seq<char>) -> Option<usize> {
    if entries.contains_key(key) {
        Some(entries[key])
    } else {
        None
    }
}

/// `entries` without those whose value is `slot`.
pub open spec fn without_slot(entries: Map<Seq<char>, usize>, slot: usize) -> Map<
    Seq<char>,
    usize,
> {
    entries.remove_keys(Set::new(|k: Seq<char>| entries.contains_key(k) && entries[k] == slot))
}

/// Whether an entry with value `value` stays when those of `slot` are dropped.
pub fn keeps_entry(value: usize, slot: usize) -> (keep: bool)
    ensures
        keep == (value != slot),
{
    value != slot
}

/// `DashMap::new`: a map without entries.
#[verifier::external_body]
pub(crate) fn index_new() -> (index: DashMap<String, usize>)
    ensures
        index_entries(index) == no_entries(),
{
    DashMap::new()
}

/// `DashMap::insert`: afterwards `key` maps to `value` and every other key
/// maps as before; the result is the value that `key` mapped to before.
#[verifier::external_body]
pub(crate) fn index_insert(index: &mut DashMap<String, usize>, key: String, value: usize) -> (prior:
    Option<usize>)
    ensures
        index_entries(*final(index)) == index_entries(*old(index)).insert(key@, value),
        prior == index_value(index_entries(*old(index)), key@),
{
    index.insert(key, value)
}

/// `DashMap::remove`: afterwards `key` maps to nothing and every other key
/// maps as before; the result is the entry that was removed.
#[verifier::external_body]
pub(crate) fn index_remove(index: &mut DashMap<String, usize>, key: &str) -> (prior: Option<
    (String, usize),
>)
    ensures
        index_entries(*final(index)) == index_entries(*old(index)).remove(key@),
        prior is Some == index_entries(*old(index)).contains_key(key@),
        prior matches Some(entry) ==> entry.0@ == key@ && entry.1 == index_entries(*old(index))[key@],
{
    index.remove(key)
}

/// `DashMap::get`, with the value copied out of the guard.
#[verifier::external_body]
pub(crate) fn index_get(index: &DashMap<String, usize>, key: &str) -> (value: Option<usize>)
    ensures
        value == index_value(index_entries(*index), key@),
{
    index.get(key).map(|entry| *entry.value())
}

/// `DashMap::contains_key`.
#[verifier::external_body]
pub(crate) fn index_contains_key(index: &DashMap<String, usize>, key: &str) -> (found: bool)
    ensures
        found == index_entries(*index).contains_key(key@),
{
    index.contains_key(key)
}

/// `DashMap::len`: the number of entries, where they are finitely many.
#[verifier::external_body]
pub(crate) fn index_len(index: &DashMap<String, usize>) -> (n: usize)
    ensures
        index_entries(*index).dom().finite() ==> n == index_entries(*index).len(),
{
    index.len()
}

/// `DashMap::is_empty`: whether there is no entry.
#[verifier::external_body]
pub(crate) fn index_is_empty(index: &DashMap<String, usize>) -> (empty: bool)
    ensures
        empty == (index_entries(*index) == no_entries()),
{
    index.is_empty()
}

/// `DashMap::retain`, keeping the entries whose value is not `slot`.
#[verifier::external_body]
pub(crate) fn index_drop_slot(index: &mut DashMap<String, usize>, slot: usize)
    ensures
        index_entries(*final(index)) == without_slot(index_entries(*old(index)), slot),
{
    index.retain(|_, value| keeps_entry(*value, slot))
}

} // verus!
