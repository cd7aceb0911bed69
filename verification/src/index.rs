//! Lookup tables from a record id to the slot that holds the record.

use dashmap::DashMap;
use vstd::prelude::*;

verus! {

/// `dashmap::DashMap`: a concurrent hash map. What a map holds is stated by
/// the names below; nothing else is claimed of it.
#[verifier::external_type_specification]
#[verifier::external_body]
#[verifier::reject_recursive_types(K)]
#[verifier::reject_recursive_types(V)]
#[verifier::reject_recursive_types(S)]
pub struct ExDashMap<K, V, S>(DashMap<K, V, S>);

/// The entries that a slot table holds: each key with the slot stored under it.
pub uninterp spec fn slot_entries(table: DashMap<u64, usize>) -> Map<u64, usize>;

/// The table without entries.
pub open spec fn no_slots() -> Map<u64, usize> {
    Map::empty()
}

/// `DashMap::new`: a table without entries.
#[verifier::external_body]
pub(crate) fn slots_new() -> (table: DashMap<u64, usize>)
    ensures
        slot_entries(table) == no_slots(),
{
    DashMap::new()
}

/// `DashMap::insert`: stores `slot` under `key`, replacing what was there, and
/// returns the slot that was replaced.
#[verifier::external_body]
pub(crate) fn slots_insert(table: &mut DashMap<u64, usize>, key: u64, slot: usize) -> (prev: Option<usize>)
    ensures
        slot_entries(*final(table)) == slot_entries(*old(table)).insert(key, slot),
        prev == (if slot_entries(*old(table)).contains_key(key) {
            Some(slot_entries(*old(table))[key])
        } else {
            None
        }),
{
    table.insert(key, slot)
}

/// `DashMap::get`: the slot stored under `key`, if any.
#[verifier::external_body]
pub(crate) fn slots_get(table: &DashMap<u64, usize>, key: u64) -> (slot: Option<usize>)
    ensures
        slot == (if slot_entries(*table).contains_key(key) {
            Some(slot_entries(*table)[key])
        } else {
            None
        }),
{
    table.get(&key).map(|r| *r.value())
}

} // verus!

verus! {

/// The entries that a name table holds: each name with the number stored
/// under it.
pub uninterp spec fn name_entries(table: DashMap<String, u64>) -> Map<Seq<char>, u64>;

/// The name table without entries.
pub open spec fn no_names() -> Map<Seq<char>, u64> {
    Map::empty()
}

/// `DashMap::new`: a table without entries.
#[verifier::external_body]
pub(crate) fn names_new() -> (table: DashMap<String, u64>)
    ensures
        name_entries(table) == no_names(),
{
    DashMap::new()
}

/// `DashMap::insert`: stores `value` under `name`, replacing what was there,
/// and returns the number that was replaced.
#[verifier::external_body]
pub(crate) fn names_insert(table: &mut DashMap<String, u64>, name: String, value: u64) -> (prev:
    Option<u64>)
    ensures
        name_entries(*final(table)) == name_entries(*old(table)).insert(name@, value),
        prev == (if name_entries(*old(table)).contains_key(name@) {
            Some(name_entries(*old(table))[name@])
        } else {
            None
        }),
{
    table.insert(name, value)
}

/// `DashMap::get`: the number stored under `name`, if any.
#[verifier::external_body]
pub(crate) fn names_get(table: &DashMap<String, u64>, name: &str) -> (value: Option<u64>)
    ensures
        value == (if name_entries(*table).contains_key(name@) {
            Some(name_entries(*table)[name@])
        } else {
            None
        }),
{
    table.get(name).map(|r| *r.value())
}

} // verus!
