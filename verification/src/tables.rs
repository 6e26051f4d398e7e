//! Contracts for the hash maps of `ahash` and `dashmap` that the stores are
//! built on. Nothing in this file is proved: each contract restates what the
//! collection's own documentation promises of the call it names. A map is
//! known only by its entries; how it hashes and in which order it holds them
//! is not.

use ahash::AHashMap;
use dashmap::DashMap;
use vstd::prelude::*;

verus! {

/// The largest capacity that the stores ask a collection to reserve ahead of
/// time. Larger hints are cut down to it; the collections grow on demand. A
/// table of so many entries fits every address space, so that reserving it
/// does not overflow the arithmetic of the collections.
pub const MAX_RESERVED: usize = 0x10_0000;

/// The hasher state of `ahash`, which its maps carry. Nothing is known of it.
#[verifier::external_type_specification]
#[verifier::external_body]
pub struct ExAHashState(ahash::RandomState);

/// The hash map of `ahash`. What is known of a map is said by
/// [`map_entries`] and by the contracts below.
#[verifier::external_type_specification]
#[verifier::external_body]
#[verifier::reject_recursive_types(K)]
#[verifier::reject_recursive_types(V)]
#[verifier::reject_recursive_types(S)]
pub struct ExAHashMap<K, V, S>(ahash::AHashMap<K, V, S>);

/// The concurrent hash map of `dashmap`. What is known of a table is said
/// by [`table_entries`] and by the contracts below.
#[verifier::external_type_specification]
#[verifier::external_body]
#[verifier::reject_recursive_types(K)]
#[verifier::reject_recursive_types(V)]
#[verifier::reject_recursive_types(S)]
pub struct ExDashMap<K, V, S>(dashmap::DashMap<K, V, S>);

/// The entries that an `AHashMap` from integers to integers holds.
pub uninterp spec fn map_entries(map: AHashMap<usize, usize>) -> Map<usize, usize>;

/// The entries that a `DashMap` from pairs of integers to pairs of integers holds.
pub uninterp spec fn table_entries(table: DashMap<(usize, usize), (usize, usize)>) -> Map<
    (usize, usize),
    (usize, usize),
>;

/// `AHashMap::with_capacity`: a new map without entries. The capacity is
/// bounded because the call panics where the table asked for cannot be laid
/// out in memory.
#[verifier::external_body]
pub(crate) fn map_with_capacity(capacity: usize) -> (map: AHashMap<usize, usize>)
    requires
        capacity <= MAX_RESERVED,
    ensures
        map_entries(map) == (Map::<usize, usize>::empty()),
{
    AHashMap::with_capacity(capacity)
}

/// `HashMap::insert`, reached through `AHashMap`: afterwards `key` leads to
/// `value`, whether or not it led anywhere before; other entries stay.
#[verifier::external_body]
pub(crate) fn map_insert(map: &mut AHashMap<usize, usize>, key: usize, value: usize)
    ensures
        map_entries(*final(map)) == map_entries(*old(map)).insert(key, value),
{
    map.insert(key, value);
}

/// `HashMap::get`, reached through `AHashMap`: the value that `key` leads to, if any.
#[verifier::external_body]
pub(crate) fn map_get(map: &AHashMap<usize, usize>, key: usize) -> (found: Option<usize>)
    ensures
        found == if map_entries(*map).contains_key(key) {
            Some(map_entries(*map)[key])
        } else {
            None
        },
{
    map.get(&key).copied()
}

/// `HashMap::remove`, reached through `AHashMap`: afterwards `key` leads
/// nowhere; other entries stay.
#[verifier::external_body]
pub(crate) fn map_remove(map: &mut AHashMap<usize, usize>, key: usize)
    ensures
        map_entries(*final(map)) == map_entries(*old(map)).remove(key),
{
    map.remove(&key);
}

/// `DashMap::with_capacity`: a new table without entries. The capacity is
/// bounded because the call rounds it up to a multiple of the number of its
/// shards and panics where that, or the layout of a shard, overflows.
#[verifier::external_body]
pub(crate) fn table_with_capacity(capacity: usize) -> (table: DashMap<
    (usize, usize),
    (usize, usize),
>)
    requires
        capacity <= MAX_RESERVED,
    ensures
        table_entries(table) == (Map::<(usize, usize), (usize, usize)>::empty()),
{
    DashMap::with_capacity(capacity)
}

/// `DashMap::insert`: afterwards `key` leads to `value`, whether or not it led
/// anywhere before; other entries stay. The table is taken by unique reference,
/// so no other reference into it is held during the call.
#[verifier::external_body]
pub(crate) fn table_insert(
    table: &mut DashMap<(usize, usize), (usize, usize)>,
    key: (usize, usize),
    value: (usize, usize),
)
    ensures
        table_entries(*final(table)) == table_entries(*old(table)).insert(key, value),
{
    table.insert(key, value);
}

/// `DashMap::get`: a copy of the value that `key` leads to, if any.
#[verifier::external_body]
pub(crate) fn table_get(table: &DashMap<(usize, usize), (usize, usize)>, key: (usize, usize)) -> (found:
    Option<(usize, usize)>)
    ensures
        found == if table_entries(*table).contains_key(key) {
            Some(table_entries(*table)[key])
        } else {
            None
        },
{
    table.get(&key).map(|entry| *entry.value())
}

} // verus!
