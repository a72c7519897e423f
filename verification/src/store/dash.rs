//! The concurrent map that holds the entries, and the operations of it that the
//! store uses. The map is owned by its store, so only what goes through a
//! mutable reference changes it.
use crate::store::model;
use crate::store::model::Entry;
use dashmap::DashMap;
use vstd::prelude::*;
use vstd::slice::*;

verus! {

/// A stored value: its bytes, the time at which it expires, and the time of its
/// last use, both in nanoseconds since the store was made.
#[derive(Debug)]
pub struct StoredValue {
    pub data: Vec<u8>,
    pub expires_at: Option<u128>,
    pub last_used: u128,
}

impl View for StoredValue {
    type V = Entry;

    open spec fn view(&self) -> Entry {
        Entry { data: self.data@, expires_at: self.expires_at, last_used: self.last_used }
    }
}

impl Clone for StoredValue {
    fn clone(&self) -> (r: Self)
        ensures
            r@ == self@,
    {
        StoredValue {
            data: slice_to_vec(self.data.as_slice()),
            expires_at: self.expires_at,
            last_used: self.last_used,
        }
    }
}

/// `dashmap::DashMap`, opaque here.
#[verifier::external_type_specification]
#[verifier::external_body]
#[verifier::reject_recursive_types(K)]
#[verifier::reject_recursive_types(V)]
#[verifier::reject_recursive_types(S)]
pub struct ExDashMap<K, V, S>(DashMap<K, V, S>);

/// What a map holds.
pub uninterp spec fn table(map: DashMap<Vec<u8>, StoredValue>) -> Map<Seq<u8>, Entry>;

/// Calls `DashMap::new`, which makes an empty map.
#[verifier::external_body]
pub(crate) fn map_new() -> (r: DashMap<Vec<u8>, StoredValue>)
    ensures
        table(r) == model::empty_table(),
{
    DashMap::new()
}

/// Calls `DashMap::insert`, which puts a value under a key and gives back the
/// value that was there, if there was one.
#[verifier::external_body]
pub(crate) fn map_insert(
    map: &mut DashMap<Vec<u8>, StoredValue>,
    key: Vec<u8>,
    value: StoredValue,
) -> (r: Option<StoredValue>)
    ensures
        table(*final(map)) == table(*old(map)).insert(key@, value@),
        match r {
            Some(v) => table(*old(map)).contains_key(key@) && v@ == table(*old(map))[key@],
            None => !table(*old(map)).contains_key(key@),
        },
{
    map.insert(key, value)
}

/// Calls `DashMap::get`, and copies the value that it finds under a key, if
/// there is one.
#[verifier::external_body]
pub(crate) fn map_get(map: &DashMap<Vec<u8>, StoredValue>, key: &[u8]) -> (r: Option<StoredValue>)
    ensures
        match r {
            Some(v) => table(*map).contains_key(key@) && v@ == table(*map)[key@],
            None => !table(*map).contains_key(key@),
        },
{
    match map.get(key) {
        Some(found) => Some(found.value().clone()),
        None => None,
    }
}

/// Calls `DashMap::remove`, which takes a key out of the map and gives back its
/// value, if there was one.
#[verifier::external_body]
pub(crate) fn map_remove(
    map: &mut DashMap<Vec<u8>, StoredValue>,
    key: &[u8],
) -> (r: Option<StoredValue>)
    ensures
        table(*final(map)) == table(*old(map)).remove(key@),
        match r {
            Some(v) => table(*old(map)).contains_key(key@) && v@ == table(*old(map))[key@],
            None => !table(*old(map)).contains_key(key@),
        },
{
    match map.remove(key) {
        Some((_, value)) => Some(value),
        None => None,
    }
}

/// Calls `DashMap::len`, the number of keys in the map, which are finitely many.
#[verifier::external_body]
pub(crate) fn map_len(map: &DashMap<Vec<u8>, StoredValue>) -> (r: usize)
    ensures
        model::key_count(table(*map)) == Some(r as nat),
{
    map.len()
}

/// The keys of a list of entries.
pub open spec fn keys_of(entries: Seq<(Vec<u8>, StoredValue)>) -> Seq<Seq<u8>> {
    entries.map_values(|e: (Vec<u8>, StoredValue)| e.0@)
}

/// Calls `DashMap::iter` and copies what it walks over: each key of the map
/// once, with its value, in no particular order.
#[verifier::external_body]
pub(crate) fn map_entries(map: &DashMap<Vec<u8>, StoredValue>) -> (r: Vec<(Vec<u8>, StoredValue)>)
    ensures
        keys_of(r@).no_duplicates(),
        keys_of(r@).to_set() == table(*map).dom(),
        forall|i: int| 0 <= i < r@.len() ==> (#[trigger] r@[i]).1@ == table(*map)[r@[i].0@],
{
    map.iter().map(|e| (e.key().clone(), e.value().clone())).collect()
}

} // verus!
