//! The mathematical model of the store: a table from keys to entries, and what
//! each operation makes of it at a given time. Times are nanoseconds.
use vstd::prelude::*;

verus! {

/// What is kept for a key: its value, the time from which on it is expired, if
/// it expires at all, and the time of its last use.
pub struct Entry {
    pub data: Seq<u8>,
    pub expires_at: Option<u128>,
    pub last_used: u128,
}

/// The contents of a store.
pub type Table = Map<Seq<u8>, Entry>;

/// A table without keys.
pub open spec fn empty_table() -> Table {
    Map::empty()
}

/// How many keys a table has, if they are finitely many.
pub open spec fn key_count(t: Table) -> Option<nat> {
    if t.dom().finite() {
        Some(t.dom().len())
    } else {
        None
    }
}

/// The time at which a key expires that is set at `now` for `ttl_secs` seconds:
/// the end of time, if it lies beyond.
pub open spec fn deadline(now: u128, ttl_secs: u64) -> u128 {
    let d = now + ttl_secs * 1_000_000_000;
    if d <= u128::MAX {
        d as u128
    } else {
        u128::MAX
    }
}

/// Is an entry expired at `now`?
pub open spec fn expired(e: Entry, now: u128) -> bool {
    e.expires_at matches Some(d) && now >= d
}

/// Does a key have a value at `now`?
pub open spec fn live(t: Table, key: Seq<u8>, now: u128) -> bool {
    t.contains_key(key) && !expired(t[key], now)
}

/// The value of a key at `now`, if it has one.
pub open spec fn value_at(t: Table, key: Seq<u8>, now: u128) -> Option<Seq<u8>> {
    if live(t, key, now) {
        Some(t[key].data)
    } else {
        None
    }
}

/// The entry that setting a value at `now` makes.
pub open spec fn fresh_entry(value: Seq<u8>, ttl_secs: Option<u64>, now: u128) -> Entry {
    Entry {
        data: value,
        expires_at: match ttl_secs {
            Some(s) => Some(deadline(now, s)),
            None => None,
        },
        last_used: now,
    }
}

/// The table after a key was set.
pub open spec fn after_set(
    t: Table,
    key: Seq<u8>,
    value: Seq<u8>,
    ttl_secs: Option<u64>,
    now: u128,
) -> Table {
    t.insert(key, fresh_entry(value, ttl_secs, now))
}

/// An entry that is used at `now`.
pub open spec fn touched(e: Entry, now: u128) -> Entry {
    Entry { data: e.data, expires_at: e.expires_at, last_used: now }
}

/// The table after a key was read: an expired key is gone, a live one was used.
pub open spec fn after_get(t: Table, key: Seq<u8>, now: u128) -> Table {
    if live(t, key, now) {
        t.insert(key, touched(t[key], now))
    } else {
        t.remove(key)
    }
}

/// The table after keys were deleted.
pub open spec fn after_del(t: Table, keys: Seq<Seq<u8>>) -> Table {
    t.remove_keys(keys.to_set())
}

/// How many keys a deletion removes: each that is in the table counts once,
/// expired or not.
pub open spec fn count_removed(t: Table, keys: Seq<Seq<u8>>) -> nat {
    keys.to_set().intersect(t.dom()).len()
}

/// How many of the keys are live, each as often as it is named.
pub open spec fn count_live(t: Table, keys: Seq<Seq<u8>>, now: u128) -> nat {
    keys.filter(|k: Seq<u8>| live(t, k, now)).len()
}

/// The table without what is expired at `now`.
pub open spec fn after_clean(t: Table, now: u128) -> Table {
    t.restrict(t.dom().filter(|k: Seq<u8>| !expired(t[k], now)))
}

/// The keys that are expired at `now`.
pub open spec fn expired_keys(t: Table, now: u128) -> Set<Seq<u8>> {
    t.dom().filter(|k: Seq<u8>| expired(t[k], now))
}

/// How many seconds are left at `now` until a deadline, a part of a second
/// counting as a whole one, and at most what 64 bits hold.
pub open spec fn seconds_left(d: u128, now: u128) -> u64 {
    let left = d - now;
    let secs = if left <= 0 {
        0
    } else {
        (left + 999_999_999) / 1_000_000_000
    };
    if secs <= u64::MAX {
        secs as u64
    } else {
        u64::MAX
    }
}

/// Is this what a snapshot at `now` holds of a key? Its value, and the seconds
/// left if it expires.
pub open spec fn snapshot_entry(
    e: (Seq<u8>, Seq<u8>, Option<u64>),
    t: Table,
    now: u128,
) -> bool {
    &&& live(t, e.0, now)
    &&& e.1 == t[e.0].data
    &&& e.2 == match t[e.0].expires_at {
        Some(d) => Some(seconds_left(d, now)),
        None => None::<u64>,
    }
}

/// Is this a snapshot of a table at `now`? It holds each live key once, and
/// nothing else, in no particular order.
pub open spec fn is_snapshot(
    entries: Seq<(Seq<u8>, Seq<u8>, Option<u64>)>,
    t: Table,
    now: u128,
) -> bool {
    &&& forall|i: int| 0 <= i < entries.len() ==> snapshot_entry(#[trigger] entries[i], t, now)
    &&& forall|i: int, j: int|
        0 <= i < j < entries.len() ==> #[trigger] entries[i].0 != #[trigger] entries[j].0
    &&& forall|k: Seq<u8>| #[trigger]
        live(t, k, now) ==> exists|i: int|
            0 <= i < entries.len() && #[trigger] entries[i].0 == k
}

/// How many bytes an entry and its key take.
pub open spec fn entry_size(key: Seq<u8>, e: Entry) -> nat {
    key.len() + e.data.len()
}

/// How many bytes all keys and values take together.
pub open spec fn used_bytes(t: Table) -> nat
    decreases t.dom().len(),
    when t.dom().finite()
{
    if t.dom().len() == 0 {
        0
    } else {
        let k = t.dom().choose();
        entry_size(k, t[k]) + used_bytes(t.remove(k))
    }
}

/// What deleting one more key does.
pub proof fn lemma_del_one(t: Table, keys: Seq<Seq<u8>>, i: int)
    requires
        0 <= i < keys.len(),
    ensures
        after_del(t, keys.take(i + 1)) == after_del(t, keys.take(i)).remove(keys[i]),
        count_removed(t, keys.take(i + 1)) == count_removed(t, keys.take(i)) + if after_del(
            t,
            keys.take(i),
        ).contains_key(keys[i]) {
            1nat
        } else {
            0
        },
{
    let a = keys.take(i);
    let b = keys.take(i + 1);
    assert(b =~= a.push(keys[i]));
    a.lemma_push_to_set_commute(keys[i]);
    assert(b.to_set() =~= a.to_set().insert(keys[i]));
    assert(after_del(t, b) =~= after_del(t, a).remove(keys[i]));
    vstd::seq_lib::seq_to_set_is_finite(a);
    let before = a.to_set().intersect(t.dom());
    if after_del(t, a).contains_key(keys[i]) {
        assert(b.to_set().intersect(t.dom()) =~= before.insert(keys[i]));
    } else {
        assert(b.to_set().intersect(t.dom()) =~= before);
    }
}

/// One entry less takes as many bytes less as the entry took.
pub proof fn lemma_used_remove(t: Table, key: Seq<u8>)
    requires
        t.dom().finite(),
        t.contains_key(key),
    ensures
        used_bytes(t) == entry_size(key, t[key]) + used_bytes(t.remove(key)),
    decreases t.dom().len(),
{
    let k = t.dom().choose();
    assert(t.dom().contains(key));
    if k != key {
        let r = t.remove(k);
        lemma_used_remove(r, key);
        lemma_used_remove(t.remove(key), k);
        assert(r.remove(key) =~= t.remove(key).remove(k));
    }
}

/// Is `key` the least recently used of a sample of keys? A sample is made of
/// five keys, or of all if there are fewer.
pub open spec fn oldest_of_sample(t: Table, key: Seq<u8>, sample: Set<Seq<u8>>) -> bool {
    &&& sample.subset_of(t.dom())
    &&& sample.finite()
    &&& sample.len() == if t.dom().len() < 5 {
        t.dom().len()
    } else {
        5
    }
    &&& sample.contains(key)
    &&& forall|k: Seq<u8>| #[trigger]
        sample.contains(k) ==> t[key].last_used <= t[k].last_used
}

/// May `keys` be evicted one after another from a table that may take `limit`
/// bytes? As long as it takes more, a key goes that is the least recently used
/// of a sample; and no key goes when it takes no more.
pub open spec fn evicted(t: Table, keys: Seq<Seq<u8>>, limit: nat) -> bool {
    &&& forall|i: int| 0 <= i < keys.len() ==> evicted_next(t, keys, limit, i)
    &&& used_bytes(after_del(t, keys)) <= limit
}

/// May the key at position `i` be evicted when those before it are gone?
pub open spec fn evicted_next(t: Table, keys: Seq<Seq<u8>>, limit: nat, i: int) -> bool {
    let here = after_del(t, keys.take(i));
    &&& used_bytes(here) > limit
    &&& here.contains_key(keys[i])
    &&& exists|sample: Set<Seq<u8>>| #[trigger] oldest_of_sample(here, keys[i], sample)
}

} // verus!
