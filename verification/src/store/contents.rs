//! What the operations of the store do to the entries of its table, key by key.
use crate::resp::model::Resp;
use crate::store;
use crate::store::dash;
use crate::store::dash::StoredValue;
use crate::store::model;
use crate::store::model::{Entry, Table};
use vstd::prelude::*;

verus! {

/// A new store has no keys; and of finitely many keys, all are counted.
pub proof fn law_keys(t: Table)
    ensures
        model::empty_table() == Map::<Seq<u8>, Entry>::empty(),
        t.dom().finite() ==> model::key_count(t) == Some(t.dom().len()),
        !t.dom().finite() ==> model::key_count(t) is None,
{
}

/// Lists stand for their items, in their order, and a stored value for what it
/// holds.
pub proof fn law_store_views(
    keys: Seq<&[u8]>,
    entries: Seq<(Vec<u8>, Vec<u8>, Option<u64>)>,
    found: Seq<(Vec<u8>, StoredValue)>,
    v: StoredValue,
    i: int,
)
    ensures
        dash::keys_of(found).len() == found.len(),
        0 <= i < found.len() ==> dash::keys_of(found)[i] == found[i].0@,
        store::key_views(keys).len() == keys.len(),
        0 <= i < keys.len() ==> store::key_views(keys)[i] == keys[i]@,
        store::entry_views(entries).len() == entries.len(),
        0 <= i < entries.len() ==> store::entry_views(entries)[i] == (
            entries[i].0@,
            entries[i].1@,
            entries[i].2,
        ),
        v@.data == v.data@,
        v@.expires_at == v.expires_at,
        v@.last_used == v.last_used,
        store::ok_reply() == Resp::SimpleString("OK"@),
{
}

/// A value can be read exactly if its key is in the table and the time at which it
/// expires, if it has one, has not come.
pub proof fn law_values(t: Table, key: Seq<u8>, now: u128)
    ensures
        model::value_at(t, key, now) == if t.contains_key(key) && (t[key].expires_at is None || now
            < t[key].expires_at->0) {
            Some(t[key].data)
        } else {
            None
        },
        model::live(t, key, now) == (model::value_at(t, key, now) is Some),
{
}

/// Setting a key makes one entry and leaves the others: it holds the value, was
/// used just now, and expires after the given time, if at all.
pub proof fn law_set_entry(
    t: Table,
    key: Seq<u8>,
    value: Seq<u8>,
    ttl_secs: Option<u64>,
    now: u128,
    other: Seq<u8>,
)
    ensures
        model::after_set(t, key, value, ttl_secs, now).contains_key(key),
        model::after_set(t, key, value, ttl_secs, now)[key].data == value,
        model::after_set(t, key, value, ttl_secs, now)[key].last_used == now,
        ttl_secs is None ==> model::after_set(t, key, value, ttl_secs, now)[key].expires_at is None,
        ttl_secs is Some ==> model::after_set(
            t,
            key,
            value,
            ttl_secs,
            now,
        )[key].expires_at is Some,
        ttl_secs is Some && now + ttl_secs->0 * 1_000_000_000 <= u128::MAX ==> model::after_set(
            t,
            key,
            value,
            ttl_secs,
            now,
        )[key].expires_at->0 - now == ttl_secs->0 * 1_000_000_000,
        ttl_secs is Some && now + ttl_secs->0 * 1_000_000_000 > u128::MAX ==> model::after_set(
            t,
            key,
            value,
            ttl_secs,
            now,
        )[key].expires_at->0 == u128::MAX,
        other != key ==> model::after_set(t, key, value, ttl_secs, now).contains_key(other)
            == t.contains_key(other),
        other != key && t.contains_key(other) ==> model::after_set(
            t,
            key,
            value,
            ttl_secs,
            now,
        )[other] == t[other],
{
}

/// A value that was set for some seconds can be read for as long as that, and no
/// longer; one that was set for good can always be read.
pub proof fn law_set_lasts(
    t: Table,
    key: Seq<u8>,
    value: Seq<u8>,
    ttl_secs: Option<u64>,
    now: u128,
    later: u128,
)
    requires
        now <= later,
    ensures
        ttl_secs is None ==> model::value_at(
            model::after_set(t, key, value, ttl_secs, now),
            key,
            later,
        ) == Some(value),
        ttl_secs is Some && later - now < ttl_secs->0 * 1_000_000_000 && later < u128::MAX
            ==> model::value_at(
            model::after_set(t, key, value, ttl_secs, now),
            key,
            later,
        ) == Some(value),
        ttl_secs is Some && later - now >= ttl_secs->0 * 1_000_000_000 ==> model::value_at(
            model::after_set(t, key, value, ttl_secs, now),
            key,
            later,
        ) is None,
{
}

/// Reading a key leaves all other entries as they are. An entry that can be read
/// stays, with its value and the time at which it expires, and was used just now;
/// one that cannot is gone.
pub proof fn law_get_entry(t: Table, key: Seq<u8>, now: u128, other: Seq<u8>)
    ensures
        model::after_get(t, key, now).contains_key(key) == (model::value_at(t, key, now) is Some),
        model::value_at(t, key, now) is Some ==> {
            let e = model::after_get(t, key, now)[key];
            &&& e.data == t[key].data
            &&& e.expires_at == t[key].expires_at
            &&& e.last_used == now
        },
        other != key ==> model::after_get(t, key, now).contains_key(other) == t.contains_key(other),
        other != key && t.contains_key(other) ==> model::after_get(t, key, now)[other] == t[other],
{
}

/// Deleting takes exactly the named keys out of the table, and counts by how many
/// keys it gets smaller.
pub proof fn law_del_entries(t: Table, keys: Seq<Seq<u8>>, key: Seq<u8>)
    ensures
        model::after_del(t, keys).contains_key(key) == (t.contains_key(key) && !keys.contains(key)),
        model::after_del(t, keys).contains_key(key) ==> model::after_del(t, keys)[key] == t[key],
        t.dom().finite() ==> model::after_del(t, keys).dom().finite() && model::count_removed(
            t,
            keys,
        ) == t.dom().len() - model::after_del(t, keys).dom().len(),
{
    crate::cmd::laws::lemma_del_size(keys, t);
}

/// How many keys exist: none of none, and one more for each key that can be read.
pub proof fn law_count_existing(t: Table, keys: Seq<Seq<u8>>, key: Seq<u8>, now: u128)
    ensures
        model::count_live(t, Seq::empty(), now) == 0,
        model::count_live(t, keys.push(key), now) == model::count_live(t, keys, now)
            + if model::value_at(t, key, now) is Some {
            1nat
        } else {
            0nat
        },
{
    reveal(Seq::filter);
    assert(keys.push(key).drop_last() =~= keys);
}

/// Cleaning takes exactly those keys out of the table that expire and whose time
/// has come, and counts by how many keys it gets smaller.
pub proof fn law_clean_entries(t: Table, now: u128, key: Seq<u8>)
    ensures
        model::after_clean(t, now).contains_key(key) == (t.contains_key(key) && (
        t[key].expires_at is None || now < t[key].expires_at->0)),
        model::after_clean(t, now).contains_key(key) ==> model::after_clean(t, now)[key] == t[key],
        t.dom().finite() ==> model::after_clean(t, now).dom().finite() && model::expired_keys(
            t,
            now,
        ).len() == t.dom().len() - model::after_clean(t, now).dom().len(),
{
    let kept = model::after_clean(t, now).dom();
    let gone = model::expired_keys(t, now);
    if t.dom().finite() {
        assert(kept.subset_of(t.dom()) && gone.subset_of(t.dom()));
        vstd::set_lib::lemma_set_subset_finite(t.dom(), gone);
        vstd::set_lib::lemma_set_subset_finite(t.dom(), kept);
        assert(kept.disjoint(gone));
        vstd::set_lib::lemma_set_disjoint_lens(kept, gone);
        assert(kept.union(gone) =~= t.dom());
    }
}

/// The seconds that are left are the least number of whole seconds that is not
/// less than the time that is left, as far as 64 bits hold it.
pub proof fn law_seconds(d: u128, now: u128)
    ensures
        d <= now ==> model::seconds_left(d, now) == 0,
        now < d && d - now <= u64::MAX * 1_000_000_000 ==> {
            &&& d - now <= model::seconds_left(d, now) * 1_000_000_000
            &&& d - now > (model::seconds_left(d, now) - 1) * 1_000_000_000
        },
        d - now > u64::MAX * 1_000_000_000 ==> model::seconds_left(d, now) == u64::MAX,
{
}

/// A snapshot holds each key that can be read, and no other, once and with its
/// value. It says in how many seconds a key expires, if it does.
pub proof fn law_snapshot_entries(
    entries: Seq<(Seq<u8>, Seq<u8>, Option<u64>)>,
    t: Table,
    now: u128,
    key: Seq<u8>,
    i: int,
    j: int,
)
    requires
        model::is_snapshot(entries, t, now),
        0 <= i < entries.len(),
        0 <= j < entries.len(),
    ensures
        model::value_at(t, key, now) is Some <==> (exists|n: int|
            0 <= n < entries.len() && #[trigger] entries[n].0 == key),
        model::value_at(t, entries[i].0, now) == Some(entries[i].1),
        entries[i].2 is None <==> t[entries[i].0].expires_at is None,
        entries[i].2 is Some ==> entries[i].2->0 == model::seconds_left(
            t[entries[i].0].expires_at->0,
            now,
        ),
        entries[i].0 == entries[j].0 ==> i == j,
{
    if model::value_at(t, key, now) is Some {
        assert(model::live(t, key, now));
    }
    assert forall|n: int| 0 <= n < entries.len() && #[trigger] entries[n].0 == key implies
        model::value_at(t, key, now) is Some by {
        assert(model::snapshot_entry(entries[n], t, now));
    }
    assert(model::snapshot_entry(entries[i], t, now));
    if i < j {
        assert(entries[i].0 != entries[j].0);
    }
    if j < i {
        assert(entries[j].0 != entries[i].0);
    }
}

/// Where no key can be read, a snapshot is empty, and where there is one, it is
/// not.
pub proof fn law_snapshot_of_nothing(
    entries: Seq<(Seq<u8>, Seq<u8>, Option<u64>)>,
    t: Table,
    now: u128,
    key: Seq<u8>,
)
    requires
        model::is_snapshot(entries, t, now),
    ensures
        model::value_at(t, key, now) is Some ==> entries.len() > 0,
        (forall|k: Seq<u8>| #[trigger] model::value_at(t, k, now) is None) ==> entries.len() == 0,
{
    if model::value_at(t, key, now) is Some {
        assert(model::live(t, key, now));
    }
    if entries.len() > 0 {
        assert(model::snapshot_entry(entries[0], t, now));
        assert(model::value_at(t, entries[0].0, now) is Some);
    }
}

/// An empty table takes no bytes, and one more entry as many more as its key and
/// its value have.
pub proof fn law_used_bytes(t: Table, key: Seq<u8>, e: Entry)
    requires
        t.dom().finite(),
        !t.contains_key(key),
    ensures
        model::used_bytes(Map::empty()) == 0,
        model::used_bytes(t.insert(key, e)) == model::used_bytes(t) + key.len() + e.data.len(),
{
    let more = t.insert(key, e);
    model::lemma_used_remove(more, key);
    assert(more.remove(key) =~= t);
}

/// An eviction takes keys out one after another, only while the limit is exceeded
/// and until it is not. Each time a key goes that is in the table and that was
/// used no later than any of the keys of some sample: of five keys, itself among
/// them, or of all if there are fewer.
pub proof fn law_eviction(t: Table, keys: Seq<Seq<u8>>, limit: nat, i: int)
    requires
        t.dom().finite(),
        model::evicted(t, keys, limit),
        0 <= i < keys.len(),
    ensures
        model::used_bytes(model::after_del(t, keys)) <= limit,
        model::used_bytes(model::after_del(t, keys.take(i))) > limit,
        t.contains_key(keys[i]),
        forall|j: int| 0 <= j < i ==> #[trigger] keys[j] != keys[i],
        exists|sample: Set<Seq<u8>>|
            {
                &&& #[trigger] sample.contains(keys[i])
                &&& sample.finite()
                &&& sample.subset_of(model::after_del(t, keys.take(i)).dom())
                &&& sample.len() == 5 || sample == model::after_del(t, keys.take(i)).dom()
                    && sample.len() < 5
                &&& forall|k: Seq<u8>|
                    sample.contains(k) ==> t[keys[i]].last_used <= (#[trigger] t[k]).last_used
            },
{
    let here = model::after_del(t, keys.take(i));
    assert(model::evicted_next(t, keys, limit, i));
    let sample = choose|sample: Set<Seq<u8>>| #[trigger]
        model::oldest_of_sample(here, keys[i], sample);
    assert(model::oldest_of_sample(here, keys[i], sample));
    assert forall|j: int| 0 <= j < i implies #[trigger] keys[j] != keys[i] by {
        assert(keys.take(i)[j] == keys[j]);
        assert(keys.take(i).to_set().contains(keys[j]));
    }
    assert forall|k: Seq<u8>| sample.contains(k) implies t[keys[i]].last_used <= (
    #[trigger] t[k]).last_used by {
        assert(here.dom().contains(k));
        assert(here[k] == t[k] && here[keys[i]] == t[keys[i]]);
    }
    crate::cmd::laws::lemma_del_size(keys.take(i), t);
    if here.dom().len() < 5 {
        vstd::set_lib::lemma_subset_equality(sample, here.dom());
    }
    assert(sample.contains(keys[i]));
}

} // verus!
