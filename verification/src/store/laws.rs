//! What holds of the store's operations together.
use crate::store::model;
use crate::store::model::{Entry, Table};
use vstd::prelude::*;

verus! {

/// A key that was set has its value until it expires, and none from then on. A
/// key without a time to live never expires.
pub proof fn law_set_get(
    t: Table,
    key: Seq<u8>,
    value: Seq<u8>,
    ttl_secs: Option<u64>,
    now: u128,
    later: u128,
)
    ensures
        model::value_at(model::after_set(t, key, value, ttl_secs, now), key, later) == match ttl_secs {
            None => Some(value),
            Some(s) => if later < model::deadline(now, s) {
                Some(value)
            } else {
                None
            },
        },
{
}

/// Setting a key leaves the value of every other key as it is.
pub proof fn law_set_frame(
    t: Table,
    key: Seq<u8>,
    value: Seq<u8>,
    ttl_secs: Option<u64>,
    now: u128,
    other: Seq<u8>,
    later: u128,
)
    requires
        other != key,
    ensures
        model::value_at(model::after_set(t, key, value, ttl_secs, now), other, later)
            == model::value_at(t, other, later),
{
}

/// Of two settings of a key the later one counts, whatever the earlier one was.
pub proof fn law_set_overwrites(
    t: Table,
    key: Seq<u8>,
    first: Seq<u8>,
    first_ttl: Option<u64>,
    second: Seq<u8>,
    second_ttl: Option<u64>,
    now: u128,
    later: u128,
)
    ensures
        model::after_set(
            model::after_set(t, key, first, first_ttl, now),
            key,
            second,
            second_ttl,
            later,
        ) == model::after_set(t, key, second, second_ttl, later),
{
    assert(model::after_set(
        model::after_set(t, key, first, first_ttl, now),
        key,
        second,
        second_ttl,
        later,
    ) =~= model::after_set(t, key, second, second_ttl, later));
}

/// A key that is set for no time at all has no value.
pub proof fn law_zero_ttl(t: Table, key: Seq<u8>, value: Seq<u8>, now: u128, later: u128)
    requires
        now <= later,
    ensures
        model::value_at(model::after_set(t, key, value, Some(0), now), key, later) is None,
{
}

/// A deleted key has no value.
pub proof fn law_del_get(t: Table, keys: Seq<Seq<u8>>, key: Seq<u8>, now: u128)
    requires
        keys.contains(key),
    ensures
        model::value_at(model::after_del(t, keys), key, now) is None,
{
    assert(keys.to_set().contains(key));
}

/// Deleting keys leaves the value of every other key as it is.
pub proof fn law_del_frame(t: Table, keys: Seq<Seq<u8>>, other: Seq<u8>, now: u128)
    requires
        !keys.contains(other),
    ensures
        model::value_at(model::after_del(t, keys), other, now) == model::value_at(t, other, now),
{
    assert(!keys.to_set().contains(other));
}

/// Deleting keys again removes nothing.
pub proof fn law_del_twice(t: Table, keys: Seq<Seq<u8>>)
    ensures
        model::after_del(model::after_del(t, keys), keys) == model::after_del(t, keys),
        model::count_removed(model::after_del(t, keys), keys) == 0,
{
    let once = model::after_del(t, keys);
    assert(model::after_del(once, keys) =~= once);
    assert(keys.to_set().intersect(once.dom()) =~= Set::empty());
}

/// What is expired stays expired.
pub proof fn law_expired_forever(e: Entry, now: u128, later: u128)
    requires
        model::expired(e, now),
        now <= later,
    ensures
        model::expired(e, later),
{
}

/// Reading a key changes no value that can be read from then on, neither its
/// own nor that of another key.
pub proof fn law_get_keeps_values(
    t: Table,
    key: Seq<u8>,
    now: u128,
    other: Seq<u8>,
    later: u128,
)
    requires
        now <= later,
    ensures
        model::value_at(model::after_get(t, key, now), other, later) == model::value_at(
            t,
            other,
            later,
        ),
{
}

/// Reading an expired key takes it out of the store: there is one key less.
pub proof fn law_get_removes_expired(t: Table, key: Seq<u8>, now: u128)
    requires
        t.dom().finite(),
        t.contains_key(key),
        model::expired(t[key], now),
    ensures
        !model::after_get(t, key, now).contains_key(key),
        model::after_get(t, key, now).dom().finite(),
        model::after_get(t, key, now).dom().len() == t.dom().len() - 1,
{
    assert(t.dom().contains(key));
}

/// Removing what is expired changes no value that can be read from then on, and
/// leaves nothing that is expired.
pub proof fn law_clean_keeps_values(t: Table, now: u128, key: Seq<u8>, later: u128)
    requires
        now <= later,
    ensures
        model::value_at(model::after_clean(t, now), key, later) == model::value_at(t, key, later),
        model::after_clean(t, now).contains_key(key) ==> !model::expired(
            model::after_clean(t, now)[key],
            now,
        ),
        model::expired_keys(model::after_clean(t, now), now) == Set::<Seq<u8>>::empty(),
{
    assert(model::expired_keys(model::after_clean(t, now), now) =~= Set::<Seq<u8>>::empty());
}

/// A key exists exactly if it can be read.
pub proof fn law_exists_iff_readable(t: Table, key: Seq<u8>, now: u128)
    ensures
        model::count_live(t, seq![key], now) == if model::value_at(t, key, now) is Some {
            1nat
        } else {
            0
        },
{
    reveal(Seq::filter);
    assert(seq![key].drop_last() =~= Seq::<Seq<u8>>::empty());
    assert(seq![key].last() == key);
    assert(seq![key].drop_last().filter(|k: Seq<u8>| model::live(t, k, now)).len() == 0);
}

/// Counting the existing keys of two lists counts those of both, so a key counts
/// as often as it is named.
pub proof fn law_exists_adds_up(t: Table, a: Seq<Seq<u8>>, b: Seq<Seq<u8>>, now: u128)
    ensures
        model::count_live(t, a + b, now) == model::count_live(t, a, now) + model::count_live(
            t,
            b,
            now,
        ),
{
    Seq::filter_distributes_over_add(a, b, |k: Seq<u8>| model::live(t, k, now));
}

/// The seconds that a snapshot gives a key are enough for it to live as long
/// again as it would have, and less than a second longer.
pub proof fn law_seconds_left(d: u128, now: u128, loaded: u128)
    requires
        now < d,
        d - now <= u64::MAX * 1_000_000_000,
        loaded + (d - now) + 1_000_000_000 <= u128::MAX,
    ensures
        d - now <= model::deadline(loaded, model::seconds_left(d, now)) - loaded < d - now
            + 1_000_000_000,
{
}

/// Keys that an eviction leaves keep their entries, and what is left takes no
/// more than the limit.
pub proof fn law_evict(t: Table, keys: Seq<Seq<u8>>, limit: nat, other: Seq<u8>)
    requires
        model::evicted(t, keys, limit),
    ensures
        model::used_bytes(model::after_del(t, keys)) <= limit,
        t.contains_key(other) && !keys.contains(other) ==> model::after_del(t, keys).contains_key(
            other,
        ) && model::after_del(t, keys)[other] == t[other],
        model::used_bytes(t) <= limit ==> keys.len() == 0,
{
    if keys.len() > 0 {
        assert(model::evicted_next(t, keys, limit, 0));
        assert(keys.take(0) =~= Seq::<Seq<u8>>::empty());
        assert(model::after_del(t, keys.take(0)) =~= t);
    }
    if !keys.contains(other) {
        assert(!keys.to_set().contains(other));
    }
}

} // verus!
