//! The in-memory key-value store: values with an optional time to live, removal
//! of what is expired, and eviction of what was not used for long.
use crate::resp;
use crate::resp::model::Resp;
use crate::resp::parser::RespValue;
use crate::store::dash::StoredValue;
use crate::store::model::Table;
use dashmap::DashMap;
use std::time::Instant;
use vstd::prelude::*;
use vstd::slice::*;
use vstd::string::*;
use vstd::utf8::*;

pub mod clock;
pub mod contents;
pub mod dash;
pub mod evict;
pub mod laws;
pub mod model;

verus! {

/// How large a store may grow.
#[derive(Debug, Clone, Copy)]
pub struct StoreConfig {
    /// How many mebibytes all keys and values may take together.
    pub max_memory_mb: u64,
}

/// An in-memory key-value store.
///
/// Its operations come in two forms: one that reads the clock, and one that is
/// told the time, in nanoseconds since the store was made.
#[derive(Debug)]
pub struct Store {
    inner: DashMap<Vec<u8>, StoredValue>,
    start: Instant,
    max_bytes: Option<u128>,
}

impl View for Store {
    type V = Table;

    closed spec fn view(&self) -> Table {
        dash::table(self.inner)
    }
}

/// The byte strings that a list of slices stands for.
pub open spec fn key_views(keys: Seq<&[u8]>) -> Seq<Seq<u8>> {
    keys.map_values(|k: &[u8]| k@)
}

/// The reply `OK`.
pub open spec fn ok_reply() -> Resp {
    Resp::SimpleString("OK"@)
}

/// The reply of a count.
fn count_reply(n: usize) -> (r: Vec<u8>)
    ensures
        r@ == resp::model::encoded(Resp::Integer(n as int)),
{
    resp::parser::encode_count(n as u64)
}

/// The time at which a key expires.
fn deadline_of(now: u128, ttl_secs: u64) -> (r: u128)
    ensures
        r == model::deadline(now, ttl_secs),
{
    let span: u128 = ttl_secs as u128 * 1_000_000_000;
    if span <= u128::MAX - now {
        now + span
    } else {
        u128::MAX
    }
}

/// Is a stored value expired?
fn is_expired(v: &StoredValue, now: u128) -> (r: bool)
    ensures
        r == model::expired(v@, now),
{
    match v.expires_at {
        Some(d) => now >= d,
        None => false,
    }
}

impl Store {
    /// How many bytes all keys and values may take together; `None` if there is
    /// no limit.
    pub closed spec fn limit(&self) -> Option<nat> {
        match self.max_bytes {
            Some(n) => Some(n as nat),
            None => None,
        }
    }

    /// The time from which the store counts: that at which it was made.
    pub closed spec fn origin(&self) -> Instant {
        self.start
    }

    /// An empty store without a limit.
    pub fn new() -> (r: Self)
        ensures
            r@ == model::empty_table(),
            r.limit() is None,
    {
        Store { inner: dash::map_new(), start: clock::clock_start(), max_bytes: None }
    }

    /// An empty store with the limit that is configured.
    pub fn with_config(config: StoreConfig) -> (r: Self)
        ensures
            r@ == model::empty_table(),
            r.limit() == Some((config.max_memory_mb * 1_048_576) as nat),
    {
        let bytes: u128 = config.max_memory_mb as u128 * 1_048_576;
        Store { inner: dash::map_new(), start: clock::clock_start(), max_bytes: Some(bytes) }
    }

    /// The time now, in nanoseconds since the store was made, as the clock says.
    pub(crate) fn now(&self) -> (r: u128)
        ensures
            clock::is_reading(self.origin(), r),
    {
        clock::read_clock(&self.start)
    }

    /// Always `+PONG`.
    pub fn ping(&self) -> (r: &'static [u8])
        ensures
            r@ == resp::model::encoded(Resp::SimpleString("PONG"@)),
    {
        let text: &'static str = "+PONG\r\n";
        proof {
            reveal_strlit("+PONG\r\n");
            reveal_strlit("PONG");
            is_ascii_chars_encode_utf8("PONG"@);
            is_ascii_chars_encode_utf8("+PONG\r\n"@);
            assert(encode_utf8("+PONG\r\n"@) =~= resp::model::encoded(
                Resp::SimpleString("PONG"@),
            ));
        }
        text.as_bytes()
    }

    /// The message as a bulk string.
    pub fn echo(&self, msg: &[u8]) -> (r: Vec<u8>)
        ensures
            r@ == resp::model::encoded(Resp::BulkString(Some(msg@))),
    {
        RespValue::BulkString(Some(slice_to_vec(msg))).encode()
    }

    /// Puts `value` under `key` at the time `now`. With a `ttl_secs`, the key
    /// expires after so many seconds. The reply is `+OK`.
    pub fn set_at(
        &mut self,
        key: &[u8],
        value: &[u8],
        ttl_secs: Option<u64>,
        now: u128,
    ) -> (r: Vec<u8>)
        ensures
            final(self)@ == model::after_set(old(self)@, key@, value@, ttl_secs, now),
            final(self).limit() == old(self).limit(),
            final(self).origin() == old(self).origin(),
            r@ == resp::model::encoded(ok_reply()),
    {
        let expires_at: Option<u128> = match ttl_secs {
            Some(s) => Some(deadline_of(now, s)),
            None => None,
        };
        let stored: StoredValue = StoredValue {
            data: slice_to_vec(value),
            expires_at,
            last_used: now,
        };
        dash::map_insert(&mut self.inner, slice_to_vec(key), stored);
        RespValue::SimpleString(String::from_str("OK")).encode()
    }

    /// Puts `value` under `key`. With a `ttl_secs`, the key expires after so
    /// many seconds. The reply is `+OK`.
    pub fn set(&mut self, key: &[u8], value: &[u8], ttl_secs: Option<u64>) -> (r: Vec<u8>)
        ensures
            exists|now: u128|
                clock::is_reading(old(self).origin(), now) && final(self)@
                    == #[trigger] model::after_set(old(self)@, key@, value@, ttl_secs, now),
            final(self).limit() == old(self).limit(),
            final(self).origin() == old(self).origin(),
            r@ == resp::model::encoded(ok_reply()),
    {
        let now: u128 = self.now();
        self.set_at(key, value, ttl_secs, now)
    }

    /// The value of `key` at the time `now` as a bulk string, or the null bulk
    /// string if it has none. An expired key is removed on the way.
    pub fn get_at(&mut self, key: &[u8], now: u128) -> (r: Vec<u8>)
        ensures
            final(self)@ == model::after_get(old(self)@, key@, now),
            final(self).limit() == old(self).limit(),
            final(self).origin() == old(self).origin(),
            r@ == resp::model::encoded(
                Resp::BulkString(model::value_at(old(self)@, key@, now)),
            ),
    {
        match dash::map_get(&self.inner, key) {
            None => {
                assert(old(self)@.remove(key@) =~= old(self)@);
                RespValue::BulkString(None).encode()
            },
            Some(v) => {
                if is_expired(&v, now) {
                    dash::map_remove(&mut self.inner, key);
                    return RespValue::BulkString(None).encode();
                }
                let data: Vec<u8> = slice_to_vec(v.data.as_slice());
                let used: StoredValue = StoredValue {
                    data: v.data,
                    expires_at: v.expires_at,
                    last_used: now,
                };
                dash::map_insert(&mut self.inner, slice_to_vec(key), used);
                RespValue::BulkString(Some(data)).encode()
            },
        }
    }

    /// The value of `key` as a bulk string, or the null bulk string if it has
    /// none. An expired key is removed on the way.
    pub fn get(&mut self, key: &[u8]) -> (r: Vec<u8>)
        ensures
            exists|now: u128|
                {
                    &&& clock::is_reading(old(self).origin(), now)
                    &&& final(self)@ == #[trigger] model::after_get(old(self)@, key@, now)
                    &&& r@ == resp::model::encoded(
                        Resp::BulkString(model::value_at(old(self)@, key@, now)),
                    )
                },
            final(self).limit() == old(self).limit(),
            final(self).origin() == old(self).origin(),
    {
        let now: u128 = self.now();
        self.get_at(key, now)
    }

    /// Removes keys. The reply is the number of keys that were there.
    pub fn del(&mut self, keys: &[&[u8]]) -> (r: Vec<u8>)
        ensures
            final(self)@ == model::after_del(old(self)@, key_views(keys@)),
            final(self).limit() == old(self).limit(),
            final(self).origin() == old(self).origin(),
            r@ == resp::model::encoded(
                Resp::Integer(model::count_removed(old(self)@, key_views(keys@)) as int),
            ),
    {
        let ghost all = key_views(keys@);
        let ghost t = self@;
        let mut count: usize = 0;
        let mut i: usize = 0;
        proof {
            assert(all.take(0) =~= Seq::<Seq<u8>>::empty());
            assert(model::after_del(t, all.take(0)) =~= t);
            assert(all.take(0).to_set().intersect(t.dom()) =~= Set::<Seq<u8>>::empty());
        }
        while i < keys.len()
            invariant
                i <= keys@.len(),
                count <= i,
                all == key_views(keys@),
                t == old(self)@,
                self.limit() == old(self).limit(),
                self.origin() == old(self).origin(),
                self@ == model::after_del(t, all.take(i as int)),
                count == model::count_removed(t, all.take(i as int)),
            decreases keys@.len() - i,
        {
            proof {
                model::lemma_del_one(t, all, i as int);
            }
            if dash::map_remove(&mut self.inner, keys[i]).is_some() {
                count = count + 1;
            }
            i = i + 1;
        }
        assert(all.take(keys@.len() as int) =~= all);
        count_reply(count)
    }

    /// How many of the keys have a value at the time `now`.
    pub fn count_existing_at(&self, keys: &[&[u8]], now: u128) -> (r: Vec<u8>)
        ensures
            r@ == resp::model::encoded(
                Resp::Integer(model::count_live(self@, key_views(keys@), now) as int),
            ),
    {
        let ghost all = key_views(keys@);
        let mut count: usize = 0;
        let mut i: usize = 0;
        proof {
            assert(all.take(0) =~= Seq::<Seq<u8>>::empty());
            reveal(Seq::filter);
        }
        while i < keys.len()
            invariant
                i <= keys@.len(),
                count <= i,
                all == key_views(keys@),
                count == model::count_live(self@, all.take(i as int), now),
            decreases keys@.len() - i,
        {
            proof {
                reveal(Seq::filter);
                assert(all.take(i as int + 1).drop_last() =~= all.take(i as int));
                assert(all.take(i as int + 1).last() == keys@[i as int]@);
            }
            if let Some(v) = dash::map_get(&self.inner, keys[i]) {
                if !is_expired(&v, now) {
                    count = count + 1;
                }
            }
            i = i + 1;
        }
        assert(all.take(keys@.len() as int) =~= all);
        count_reply(count)
    }

    /// How many of the keys have a value. A key counts as often as it is named.
    pub fn count_existing(&self, keys: &[&[u8]]) -> (r: Vec<u8>)
        ensures
            exists|now: u128|
                clock::is_reading(self.origin(), now) && r@ == resp::model::encoded(
                    Resp::Integer(
                        #[trigger] model::count_live(self@, key_views(keys@), now) as int,
                    ),
                ),
    {
        let now: u128 = self.now();
        self.count_existing_at(keys, now)
    }

    /// How many keys the store holds, the expired ones included.
    pub fn len(&self) -> (r: usize)
        ensures
            self@.dom().finite(),
            r == self@.dom().len(),
    {
        dash::map_len(&self.inner)
    }
}

/// The entries of a snapshot: key, value and seconds left.
pub open spec fn entry_views(entries: Seq<(Vec<u8>, Vec<u8>, Option<u64>)>) -> Seq<
    (Seq<u8>, Seq<u8>, Option<u64>),
> {
    entries.map_values(|e: (Vec<u8>, Vec<u8>, Option<u64>)| (e.0@, e.1@, e.2))
}

/// How many seconds are left until a deadline.
fn seconds_until(d: u128, now: u128) -> (r: u64)
    ensures
        r == model::seconds_left(d, now),
{
    if d <= now {
        return 0;
    }
    let left: u128 = d - now;
    let whole: u128 = left / 1_000_000_000;
    let secs: u128 = if left % 1_000_000_000 == 0 {
        whole
    } else {
        whole + 1
    };
    assert(secs == (left + 999_999_999) / 1_000_000_000);
    if secs <= u64::MAX as u128 {
        secs as u64
    } else {
        u64::MAX
    }
}

impl Store {
    /// Removes all keys that are expired at the time `now`, and gives their
    /// number.
    pub fn clean_expired_at(&mut self, now: u128) -> (r: usize)
        ensures
            final(self)@ == model::after_clean(old(self)@, now),
            final(self).limit() == old(self).limit(),
            final(self).origin() == old(self).origin(),
            r == model::expired_keys(old(self)@, now).len(),
    {
        let ghost t = self@;
        let entries: Vec<(Vec<u8>, StoredValue)> = dash::map_entries(&self.inner);
        let ghost ks = dash::keys_of(entries@);
        let mut count: usize = 0;
        let mut i: usize = 0;
        let ghost mut gone: Set<Seq<u8>> = Set::empty();
        proof {
            assert(t.remove_keys(gone) =~= t);
        }
        while i < entries.len()
            invariant
                i <= entries@.len(),
                count <= i,
                ks == dash::keys_of(entries@),
                ks.no_duplicates(),
                ks.to_set() == t.dom(),
                forall|j: int|
                    0 <= j < entries@.len() ==> (#[trigger] entries@[j]).1@ == t[entries@[j].0@],
                t == old(self)@,
                self.limit() == old(self).limit(),
                self.origin() == old(self).origin(),
                self@ == t.remove_keys(gone),
                gone.finite(),
                count == gone.len(),
                forall|k: Seq<u8>| #[trigger]
                    gone.contains(k) <==> (exists|j: int|
                        0 <= j < i && ks[j] == k && model::expired(t[k], now)),
            decreases entries@.len() - i,
        {
            let ghost key = ks[i as int];
            let ghost before = gone;
            assert(key == entries@[i as int].0@);
            assert(ks.to_set().contains(key));
            if is_expired(&entries[i].1, now) {
                dash::map_remove(&mut self.inner, entries[i].0.as_slice());
                count = count + 1;
                proof {
                    if gone.contains(key) {
                        let j = choose|j: int| 0 <= j < i && ks[j] == key;
                        assert(ks[j] != ks[i as int]);
                    }
                    gone = gone.insert(key);
                    assert(self@ =~= t.remove_keys(gone));
                }
            }
            proof {
                assert forall|k: Seq<u8>| #[trigger] gone.contains(k) implies (exists|j: int|
                    0 <= j < i + 1 && ks[j] == k && model::expired(t[k], now)) by {
                    if before.contains(k) {
                        let j = choose|j: int|
                            0 <= j < i && ks[j] == k && model::expired(t[k], now);
                        assert(0 <= j < i + 1 && ks[j] == k);
                    } else {
                        assert(ks[i as int] == k);
                    }
                }
                assert forall|k: Seq<u8>|
                    (exists|j: int| 0 <= j < i + 1 && ks[j] == k && model::expired(t[k], now))
                    implies #[trigger] gone.contains(k) by {
                    let j = choose|j: int|
                        0 <= j < i + 1 && ks[j] == k && model::expired(t[k], now);
                    if j < i {
                        assert(before.contains(k));
                    }
                }
            }
            i = i + 1;
        }
        proof {
            assert forall|k: Seq<u8>| gone.contains(k) <==> model::expired_keys(t, now).contains(
                k,
            ) by {
                if model::expired_keys(t, now).contains(k) {
                    assert(ks.to_set().contains(k));
                    let j = choose|j: int| 0 <= j < ks.len() && ks[j] == k;
                    assert(0 <= j < entries@.len() && ks[j] == k);
                }
                if gone.contains(k) {
                    let j = choose|j: int|
                        0 <= j < entries@.len() && ks[j] == k && model::expired(t[k], now);
                    assert(ks.to_set().contains(ks[j]));
                }
            }
            assert(gone =~= model::expired_keys(t, now));
            assert(t.remove_keys(gone) =~= model::after_clean(t, now));
        }
        count
    }

    /// Removes all keys that are expired, and gives their number.
    pub fn clean_expired(&mut self) -> (r: usize)
        ensures
            exists|now: u128|
                {
                    &&& clock::is_reading(old(self).origin(), now)
                    &&& final(self)@ == #[trigger] model::after_clean(old(self)@, now)
                    &&& r == model::expired_keys(old(self)@, now).len()
                },
            final(self).limit() == old(self).limit(),
            final(self).origin() == old(self).origin(),
    {
        let now: u128 = self.now();
        self.clean_expired_at(now)
    }

    /// All keys that have a value at the time `now`, each once, with the value
    /// and the seconds left to live if the key expires.
    pub fn snapshot_entries_at(&self, now: u128) -> (r: Vec<(Vec<u8>, Vec<u8>, Option<u64>)>)
        ensures
            model::is_snapshot(entry_views(r@), self@, now),
    {
        let ghost t = self@;
        let entries: Vec<(Vec<u8>, StoredValue)> = dash::map_entries(&self.inner);
        let ghost ks = dash::keys_of(entries@);
        let mut out: Vec<(Vec<u8>, Vec<u8>, Option<u64>)> = Vec::new();
        let mut i: usize = 0;
        while i < entries.len()
            invariant
                i <= entries@.len(),
                ks == dash::keys_of(entries@),
                ks.no_duplicates(),
                ks.to_set() == t.dom(),
                forall|j: int|
                    0 <= j < entries@.len() ==> (#[trigger] entries@[j]).1@ == t[entries@[j].0@],
                t == self@,
                forall|n: int|
                    0 <= n < out@.len() ==> model::snapshot_entry(
                        #[trigger] entry_views(out@)[n],
                        t,
                        now,
                    ),
                forall|n: int|
                    0 <= n < out@.len() ==> exists|j: int|
                        0 <= j < i && ks[j] == #[trigger] entry_views(out@)[n].0,
                forall|m: int, n: int|
                    0 <= m < n < out@.len() ==> #[trigger] entry_views(out@)[m].0
                        != #[trigger] entry_views(out@)[n].0,
                forall|j: int|
                    0 <= j < i && model::live(t, #[trigger] ks[j], now) ==> exists|n: int|
                        0 <= n < out@.len() && entry_views(out@)[n].0 == ks[j],
            decreases entries@.len() - i,
        {
            let ghost before = out@;
            let ghost key = ks[i as int];
            assert(key == entries@[i as int].0@);
            assert(ks.to_set().contains(key));
            let v: &StoredValue = &entries[i].1;
            if !is_expired(v, now) {
                let ttl: Option<u64> = match v.expires_at {
                    Some(d) => Some(seconds_until(d, now)),
                    None => None,
                };
                out.push(
                    (
                        slice_to_vec(entries[i].0.as_slice()),
                        slice_to_vec(v.data.as_slice()),
                        ttl,
                    ),
                );
                proof {
                    let old_views = entry_views(before);
                    let views = entry_views(out@);
                    assert forall|n: int| 0 <= n < before.len() implies views[n]
                        == old_views[n] by {}
                    assert(views[before.len() as int].0 == key);
                    assert forall|m: int, n: int| 0 <= m < n < out@.len() implies #[trigger]
                    views[m].0 != #[trigger] views[n].0 by {
                        if n == before.len() {
                            assert(views[m] == old_views[m]);
                            let j = choose|j: int| 0 <= j < i && ks[j] == old_views[m].0;
                            assert(ks[j] != ks[i as int]);
                        } else {
                            assert(old_views[m].0 != old_views[n].0);
                        }
                    }
                    assert forall|j: int|
                        0 <= j < i + 1 && model::live(t, #[trigger] ks[j], now) implies exists|
                        n: int,
                    |
                        0 <= n < out@.len() && views[n].0 == ks[j] by {
                        if j < i {
                            let n = choose|n: int|
                                0 <= n < before.len() && old_views[n].0 == ks[j];
                            assert(views[n].0 == ks[j]);
                        } else {
                            assert(views[before.len() as int].0 == ks[j]);
                        }
                    }
                    assert forall|n: int| 0 <= n < out@.len() implies exists|j: int|
                        0 <= j < i + 1 && ks[j] == #[trigger] views[n].0 by {
                        if n < before.len() {
                            assert(views[n] == old_views[n]);
                            let j = choose|j: int| 0 <= j < i && ks[j] == old_views[n].0;
                            assert(ks[j] == views[n].0);
                        } else {
                            assert(ks[i as int] == views[n].0);
                        }
                    }
                }
            }
            i = i + 1;
        }
        proof {
            let views = entry_views(out@);
            assert forall|k: Seq<u8>| model::live(t, k, now) implies exists|n: int|
                0 <= n < views.len() && #[trigger] views[n].0 == k by {
                assert(ks.to_set().contains(k));
                let j = choose|j: int| 0 <= j < ks.len() && ks[j] == k;
                assert(model::live(t, ks[j], now));
            }
        }
        out
    }

    /// All keys that have a value, each once, with the value and the seconds
    /// left to live if the key expires.
    pub fn snapshot_entries(&self) -> (r: Vec<(Vec<u8>, Vec<u8>, Option<u64>)>)
        ensures
            exists|now: u128|
                clock::is_reading(self.origin(), now) && #[trigger] model::is_snapshot(
                    entry_views(r@),
                    self@,
                    now,
                ),
    {
        let now: u128 = self.now();
        self.snapshot_entries_at(now)
    }
}

impl Default for Store {
    fn default() -> (r: Self)
        ensures
            r@ == model::empty_table(),
            r.limit() is None,
    {
        Self::new()
    }
}

} // verus!
