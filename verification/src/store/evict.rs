//! Approximate eviction of the least recently used keys: a few keys are drawn at
//! random, and the one that was not used for longest goes.
use crate::random;
use crate::store::dash;
use crate::store::dash::StoredValue;
use crate::store::model;
use crate::store::model::Table;
use crate::store::Store;
use crate::text;
use rand::rngs::SmallRng;
use vstd::prelude::*;

verus! {

/// A list holds each entry of a table once, and nothing else.
pub open spec fn listed(entries: Seq<(Vec<u8>, StoredValue)>, t: Table) -> bool {
    &&& dash::keys_of(entries).no_duplicates()
    &&& dash::keys_of(entries).to_set() == t.dom()
    &&& forall|i: int|
        0 <= i < entries.len() ==> (#[trigger] entries[i]).1@ == t[entries[i].0@]
}

/// How many bytes the entries of a list take together.
pub open spec fn list_size(entries: Seq<(Vec<u8>, StoredValue)>) -> nat
    decreases entries.len(),
{
    if entries.len() == 0 {
        0
    } else {
        list_size(entries.drop_last()) + model::entry_size(
            entries.last().0@,
            entries.last().1@,
        )
    }
}

/// Without one of its entries, a list holds the table without that key.
proof fn lemma_listed_remove(entries: Seq<(Vec<u8>, StoredValue)>, t: Table, i: int)
    requires
        listed(entries, t),
        0 <= i < entries.len(),
    ensures
        t.contains_key(entries[i].0@),
        listed(entries.remove(i), t.remove(entries[i].0@)),
{
    let ks = dash::keys_of(entries);
    let rest = entries.remove(i);
    let key = entries[i].0@;
    let rs = dash::keys_of(rest);
    assert(ks[i] == key);
    assert(ks.to_set().contains(key));
    assert forall|a: int, b: int| 0 <= a < rs.len() && 0 <= b < rs.len() && a != b implies rs[a]
        != rs[b] by {
        let x = if a < i {
            a
        } else {
            a + 1
        };
        let y = if b < i {
            b
        } else {
            b + 1
        };
        assert(rs[a] == ks[x] && rs[b] == ks[y]);
    }
    assert forall|k: Seq<u8>| rs.to_set().contains(k) <==> t.remove(key).dom().contains(k) by {
        if rs.to_set().contains(k) {
            let a = choose|a: int| 0 <= a < rs.len() && rs[a] == k;
            let x = if a < i {
                a
            } else {
                a + 1
            };
            assert(ks[x] == k);
            assert(ks.to_set().contains(k));
        }
        if t.remove(key).dom().contains(k) {
            assert(ks.to_set().contains(k));
            let x = choose|x: int| 0 <= x < ks.len() && ks[x] == k;
            let a = if x < i {
                x
            } else {
                x - 1
            };
            assert(rs[a] == k);
        }
    }
    assert(rs.to_set() =~= t.remove(key).dom());
    assert forall|a: int| 0 <= a < rest.len() implies (#[trigger] rest[a]).1@ == t.remove(
        key,
    )[rest[a].0@] by {
        let x = if a < i {
            a
        } else {
            a + 1
        };
        assert(rest[a] == entries[x]);
        assert(rs[a] == ks[x] && ks[x] != ks[i]);
    }
}

/// A list takes as many bytes as the table whose entries it holds.
proof fn lemma_listed_size(entries: Seq<(Vec<u8>, StoredValue)>, t: Table)
    requires
        listed(entries, t),
    ensures
        t.dom().finite(),
        t.dom().len() == entries.len(),
        model::used_bytes(t) == list_size(entries),
    decreases entries.len(),
{
    let ks = dash::keys_of(entries);
    vstd::seq_lib::seq_to_set_is_finite(ks);
    ks.unique_seq_to_set();
    if entries.len() > 0 {
        let last = entries.len() - 1;
        lemma_listed_remove(entries, t, last);
        assert(entries.remove(last) =~= entries.drop_last());
        lemma_listed_size(entries.drop_last(), t.remove(entries[last].0@));
        model::lemma_used_remove(t, entries[last].0@);
    }
}

/// How many bytes the entries of a list take together; `None` if that exceeds
/// 128 bits.
fn total_size(entries: &Vec<(Vec<u8>, StoredValue)>) -> (r: Option<u128>)
    ensures
        match r {
            Some(n) => n == list_size(entries@),
            None => list_size(entries@) > u128::MAX,
        },
{
    let mut total: u128 = 0;
    let mut i: usize = 0;
    while i < entries.len()
        invariant
            i <= entries@.len(),
            total == list_size(entries@.take(i as int)),
        decreases entries@.len() - i,
    {
        let size: u128 = entries[i].0.len() as u128 + entries[i].1.data.len() as u128;
        proof {
            assert(entries@.take(i as int + 1).drop_last() =~= entries@.take(i as int));
            lemma_list_size_prefix(entries@, i as int + 1);
        }
        if size > u128::MAX - total {
            return None;
        }
        total = total + size;
        i = i + 1;
    }
    assert(entries@.take(entries@.len() as int) =~= entries@);
    Some(total)
}

/// The front of a list takes no more bytes than the list.
proof fn lemma_list_size_prefix(entries: Seq<(Vec<u8>, StoredValue)>, n: int)
    requires
        0 <= n <= entries.len(),
    ensures
        list_size(entries.take(n)) <= list_size(entries),
    decreases entries.len() - n,
{
    if n < entries.len() {
        lemma_list_size_prefix(entries, n + 1);
        assert(entries.take(n + 1).drop_last() =~= entries.take(n));
    } else {
        assert(entries.take(n) =~= entries);
    }
}

/// The position, among those of a sample, of the entry that was not used for
/// longest.
pub fn least_recently_used(entries: &Vec<(Vec<u8>, StoredValue)>, sample: &Vec<usize>) -> (r: usize)
    requires
        sample@.len() > 0,
        forall|i: int| 0 <= i < sample@.len() ==> #[trigger] sample@[i] < entries@.len(),
    ensures
        sample@.contains(r),
        forall|i: int|
            0 <= i < sample@.len() ==> entries@[r as int].1.last_used <= (
            #[trigger] entries@[sample@[i] as int]).1.last_used,
{
    let mut best: usize = sample[0];
    let mut i: usize = 1;
    assert(sample@[0] == best);
    while i < sample.len()
        invariant
            1 <= i <= sample@.len(),
            sample@.contains(best),
            best < entries@.len(),
            forall|j: int| 0 <= j < sample@.len() ==> #[trigger] sample@[j] < entries@.len(),
            forall|j: int|
                0 <= j < i ==> entries@[best as int].1.last_used <= (
                #[trigger] entries@[sample@[j] as int]).1.last_used,
        decreases sample@.len() - i,
    {
        let here: usize = sample[i];
        assert(sample@[i as int] == here);
        if entries[here].1.last_used < entries[best].1.last_used {
            best = here;
        }
        i = i + 1;
    }
    best
}

/// The keys that a sample of positions stands for are as many, and the least
/// recently used of them is the oldest of the sample.
proof fn lemma_sample(
    entries: Seq<(Vec<u8>, StoredValue)>,
    t: Table,
    sample: Seq<usize>,
    best: usize,
)
    requires
        listed(entries, t),
        sample.no_duplicates(),
        sample.len() == if entries.len() < 5 {
            entries.len()
        } else {
            5
        },
        forall|i: int| 0 <= i < sample.len() ==> #[trigger] sample[i] < entries.len(),
        sample.contains(best),
        forall|i: int|
            0 <= i < sample.len() ==> entries[best as int].1.last_used <= (
            #[trigger] entries[sample[i] as int]).1.last_used,
    ensures
        exists|s: Set<Seq<u8>>| #[trigger]
            model::oldest_of_sample(t, entries[best as int].0@, s),
{
    let ks = dash::keys_of(entries);
    let sk = sample.map_values(|p: usize| ks[p as int]);
    let s = sk.to_set();
    let key = entries[best as int].0@;
    lemma_listed_size(entries, t);
    assert forall|a: int, b: int| 0 <= a < sk.len() && 0 <= b < sk.len() && a != b implies sk[a]
        != sk[b] by {
        assert(sample[a] != sample[b]);
        assert(sample[a] < entries.len() && sample[b] < entries.len());
        assert(ks[sample[a] as int] != ks[sample[b] as int]);
    }
    sk.unique_seq_to_set();
    vstd::seq_lib::seq_to_set_is_finite(sk);
    assert forall|k: Seq<u8>| #[trigger] s.contains(k) implies t.dom().contains(k)
        && t[key].last_used <= t[k].last_used by {
        let a = choose|a: int| 0 <= a < sk.len() && sk[a] == k;
        let p = sample[a] as int;
        assert(sample[a] < entries.len());
        assert(ks[p] == k);
        assert(ks.to_set().contains(k));
        assert(entries[p].1@ == t[entries[p].0@]);
        assert(entries[best as int].1@ == t[key]);
        assert(entries[sample[a] as int].1.last_used >= entries[best as int].1.last_used);
    }
    let b = choose|b: int| 0 <= b < sample.len() && sample[b] == best;
    assert(sk[b] == key);
    assert(s.contains(key));
    assert(model::oldest_of_sample(t, key, s));
}

/// Is a number of bytes more than `max`? `None` is more than any.
fn exceeds(used: Option<u128>, max: u128) -> (r: bool)
    ensures
        r == match used {
            Some(n) => n > max,
            None => true,
        },
{
    match used {
        Some(n) => n > max,
        None => true,
    }
}

impl Store {
    /// Evicts keys until what is left takes no more than the limit, if there is
    /// one, and gives the keys that went, in the order in which they went. Each
    /// was the least recently used of a sample that is drawn with a generator
    /// made from `seed`.
    pub fn evict(&mut self, seed: u64) -> (r: Vec<Vec<u8>>)
        ensures
            match old(self).limit() {
                Some(limit) => model::evicted(old(self)@, text::byte_views(r@), limit),
                None => r@.len() == 0,
            },
            final(self)@ == model::after_del(old(self)@, text::byte_views(r@)),
            final(self).limit() == old(self).limit(),
            final(self).origin() == old(self).origin(),
    {
        let mut out: Vec<Vec<u8>> = Vec::new();
        let ghost t = self@;
        assert(text::byte_views(out@) =~= Seq::<Seq<u8>>::empty());
        assert(model::after_del(t, text::byte_views(out@)) =~= t);
        let max: u128 = match self.max_bytes {
            Some(n) => n,
            None => {
                return out;
            },
        };
        let mut rng: SmallRng = random::seeded(seed);
        let mut entries: Vec<(Vec<u8>, StoredValue)> = dash::map_entries(&self.inner);
        let mut used: Option<u128> = total_size(&entries);
        proof {
            lemma_listed_size(entries@, t);
        }
        while exceeds(used, max)
            invariant
                t == old(self)@,
                self.limit() == old(self).limit(),
                self.origin() == old(self).origin(),
                old(self).limit() == Some(max as nat),
                listed(entries@, self@),
                self@ == model::after_del(t, text::byte_views(out@)),
                match used {
                    Some(n) => n == list_size(entries@),
                    None => list_size(entries@) > u128::MAX,
                },
                forall|i: int|
                    0 <= i < out@.len() ==> model::evicted_next(
                        t,
                        text::byte_views(out@),
                        max as nat,
                        i,
                    ),
            decreases entries@.len(),
        {
            let ghost here = self@;
            let ghost gone = text::byte_views(out@);
            assert(entries@.len() > 0);
            let amount: usize = if entries.len() < 5 {
                entries.len()
            } else {
                5
            };
            let sample: Vec<usize> = random::sample_indices(&mut rng, entries.len(), amount);
            let best: usize = least_recently_used(&entries, &sample);
            proof {
                let b = choose|b: int| 0 <= b < sample@.len() && sample@[b] == best;
                assert(sample@[b] < entries@.len());
                lemma_sample(entries@, here, sample@, best);
                lemma_listed_size(entries@, here);
                lemma_listed_remove(entries@, here, best as int);
                lemma_listed_size(
                    entries@.remove(best as int),
                    here.remove(entries@[best as int].0@),
                );
                model::lemma_used_remove(here, entries@[best as int].0@);
            }
            let (key, stored) = entries.remove(best);
            let size: u128 = key.len() as u128 + stored.data.len() as u128;
            dash::map_remove(&mut self.inner, key.as_slice());
            used = match used {
                Some(n) => Some(n - size),
                None => total_size(&entries),
            };
            let ghost k = key@;
            out.push(key);
            proof {
                let now_gone = text::byte_views(out@);
                assert(now_gone =~= gone.push(k));
                gone.lemma_push_to_set_commute(k);
                assert(model::after_del(t, now_gone) =~= model::after_del(t, gone).remove(k));
                assert forall|i: int| 0 <= i < out@.len() implies model::evicted_next(
                    t,
                    now_gone,
                    max as nat,
                    i,
                ) by {
                    assert(now_gone.take(i) =~= gone.take(i));
                    if i < gone.len() {
                        assert(model::evicted_next(t, gone, max as nat, i));
                    } else {
                        assert(gone.take(i) =~= gone);
                    }
                }
            }
        }
        proof {
            lemma_listed_size(entries@, self@);
        }
        out
    }
}

} // verus!
