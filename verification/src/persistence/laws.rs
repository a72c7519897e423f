//! What reading back gives of what was written.
use crate::cmd;
use crate::cmd::model::Cmd;
use crate::persistence::model;
use crate::persistence::model::Replayed;
use crate::resp;
use crate::resp::model::Resp;
use crate::store;
use crate::store::model::Table;
use crate::text;
use vstd::prelude::*;
use vstd::utf8::*;

verus! {

/// The frames of two lists are executed one list after the other.
pub proof fn lemma_after_frames_front(items: Seq<Resp>, t: Table, now: u128)
    requires
        items.len() > 0,
    ensures
        model::after_frames(items, t, now) == model::after_frames(
            items.drop_first(),
            model::after_frame(items[0], t, now),
            now,
        ),
        model::count_commands(items) == model::count_commands(items.drop_first())
            + if model::command_in(items[0]) is Some {
            1nat
        } else {
            0
        },
    decreases items.len(),
{
    let front = items.drop_last();
    let tail = items.drop_first();
    if items.len() == 1 {
        assert(front =~= Seq::<Resp>::empty());
        assert(tail =~= Seq::<Resp>::empty());
        assert(model::count_commands(front) == 0);
        assert(model::after_frames(front, t, now) == t);
        assert(items.last() == items[0]);
    } else {
        lemma_after_frames_front(front, t, now);
        assert(tail.drop_last() =~= front.drop_first());
        assert(tail.last() == items.last());
    }
}

/// How much a frame adds to the number of commands.
spec fn weight(v: Resp) -> nat {
    if model::command_in(v) is Some {
        1
    } else {
        0
    }
}

/// Reading back a frame that was written executes it.
proof fn lemma_replay_frame(v: Resp, more: Seq<u8>, t: Table, now: u128, count: nat)
    requires
        resp::laws::transmissible(v),
    ensures
        model::replay(resp::model::encoded(v) + more, t, now, count) == model::replay(
            more,
            model::after_frame(v, t, now),
            now,
            count + weight(v),
        ),
{
    let b = resp::model::encoded(v) + more;
    let n = resp::model::encoded(v).len();
    resp::laws::law_round_trip(v, more);
    resp::laws::law_frame_stable(b, Seq::empty());
    assert(b.skip(n as int) =~= more);
}

/// Reading back what was written executes the frames in their order, and goes on
/// with what follows them.
pub proof fn law_replay_frames(
    items: Seq<Resp>,
    rest: Seq<u8>,
    t: Table,
    now: u128,
    count: nat,
)
    requires
        resp::laws::all_transmissible(items),
    ensures
        model::replay(resp::model::encoded_all(items) + rest, t, now, count) == model::replay(
            rest,
            model::after_frames(items, t, now),
            now,
            count + model::count_commands(items),
        ),
    decreases items.len(),
{
    if items.len() == 0 {
        assert(resp::model::encoded_all(items) + rest =~= rest);
    } else {
        let tail = items.drop_first();
        let more = resp::model::encoded_all(tail) + rest;
        resp::laws::lemma_all_transmissible(items);
        resp::laws::lemma_all_transmissible(tail);
        resp::laws::lemma_encoded_all_front(items);
        assert(resp::model::encoded_all(items) + rest =~= resp::model::encoded(items[0]) + more);
        lemma_replay_frame(items[0], more, t, now, count);
        lemma_after_frames_front(items, t, now);
        law_replay_frames(
            tail,
            rest,
            model::after_frame(items[0], t, now),
            now,
            count + weight(items[0]),
        );
    }
}

/// A log whose last frame was cut off is read back as if that frame had not been
/// written; one that is whole is read back whole.
pub proof fn law_replay_cut_off(items: Seq<Resp>, cut: Seq<u8>, t: Table, now: u128)
    requires
        resp::laws::all_transmissible(items),
        resp::model::frame(cut) is Incomplete,
    ensures
        model::replay(resp::model::encoded_all(items) + cut, t, now, 0) == (Replayed {
            result: Ok(model::count_commands(items)),
            table: model::after_frames(items, t, now),
        }),
        model::replay(resp::model::encoded_all(items), t, now, 0) == (Replayed {
            result: Ok(model::count_commands(items)),
            table: model::after_frames(items, t, now),
        }),
{
    law_replay_frames(items, cut, t, now, 0);
    law_replay_frames(items, Seq::empty(), t, now, 0);
    assert(resp::model::encoded_all(items) + Seq::<u8>::empty() =~= resp::model::encoded_all(
        items,
    ));
}

/// Bytes that are no RESP2 stop reading back; what stands before them counts.
pub proof fn law_replay_garbage(items: Seq<Resp>, garbage: Seq<u8>, t: Table, now: u128)
    requires
        resp::laws::all_transmissible(items),
        resp::model::frame(garbage) is Invalid,
    ensures
        model::replay(resp::model::encoded_all(items) + garbage, t, now, 0).result is Err,
        model::replay(resp::model::encoded_all(items) + garbage, t, now, 0).table
            == model::after_frames(items, t, now),
{
    law_replay_frames(items, garbage, t, now, 0);
}

/// Can the frame that sets a key be sent? Its key and its value must not be
/// longer than the protocol can say.
pub open spec fn entry_fits(e: (Seq<u8>, Seq<u8>, Option<u64>)) -> bool {
    e.0.len() <= i64::MAX && e.1.len() <= i64::MAX
}

/// A number of 64 bits has at most twenty digits.
proof fn lemma_decimal_short(n: nat, k: nat)
    requires
        k >= 1,
        n < pow10(k),
    ensures
        text::decimal(n).len() <= k,
    decreases k,
{
    if n >= 10 {
        assert(k >= 2) by {
            assert(pow10(1) == 10 * pow10(0));
        }
        assert(n / 10 < pow10((k - 1) as nat)) by {
            assert(pow10(k) == 10 * pow10((k - 1) as nat));
        }
        lemma_decimal_short(n / 10, (k - 1) as nat);
    }
}

/// A power of ten.
spec fn pow10(k: nat) -> nat
    decreases k,
{
    if k == 0 {
        1
    } else {
        10 * pow10((k - 1) as nat)
    }
}

/// The frame that sets a key can be sent.
pub proof fn lemma_set_frame_transmissible(e: (Seq<u8>, Seq<u8>, Option<u64>))
    requires
        entry_fits(e),
    ensures
        resp::laws::transmissible(model::set_frame(e)),
{
    let items = cmd::laws::set_request(e.0, e.1, e.2);
    reveal_strlit("SET");
    reveal_strlit("EX");
    is_ascii_chars_encode_utf8("SET"@);
    is_ascii_chars_encode_utf8("EX"@);
    if let Some(ttl) = e.2 {
        assert(pow10(20) == 100_000_000_000_000_000_000) by {
            reveal_with_fuel(pow10, 21);
        }
        lemma_decimal_short(ttl as nat, 20);
    }
    assert forall|i: int| 0 <= i < items.len() implies resp::laws::transmissible(
        #[trigger] items[i],
    ) by {}
    resp::laws::lemma_all_transmissible(items);
}

/// The frames of a snapshot can be sent.
pub proof fn lemma_snapshot_transmissible(entries: Seq<(Seq<u8>, Seq<u8>, Option<u64>)>)
    requires
        forall|i: int| 0 <= i < entries.len() ==> entry_fits(#[trigger] entries[i]),
    ensures
        resp::laws::all_transmissible(model::snapshot_frames(entries)),
{
    let frames = model::snapshot_frames(entries);
    assert forall|i: int| 0 <= i < frames.len() implies resp::laws::transmissible(
        #[trigger] frames[i],
    ) by {
        lemma_set_frame_transmissible(entries[i]);
    }
    resp::laws::lemma_all_transmissible(frames);
}

/// Executing the frames of a snapshot sets each of its keys, and no other.
pub proof fn lemma_after_snapshot(
    entries: Seq<(Seq<u8>, Seq<u8>, Option<u64>)>,
    t: Table,
    now: u128,
)
    requires
        forall|i: int, j: int|
            0 <= i < j < entries.len() ==> #[trigger] entries[i].0 != #[trigger] entries[j].0,
    ensures
        model::count_commands(model::snapshot_frames(entries)) == entries.len(),
        forall|i: int|
            0 <= i < entries.len() ==> {
                let after = model::after_frames(model::snapshot_frames(entries), t, now);
                &&& after.contains_key((#[trigger] entries[i]).0)
                &&& after[entries[i].0] == store::model::fresh_entry(
                    entries[i].1,
                    entries[i].2,
                    now,
                )
            },
        forall|k: Seq<u8>|
            (forall|i: int| 0 <= i < entries.len() ==> #[trigger] entries[i].0 != k) ==> {
                &&& #[trigger] model::after_frames(
                    model::snapshot_frames(entries),
                    t,
                    now,
                ).contains_key(k) == t.contains_key(k)
                &&& model::after_frames(model::snapshot_frames(entries), t, now)[k] == t[k]
            },
    decreases entries.len(),
{
    let frames = model::snapshot_frames(entries);
    if entries.len() > 0 {
        let front = entries.drop_last();
        let last = entries.last();
        assert(frames.drop_last() =~= model::snapshot_frames(front));
        assert forall|i: int, j: int| 0 <= i < j < front.len() implies #[trigger] front[i].0
            != #[trigger] front[j].0 by {
            assert(entries[i].0 != entries[j].0);
        }
        lemma_after_snapshot(front, t, now);
        cmd::laws::law_set_request(last.0, last.1, last.2);
        let before = model::after_frames(frames.drop_last(), t, now);
        let after = model::after_frames(frames, t, now);
        assert(after == store::model::after_set(before, last.0, last.1, last.2, now));
        assert forall|i: int| 0 <= i < entries.len() implies {
            &&& after.contains_key((#[trigger] entries[i]).0)
            &&& after[entries[i].0] == store::model::fresh_entry(entries[i].1, entries[i].2, now)
        } by {
            if i < front.len() {
                assert(front[i] == entries[i]);
                assert(entries[i].0 != entries[entries.len() - 1].0);
            }
        }
        assert forall|k: Seq<u8>|
            (forall|i: int| 0 <= i < entries.len() ==> #[trigger] entries[i].0 != k) implies {
            &&& #[trigger] after.contains_key(k) == t.contains_key(k)
            &&& after[k] == t[k]
        } by {
            assert(entries[entries.len() - 1].0 != k);
            assert forall|i: int| 0 <= i < front.len() implies #[trigger] front[i].0 != k by {
                assert(entries[i].0 != k);
            }
            assert(before.contains_key(k) == t.contains_key(k));
        }
    }
}

/// A snapshot restores the data: when a snapshot of a store is loaded into an
/// empty one, every key has the value that it had when the snapshot was taken,
/// and no other key has one. A key that expires gets the seconds that were left
/// to it. The number of entries comes out as that of the commands.
pub proof fn law_snapshot_restores(
    entries: Seq<(Seq<u8>, Seq<u8>, Option<u64>)>,
    t: Table,
    taken: u128,
    loaded: u128,
    key: Seq<u8>,
)
    requires
        store::model::is_snapshot(entries, t, taken),
        forall|i: int| 0 <= i < entries.len() ==> entry_fits(#[trigger] entries[i]),
        loaded < u128::MAX,
    ensures
        model::replay(model::snapshot_bytes(entries), store::model::empty_table(), loaded, 0).result
            == Ok::<nat, resp::model::ErrorKind>(entries.len()),
        store::model::value_at(
            model::replay(
                model::snapshot_bytes(entries),
                store::model::empty_table(),
                loaded,
                0,
            ).table,
            key,
            loaded,
        ) == store::model::value_at(t, key, taken),
        store::model::live(t, key, taken) ==> model::replay(
            model::snapshot_bytes(entries),
            store::model::empty_table(),
            loaded,
            0,
        ).table[key].expires_at == match t[key].expires_at {
            Some(d) => Some(
                store::model::deadline(loaded, store::model::seconds_left(d, taken)),
            ),
            None => None::<u128>,
        },
{
    let frames = model::snapshot_frames(entries);
    let empty = store::model::empty_table();
    let after = model::after_frames(frames, empty, loaded);
    lemma_snapshot_transmissible(entries);
    law_replay_frames(frames, Seq::empty(), empty, loaded, 0);
    assert(resp::model::encoded_all(frames) + Seq::<u8>::empty() =~= resp::model::encoded_all(
        frames,
    ));
    lemma_after_snapshot(entries, empty, loaded);
    if store::model::live(t, key, taken) {
        let i = choose|i: int| 0 <= i < entries.len() && #[trigger] entries[i].0 == key;
        assert(store::model::snapshot_entry(entries[i], t, taken));
        assert(after[key] == store::model::fresh_entry(entries[i].1, entries[i].2, loaded));
    } else {
        assert forall|i: int| 0 <= i < entries.len() implies #[trigger] entries[i].0 != key by {
            assert(store::model::snapshot_entry(entries[i], t, taken));
        }
        assert(after.contains_key(key) == empty.contains_key(key));
    }
}

/// A key that a snapshot has restored lives on at least as long as it would have:
/// a value that could be read some time after the snapshot was taken can be read
/// the same time after it was loaded. (The time is less than what 64 bits of
/// seconds can say.)
pub proof fn law_snapshot_lives_on(
    entries: Seq<(Seq<u8>, Seq<u8>, Option<u64>)>,
    t: Table,
    taken: u128,
    loaded: u128,
    key: Seq<u8>,
    x: u128,
)
    requires
        store::model::is_snapshot(entries, t, taken),
        forall|i: int| 0 <= i < entries.len() ==> entry_fits(#[trigger] entries[i]),
        x < u64::MAX * 1_000_000_000,
        taken + x <= u128::MAX,
        loaded + x < u128::MAX,
        store::model::live(t, key, (taken + x) as u128),
    ensures
        store::model::value_at(
            model::replay(
                model::snapshot_bytes(entries),
                store::model::empty_table(),
                loaded,
                0,
            ).table,
            key,
            (loaded + x) as u128,
        ) == store::model::value_at(t, key, (taken + x) as u128),
{
    law_snapshot_restores(entries, t, taken, loaded, key);
    assert(store::model::live(t, key, taken));
    let after = model::replay(
        model::snapshot_bytes(entries),
        store::model::empty_table(),
        loaded,
        0,
    ).table;
    assert(store::model::value_at(after, key, loaded) == Some(t[key].data));
}

/// A request with the time at which it was executed.
pub struct Executed {
    pub frame: Resp,
    pub at: u128,
}

/// The table after a history of requests.
pub open spec fn after_history(history: Seq<Executed>, t: Table) -> Table
    decreases history.len(),
{
    if history.len() == 0 {
        t
    } else {
        model::after_frame(
            history.last().frame,
            after_history(history.drop_last(), t),
            history.last().at,
        )
    }
}

/// Is a request logged? Those are that change data.
pub open spec fn is_logged(frame: Resp) -> bool {
    model::command_in(frame) matches Some(c) && cmd::model::modifies(c)
}

/// The frames that a history leaves in the log.
pub open spec fn log_of(history: Seq<Executed>) -> Seq<Resp>
    decreases history.len(),
{
    if history.len() == 0 {
        Seq::empty()
    } else if is_logged(history.last().frame) {
        log_of(history.drop_last()).push(history.last().frame)
    } else {
        log_of(history.drop_last())
    }
}

/// Two tables hold the same values, and nothing in them expires.
pub open spec fn same_values(a: Table, b: Table) -> bool {
    &&& a.dom() == b.dom()
    &&& forall|k: Seq<u8>| #[trigger]
        a.contains_key(k) ==> a[k].data == b[k].data && a[k].expires_at is None
            && b[k].expires_at is None
}

/// Does a request set a key that expires?
pub open spec fn sets_ttl(frame: Resp) -> bool {
    model::command_in(frame) matches Some(Cmd::SetKey { key, value, ttl_secs }) && ttl_secs is Some
}

/// A copy has, at its time, every value that its source has at the source's time.
pub open spec fn has_values_of(copy: Table, copied_at: u128, source: Table, at: u128) -> bool {
    forall|k: Seq<u8>| #[trigger]
        store::model::live(source, k, at) ==> store::model::value_at(copy, k, copied_at)
            == store::model::value_at(source, k, at)
}

/// No request of a history is executed after `end`.
pub open spec fn ends_by(history: Seq<Executed>, end: u128) -> bool {
    forall|i: int| 0 <= i < history.len() ==> (#[trigger] history[i]).at <= end
}

/// The log restores the data: after replaying what a history of requests has left
/// in the log, every key that had a value at the end of the history has it again.
/// (A key that had expired may come back, as replaying starts its time anew.)
pub proof fn law_log_restores(history: Seq<Executed>, end: u128, replayed: u128)
    requires
        ends_by(history, end),
        replayed < u128::MAX,
        resp::laws::all_transmissible(log_of(history)),
    ensures
        model::replay(
            resp::model::encoded_all(log_of(history)),
            store::model::empty_table(),
            replayed,
            0,
        ).result is Ok,
        has_values_of(
            model::replay(
                resp::model::encoded_all(log_of(history)),
                store::model::empty_table(),
                replayed,
                0,
            ).table,
            replayed,
            after_history(history, store::model::empty_table()),
            end,
        ),
{
    let log = log_of(history);
    let empty = store::model::empty_table();
    law_replay_frames(log, Seq::empty(), empty, replayed, 0);
    assert(resp::model::encoded_all(log) + Seq::<u8>::empty() =~= resp::model::encoded_all(log));
    lemma_log_covers(history, empty, empty, end, replayed);
}

/// Executing the logged frames gives all the values that the whole history
/// leaves, where the copy had all values before.
pub proof fn lemma_log_covers(
    history: Seq<Executed>,
    copy: Table,
    source: Table,
    end: u128,
    replayed: u128,
)
    requires
        has_values_of(copy, replayed, source, end),
        ends_by(history, end),
        replayed < u128::MAX,
    ensures
        has_values_of(
            model::after_frames(log_of(history), copy, replayed),
            replayed,
            after_history(history, source),
            end,
        ),
    decreases history.len(),
{
    if history.len() > 0 {
        let front = history.drop_last();
        let last = history.last();
        assert forall|i: int| 0 <= i < front.len() implies (#[trigger] front[i]).at <= end by {
            assert(front[i] == history[i]);
        }
        assert(history[history.len() - 1].at <= end);
        lemma_log_covers(front, copy, source, end, replayed);
        let a = model::after_frames(log_of(front), copy, replayed);
        let b = after_history(front, source);
        if is_logged(last.frame) {
            assert(log_of(history).drop_last() =~= log_of(front));
        }
        lemma_effect_covers(last.frame, a, b, last.at, end, replayed);
    }
}

/// One more request keeps all values in the copy, whether it is logged or not.
proof fn lemma_effect_covers(
    frame: Resp,
    a: Table,
    b: Table,
    at: u128,
    end: u128,
    replayed: u128,
)
    requires
        has_values_of(a, replayed, b, end),
        at <= end,
        replayed < u128::MAX,
    ensures
        has_values_of(
            if is_logged(frame) {
                model::after_frame(frame, a, replayed)
            } else {
                a
            },
            replayed,
            model::after_frame(frame, b, at),
            end,
        ),
{
    let x = if is_logged(frame) {
        model::after_frame(frame, a, replayed)
    } else {
        a
    };
    let y = model::after_frame(frame, b, at);
    assert forall|k: Seq<u8>| #[trigger] store::model::live(y, k, end) implies store::model::value_at(
        x,
        k,
        replayed,
    ) == store::model::value_at(y, k, end) by {
        if let Some(c) = model::command_in(frame) {
            match c {
                Cmd::SetKey { key, value, ttl_secs } => {
                    if k == key {
                        if let Some(s) = ttl_secs {
                            assert(store::model::deadline(at, s) > end);
                            assert(s > 0);
                            assert(store::model::deadline(replayed, s) > replayed);
                        }
                    } else {
                        assert(store::model::live(b, k, end));
                    }
                },
                Cmd::Del(keys) => {
                    assert(!keys.to_set().contains(k));
                    assert(store::model::live(b, k, end));
                },
                Cmd::Get(key) => {
                    assert(b.contains_key(k));
                    assert(store::model::live(b, k, end));
                },
                _ => {
                    assert(store::model::live(b, k, end));
                },
            }
        } else {
            assert(store::model::live(b, k, end));
        }
    }
}

/// Without keys that expire, the log restores the data exactly: replaying what a
/// history of requests has left in the log gives the values from the end of the
/// history, and no others.
pub proof fn law_log_restores_exactly(history: Seq<Executed>, replayed: u128)
    requires
        forall|i: int| 0 <= i < history.len() ==> !sets_ttl(#[trigger] history[i].frame),
        resp::laws::all_transmissible(log_of(history)),
    ensures
        model::replay(
            resp::model::encoded_all(log_of(history)),
            store::model::empty_table(),
            replayed,
            0,
        ).result is Ok,
        same_values(
            model::replay(
                resp::model::encoded_all(log_of(history)),
                store::model::empty_table(),
                replayed,
                0,
            ).table,
            after_history(history, store::model::empty_table()),
        ),
{
    let log = log_of(history);
    let empty = store::model::empty_table();
    law_replay_frames(log, Seq::empty(), empty, replayed, 0);
    assert(resp::model::encoded_all(log) + Seq::<u8>::empty() =~= resp::model::encoded_all(log));
    lemma_log(history, empty, empty, replayed);
}

/// Executing the logged frames gives the same values as the whole history, where
/// the tables held the same values before.
pub proof fn lemma_log(history: Seq<Executed>, copy: Table, source: Table, replayed: u128)
    requires
        same_values(copy, source),
        forall|i: int| 0 <= i < history.len() ==> !sets_ttl(#[trigger] history[i].frame),
    ensures
        same_values(
            model::after_frames(log_of(history), copy, replayed),
            after_history(history, source),
        ),
    decreases history.len(),
{
    if history.len() > 0 {
        let front = history.drop_last();
        let last = history.last();
        assert forall|i: int| 0 <= i < front.len() implies !sets_ttl(
            #[trigger] front[i].frame,
        ) by {
            assert(front[i] == history[i]);
        }
        assert(!sets_ttl(history[history.len() - 1].frame));
        lemma_log(front, copy, source, replayed);
        let a = model::after_frames(log_of(front), copy, replayed);
        let b = after_history(front, source);
        if is_logged(last.frame) {
            assert(log_of(history).drop_last() =~= log_of(front));
        }
        lemma_same_effect(last.frame, a, b, replayed, last.at);
    }
}

/// One more request keeps two tables alike, whether it is logged or not.
proof fn lemma_same_effect(frame: Resp, a: Table, b: Table, replayed: u128, at: u128)
    requires
        same_values(a, b),
        !sets_ttl(frame),
    ensures
        same_values(
            if is_logged(frame) {
                model::after_frame(frame, a, replayed)
            } else {
                a
            },
            model::after_frame(frame, b, at),
        ),
{
    if let Some(c) = model::command_in(frame) {
        match c {
            Cmd::SetKey { key, value, ttl_secs } => {
                assert(a.insert(key, store::model::fresh_entry(value, ttl_secs, replayed)).dom()
                    =~= b.insert(key, store::model::fresh_entry(value, ttl_secs, at)).dom());
            },
            Cmd::Del(keys) => {
                assert(store::model::after_del(a, keys).dom() =~= store::model::after_del(
                    b,
                    keys,
                ).dom());
            },
            Cmd::Get(key) => {
                let after = store::model::after_get(b, key, at);
                if b.contains_key(key) {
                    assert(a.contains_key(key));
                    assert(store::model::live(b, key, at));
                }
                assert(after.dom() =~= b.dom());
            },
            _ => {},
        }
    }
}

} // verus!
