//! What a replica has of the data of its master.
use crate::persistence;
use crate::persistence::laws::Executed;
use crate::replication::model;
use crate::resp;
use crate::resp::laws::Event;
use crate::resp::model::Resp;
use crate::store;
use crate::store::model::Table;
use vstd::prelude::*;

verus! {

/// What is seen in two parts is applied one part after the other.
pub proof fn lemma_after_events_concat(a: Seq<Event>, b: Seq<Event>, t: Table, now: u128)
    ensures
        model::after_events(a + b, t, now) == model::after_events(
            b,
            model::after_events(a, t, now),
            now,
        ),
    decreases a.len(),
{
    if a.len() == 0 {
        assert(a + b =~= b);
    } else {
        assert((a + b).drop_first() =~= a.drop_first() + b);
        lemma_after_events_concat(a.drop_first(), b, model::after_event(a[0], t, now), now);
    }
}

/// It does not matter in which pieces the stream of a master arrives.
pub proof fn law_replica_chunks(b: Seq<u8>, c: Seq<u8>, t: Table, now: u128)
    ensures
        model::after_events(resp::laws::events(b + c), t, now) == model::after_events(
            resp::laws::events(resp::laws::leftover(b) + c),
            model::after_events(resp::laws::events(b), t, now),
            now,
        ),
{
    resp::laws::law_chunks(b, c);
    lemma_after_events_concat(
        resp::laws::events(b),
        resp::laws::events(resp::laws::leftover(b) + c),
        t,
        now,
    );
}

/// The frames as they are seen.
spec fn seen(items: Seq<Resp>) -> Seq<Event> {
    items.map_values(|v: Resp| Event::Frame(v))
}

/// Frames that are all applied do what executing them does.
proof fn lemma_applied_frames(items: Seq<Resp>, t: Table, now: u128)
    requires
        forall|i: int| 0 <= i < items.len() ==> model::applies(#[trigger] items[i]),
    ensures
        model::after_events(seen(items), t, now) == persistence::model::after_frames(
            items,
            t,
            now,
        ),
    decreases items.len(),
{
    if items.len() > 0 {
        let tail = items.drop_first();
        assert(model::applies(items[0]));
        assert(seen(items).drop_first() =~= seen(tail));
        assert forall|i: int| 0 <= i < tail.len() implies model::applies(#[trigger] tail[i]) by {
            assert(tail[i] == items[i + 1]);
        }
        lemma_applied_frames(tail, persistence::model::after_frame(items[0], t, now), now);
        persistence::laws::lemma_after_frames_front(items, t, now);
    }
}

/// A replica gets the data of its master: after the first stream of a master,
/// every key of an empty replica has the value that it had when the master took
/// the snapshot, no other key has one, the marker was seen, and nothing is left
/// over.
pub proof fn law_replica_gets_snapshot(
    entries: Seq<(Seq<u8>, Seq<u8>, Option<u64>)>,
    t: Table,
    taken: u128,
    applied: u128,
    key: Seq<u8>,
)
    requires
        store::model::is_snapshot(entries, t, taken),
        forall|i: int|
            0 <= i < entries.len() ==> persistence::laws::entry_fits(#[trigger] entries[i]),
        applied < u128::MAX,
    ensures
        store::model::value_at(
            model::after_events(
                resp::laws::events(model::sync_bytes(entries)),
                store::model::empty_table(),
                applied,
            ),
            key,
            applied,
        ) == store::model::value_at(t, key, taken),
        model::sees_sync_done(resp::laws::events(model::sync_bytes(entries))),
        resp::laws::leftover(model::sync_bytes(entries)) == Seq::<u8>::empty(),
{
    let frames = persistence::model::snapshot_frames(entries);
    let items = frames.push(model::sync_done());
    let empty = store::model::empty_table();
    persistence::laws::lemma_snapshot_transmissible(entries);
    lemma_marker_transmissible();
    assert(items.drop_last() =~= frames);
    assert(resp::laws::all_transmissible(items));
    assert(resp::model::encoded_all(items) =~= model::sync_bytes(entries));
    resp::laws::law_stream_round_trip(items);
    let es = resp::laws::events(model::sync_bytes(entries));
    assert(es =~= seen(frames) + seq![Event::Frame(model::sync_done())]);
    assert(es[frames.len() as int] == Event::Frame(model::sync_done()));
    assert forall|i: int| 0 <= i < frames.len() implies model::applies(#[trigger] frames[i]) by {
        crate::cmd::laws::law_set_request(entries[i].0, entries[i].1, entries[i].2);
    }
    lemma_applied_frames(frames, empty, applied);
    let before = model::after_events(seen(frames), empty, applied);
    lemma_after_events_concat(
        seen(frames),
        seq![Event::Frame(model::sync_done())],
        empty,
        applied,
    );
    let one = seq![Event::Frame(model::sync_done())];
    assert(one.drop_first() =~= Seq::<Event>::empty());
    assert(model::after_event(one[0], before, applied) == before);
    assert(model::after_events(one, before, applied) == model::after_events(
        one.drop_first(),
        before,
        applied,
    ));
    persistence::laws::law_snapshot_restores(entries, t, taken, applied, key);
    persistence::laws::law_replay_frames(frames, Seq::empty(), empty, applied, 0);
    assert(resp::model::encoded_all(frames) + Seq::<u8>::empty() =~= resp::model::encoded_all(
        frames,
    ));
}

/// The marker can be sent.
proof fn lemma_marker_transmissible()
    ensures
        resp::laws::transmissible(model::sync_done()),
{
    reveal_strlit("SYNC_DONE");
}

/// A replica follows its master: where it has all values of its master, it still
/// does after the master has executed a history of requests and the replica has
/// applied those that the master passed on. (A key may live on a little longer
/// on a replica, which starts its time when the request arrives.)
pub proof fn law_replica_follows(
    history: Seq<Executed>,
    replica: Table,
    applied: u128,
    master: Table,
    end: u128,
)
    requires
        persistence::laws::has_values_of(replica, applied, master, end),
        persistence::laws::ends_by(history, end),
        applied < u128::MAX,
        resp::laws::all_transmissible(persistence::laws::log_of(history)),
    ensures
        persistence::laws::has_values_of(
            model::after_events(
                resp::laws::events(
                    resp::model::encoded_all(persistence::laws::log_of(history)),
                ),
                replica,
                applied,
            ),
            applied,
            persistence::laws::after_history(history, master),
            end,
        ),
{
    let log = persistence::laws::log_of(history);
    resp::laws::law_stream_round_trip(log);
    assert(resp::laws::events(resp::model::encoded_all(log)) =~= seen(log));
    lemma_log_applies(history);
    lemma_applied_frames(log, replica, applied);
    persistence::laws::lemma_log_covers(history, replica, master, end, applied);
}

/// Without keys that expire, a replica follows its master exactly: where the two
/// hold the same values, they still do after the master has executed a history of
/// requests and the replica has applied those that the master passed on.
pub proof fn law_replica_follows_exactly(
    history: Seq<Executed>,
    replica: Table,
    master: Table,
    applied: u128,
)
    requires
        persistence::laws::same_values(replica, master),
        forall|i: int|
            0 <= i < history.len() ==> !persistence::laws::sets_ttl(#[trigger] history[i].frame),
        resp::laws::all_transmissible(persistence::laws::log_of(history)),
    ensures
        persistence::laws::same_values(
            model::after_events(
                resp::laws::events(
                    resp::model::encoded_all(persistence::laws::log_of(history)),
                ),
                replica,
                applied,
            ),
            persistence::laws::after_history(history, master),
        ),
{
    let log = persistence::laws::log_of(history);
    resp::laws::law_stream_round_trip(log);
    assert(resp::laws::events(resp::model::encoded_all(log)) =~= seen(log));
    lemma_log_applies(history);
    lemma_applied_frames(log, replica, applied);
    persistence::laws::lemma_log(history, replica, master, applied);
}

/// What is logged is applied.
proof fn lemma_log_applies(history: Seq<Executed>)
    ensures
        forall|i: int|
            0 <= i < persistence::laws::log_of(history).len() ==> model::applies(
                #[trigger] persistence::laws::log_of(history)[i],
            ),
    decreases history.len(),
{
    if history.len() > 0 {
        let front = persistence::laws::log_of(history.drop_last());
        let log = persistence::laws::log_of(history);
        lemma_log_applies(history.drop_last());
        assert forall|i: int| 0 <= i < log.len() implies model::applies(#[trigger] log[i]) by {
            if i < front.len() {
                assert(log[i] == front[i]);
            } else {
                assert(log[i] == history.last().frame);
            }
        }
    }
}

} // verus!
