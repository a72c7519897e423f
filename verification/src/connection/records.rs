//! What the recorded requests are good for: read back from a log or applied by a
//! replica, they do what executing the requests did.
use crate::cmd;
use crate::connection;
use crate::connection::model;
use crate::connection::model::{Decision, Node};
use crate::connection::requests;
use crate::connection::Action;
use crate::persistence;
use crate::persistence::laws::Executed;
use crate::replication;
use crate::resp;
use crate::resp::model::Resp;
use crate::store;
use crate::store::model::Table;
use vstd::prelude::*;

verus! {

/// What is recorded is one whole frame, and executing that frame does to any table
/// and at any time what the request does there and then.
pub proof fn law_record_does_what_the_request_does(
    r: Action,
    frame: Resp,
    node: Node,
    t: Table,
    now: u128,
    other: Table,
    then: u128,
)
    requires
        r is ReplyAndRecord,
        connection::done(r, model::decide(frame, node), frame, t, now),
        resp::laws::transmissible(frame),
    ensures
        resp::model::frame(r->record@) is Done,
        resp::model::frame(r->record@)->used == r->record@.len(),
        persistence::model::after_frame(resp::model::frame(r->record@)->value, other, then)
            == connection::left(model::decide(frame, node), other, then),
        persistence::model::replay(r->record@, other, then, 0).table == connection::left(
            model::decide(frame, node),
            other,
            then,
        ),
        persistence::model::replay(r->record@, other, then, 0).result is Ok,
        replication::model::after_events(resp::laws::events(r->record@), other, then)
            == connection::left(model::decide(frame, node), other, then),
{
    let bytes = resp::model::encoded(frame);
    let one = seq![frame];
    resp::laws::law_round_trip(frame, Seq::empty());
    assert(bytes + Seq::<u8>::empty() =~= bytes);
    assert(one.drop_last() =~= Seq::<Resp>::empty());
    assert(resp::model::encoded_all(one.drop_last()) =~= Seq::<u8>::empty());
    assert(resp::model::encoded_all(one) =~= bytes);
    assert(resp::laws::all_transmissible(one.drop_last()));
    assert(resp::laws::all_transmissible(one));
    persistence::laws::law_replay_cut_off(one, Seq::empty(), other, then);
    assert(persistence::model::after_frames(one.drop_last(), other, then) == other);
    assert(persistence::model::after_frames(one, other, then) == persistence::model::after_frame(
        frame,
        other,
        then,
    ));
    resp::laws::law_stream_round_trip(one);
    let es = resp::laws::events(bytes);
    assert(es.len() == 1);
    assert(es[0] == resp::laws::Event::Frame(frame));
    assert(es.drop_first() =~= Seq::<resp::laws::Event>::empty());
    let next = replication::model::after_event(es[0], other, then);
    assert(replication::model::after_events(es.drop_first(), next, then) == next);
    assert(replication::model::applies(frame));
}

/// What is not recorded has changed no value that can be read from then on.
pub proof fn law_unrecorded_requests_change_no_values(
    r: Action,
    frame: Resp,
    node: Node,
    t: Table,
    now: u128,
    key: Seq<u8>,
    later: u128,
)
    requires
        !(r is ReplyAndRecord),
        connection::done(r, model::decide(frame, node), frame, t, now),
        now <= later,
    ensures
        requests::readable(connection::left(model::decide(frame, node), t, now), key, later)
            == requests::readable(t, key, later),
        requests::readable(t, key, later) ==> connection::left(
            model::decide(frame, node),
            t,
            now,
        )[key].data == t[key].data,
{
}

/// A request that was handled, what was to be done about it, and when.
pub struct Handled {
    pub frame: Resp,
    pub action: Action,
    pub at: u128,
}

/// The table that a node has after it has handled requests.
pub open spec fn table_after(history: Seq<Handled>, node: Node, t: Table) -> Table
    decreases history.len(),
{
    if history.len() == 0 {
        t
    } else {
        connection::left(
            model::decide(history.last().frame, node),
            table_after(history.drop_last(), node, t),
            history.last().at,
        )
    }
}

/// Was each of the requests handled as it is by a node that starts with `t`?
pub open spec fn handled(history: Seq<Handled>, node: Node, t: Table) -> bool
    decreases history.len(),
{
    history.len() > 0 ==> {
        &&& handled(history.drop_last(), node, t)
        &&& connection::done(
            history.last().action,
            model::decide(history.last().frame, node),
            history.last().frame,
            table_after(history.drop_last(), node, t),
            history.last().at,
        )
    }
}

/// The bytes that were to be recorded, one record after another.
pub open spec fn records(history: Seq<Handled>) -> Seq<u8>
    decreases history.len(),
{
    if history.len() == 0 {
        Seq::empty()
    } else {
        records(history.drop_last()) + match history.last().action {
            Action::ReplyAndRecord { record, .. } => record@,
            _ => Seq::empty(),
        }
    }
}

/// How many records there are.
pub open spec fn record_count(history: Seq<Handled>) -> nat
    decreases history.len(),
{
    if history.len() == 0 {
        0
    } else {
        record_count(history.drop_last()) + if history.last().action is ReplyAndRecord {
            1nat
        } else {
            0nat
        }
    }
}

/// Were all requests handled by `end`, and can those be sent that were recorded?
pub open spec fn in_order(history: Seq<Handled>, end: u128) -> bool {
    forall|i: int|
        0 <= i < history.len() ==> (#[trigger] history[i]).at <= end && (
        history[i].action is ReplyAndRecord ==> resp::laws::transmissible(history[i].frame))
}

/// The requests that were executed here.
spec fn executed(history: Seq<Handled>, node: Node) -> Seq<Executed>
    decreases history.len(),
{
    if history.len() == 0 {
        Seq::empty()
    } else if model::decide(history.last().frame, node) is Execute {
        executed(history.drop_last(), node).push(
            Executed { frame: history.last().frame, at: history.last().at },
        )
    } else {
        executed(history.drop_last(), node)
    }
}

/// The records are the frames of the log, and the requests that are executed make
/// the table.
proof fn lemma_records(history: Seq<Handled>, node: Node, t: Table, end: u128)
    requires
        handled(history, node, t),
        in_order(history, end),
    ensures
        records(history) == resp::model::encoded_all(
            persistence::laws::log_of(executed(history, node)),
        ),
        record_count(history) == persistence::model::count_commands(
            persistence::laws::log_of(executed(history, node)),
        ),
        resp::laws::all_transmissible(persistence::laws::log_of(executed(history, node))),
        persistence::laws::after_history(executed(history, node), t) == table_after(
            history,
            node,
            t,
        ),
        persistence::laws::ends_by(executed(history, node), end),
    decreases history.len(),
{
    if history.len() > 0 {
        let front = history.drop_last();
        let last = history.last();
        assert forall|i: int| 0 <= i < front.len() implies (#[trigger] front[i]).at <= end && (
        front[i].action is ReplyAndRecord ==> resp::laws::transmissible(front[i].frame)) by {
            assert(front[i] == history[i]);
        }
        assert(history[history.len() - 1] == last);
        lemma_records(front, node, t, end);
        let a = executed(front, node);
        let b = executed(history, node);
        let log = persistence::laws::log_of(a);
        if let Decision::Execute(c) = model::decide(last.frame, node) {
            assert(b.drop_last() =~= a);
            assert(persistence::model::command_in(last.frame) == Some(c));
            if cmd::model::modifies(c) {
                assert(persistence::laws::log_of(b) == log.push(last.frame));
                assert(log.push(last.frame).drop_last() =~= log);
            } else {
                assert(records(history) =~= records(front));
            }
            assert forall|i: int| 0 <= i < b.len() implies (#[trigger] b[i]).at <= end by {
                if i < a.len() {
                    assert(b[i] == a[i]);
                }
            }
        } else {
            assert(records(history) =~= records(front));
        }
    }
}

/// The log restores the data: after what was recorded is read back into an empty
/// store, every key that could be read at the end can be read again, with the same
/// value; and every record was counted. (A key that had expired may come back, as
/// its time starts anew.)
pub proof fn law_records_restore(
    history: Seq<Handled>,
    node: Node,
    end: u128,
    replayed: u128,
    key: Seq<u8>,
)
    requires
        handled(history, node, Map::empty()),
        in_order(history, end),
        replayed < u128::MAX,
    ensures
        persistence::model::replay(records(history), Map::empty(), replayed, 0).result == Ok::<
            nat,
            resp::model::ErrorKind,
        >(record_count(history)),
        requests::readable(table_after(history, node, Map::empty()), key, end) ==> {
            let copy = persistence::model::replay(
                records(history),
                Map::empty(),
                replayed,
                0,
            ).table;
            &&& requests::readable(copy, key, replayed)
            &&& copy[key].data == table_after(history, node, Map::empty())[key].data
        },
{
    let h = executed(history, node);
    let log = persistence::laws::log_of(h);
    let source = table_after(history, node, Map::empty());
    lemma_records(history, node, Map::empty(), end);
    persistence::laws::law_log_restores(h, end, replayed);
    persistence::laws::law_replay_cut_off(log, Seq::empty(), Map::empty(), replayed);
    if requests::readable(source, key, end) {
        assert(store::model::live(source, key, end));
    }
}

/// A replica follows its master: where every key that can be read on the master
/// can be read on the replica, with the same value, that is still so after the
/// master has handled requests and the replica has applied what was recorded of
/// them.
pub proof fn law_records_keep_replicas(
    history: Seq<Handled>,
    node: Node,
    master: Table,
    end: u128,
    replica: Table,
    applied: u128,
    key: Seq<u8>,
)
    requires
        handled(history, node, master),
        in_order(history, end),
        applied < u128::MAX,
        forall|k: Seq<u8>| #[trigger]
            requests::readable(master, k, end) ==> requests::readable(replica, k, applied)
                && replica[k].data == master[k].data,
    ensures
        requests::readable(table_after(history, node, master), key, end) ==> {
            let copy = replication::model::after_events(
                resp::laws::events(records(history)),
                replica,
                applied,
            );
            &&& requests::readable(copy, key, applied)
            &&& copy[key].data == table_after(history, node, master)[key].data
        },
        resp::laws::leftover(records(history)) == Seq::<u8>::empty(),
{
    let h = executed(history, node);
    let log = persistence::laws::log_of(h);
    let source = table_after(history, node, master);
    lemma_records(history, node, master, end);
    assert forall|k: Seq<u8>| #[trigger]
        store::model::live(master, k, end) implies store::model::value_at(replica, k, applied)
        == store::model::value_at(master, k, end) by {
        assert(requests::readable(master, k, end));
    }
    replication::laws::law_replica_follows(h, replica, applied, master, end);
    resp::laws::law_stream_round_trip(log);
    if requests::readable(source, key, end) {
        assert(store::model::live(source, key, end));
    }
}

/// The requests that are executed are among those that were handled.
proof fn lemma_executed(history: Seq<Handled>, node: Node)
    requires
        forall|i: int|
            0 <= i < history.len() ==> !persistence::laws::sets_ttl(#[trigger] history[i].frame),
    ensures
        forall|i: int|
            0 <= i < executed(history, node).len() ==> !persistence::laws::sets_ttl(
                #[trigger] executed(history, node)[i].frame,
            ),
    decreases history.len(),
{
    if history.len() > 0 {
        let front = history.drop_last();
        let a = executed(front, node);
        let b = executed(history, node);
        assert forall|i: int| 0 <= i < front.len() implies !persistence::laws::sets_ttl(
            #[trigger] front[i].frame,
        ) by {
            assert(front[i] == history[i]);
        }
        lemma_executed(front, node);
        assert(!persistence::laws::sets_ttl(history[history.len() - 1].frame));
        assert forall|i: int| 0 <= i < b.len() implies !persistence::laws::sets_ttl(
            #[trigger] b[i].frame,
        ) by {
            if i < a.len() {
                assert(b[i] == a[i]);
            }
        }
    }
}

/// Without keys that expire, the log restores the data exactly: what was recorded
/// gives, when it is read back into an empty store, the keys that there were at the
/// end, and no others, with the same values.
pub proof fn law_records_restore_exactly(
    history: Seq<Handled>,
    node: Node,
    end: u128,
    replayed: u128,
    key: Seq<u8>,
)
    requires
        handled(history, node, Map::empty()),
        in_order(history, end),
        forall|i: int|
            0 <= i < history.len() ==> !persistence::laws::sets_ttl(#[trigger] history[i].frame),
    ensures
        ({
            let copy = persistence::model::replay(
                records(history),
                Map::empty(),
                replayed,
                0,
            ).table;
            let source = table_after(history, node, Map::empty());
            &&& copy.contains_key(key) == source.contains_key(key)
            &&& source.contains_key(key) ==> copy[key].data == source[key].data
                && copy[key].expires_at is None && source[key].expires_at is None
        }),
{
    let h = executed(history, node);
    lemma_records(history, node, Map::empty(), end);
    lemma_executed(history, node);
    persistence::laws::law_log_restores_exactly(h, replayed);
    let copy = persistence::model::replay(records(history), Map::empty(), replayed, 0).table;
    let source = table_after(history, node, Map::empty());
    assert(persistence::laws::same_values(copy, source));
    assert(copy.dom().contains(key) == source.dom().contains(key));
}

/// Without keys that expire, a replica follows its master exactly: where the two
/// have the same keys with the same values, they still do after the master has
/// handled requests and the replica has applied what was recorded of them.
pub proof fn law_records_keep_replicas_exactly(
    history: Seq<Handled>,
    node: Node,
    master: Table,
    end: u128,
    replica: Table,
    applied: u128,
    key: Seq<u8>,
)
    requires
        handled(history, node, master),
        in_order(history, end),
        forall|i: int|
            0 <= i < history.len() ==> !persistence::laws::sets_ttl(#[trigger] history[i].frame),
        forall|k: Seq<u8>| #[trigger] replica.contains_key(k) == master.contains_key(k),
        forall|k: Seq<u8>| #[trigger]
            replica.contains_key(k) ==> replica[k].data == master[k].data && replica[k].expires_at
                is None && master[k].expires_at is None,
    ensures
        ({
            let copy = replication::model::after_events(
                resp::laws::events(records(history)),
                replica,
                applied,
            );
            let source = table_after(history, node, master);
            &&& copy.contains_key(key) == source.contains_key(key)
            &&& source.contains_key(key) ==> copy[key].data == source[key].data
                && copy[key].expires_at is None && source[key].expires_at is None
        }),
{
    let h = executed(history, node);
    lemma_records(history, node, master, end);
    lemma_executed(history, node);
    assert forall|k: Seq<u8>| replica.dom().contains(k) == master.dom().contains(k) by {
        assert(replica.contains_key(k) == master.contains_key(k));
    }
    assert(replica.dom() =~= master.dom());
    assert(persistence::laws::same_values(replica, master));
    replication::laws::law_replica_follows_exactly(h, replica, master, applied);
    let copy = replication::model::after_events(
        resp::laws::events(records(history)),
        replica,
        applied,
    );
    let source = table_after(history, node, master);
    assert(persistence::laws::same_values(copy, source));
    assert(copy.dom().contains(key) == source.dom().contains(key));
}

/// A request sets a key that expires exactly if it is understood as a SET with a
/// time to live.
pub proof fn law_requests_that_expire(items: Seq<Resp>, frame: Resp)
    ensures
        persistence::laws::sets_ttl(Resp::Array(Some(items))) <==> cmd::model::command_of(items)
            is Ok && cmd::model::command_of(items)->Ok_0 is SetKey && cmd::model::command_of(
            items,
        )->Ok_0->ttl_secs is Some,
        !(frame is Array) || frame->Array_0 is None ==> !persistence::laws::sets_ttl(frame),
{
}

} // verus!
