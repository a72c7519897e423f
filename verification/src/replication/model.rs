//! The mathematical model of a replica: what it makes of the stream that its
//! master sends.
use crate::cmd;
use crate::persistence;
use crate::resp;
use crate::resp::laws::Event;
use crate::resp::model::Resp;
use crate::store::model::Table;
use vstd::prelude::*;

verus! {

/// The marker that ends the snapshot in a stream.
pub open spec fn sync_done() -> Resp {
    Resp::SimpleString("SYNC_DONE"@)
}

/// What a master sends first: a snapshot and the marker that ends it.
pub open spec fn sync_bytes(entries: Seq<(Seq<u8>, Seq<u8>, Option<u64>)>) -> Seq<u8> {
    persistence::model::snapshot_bytes(entries) + resp::model::encoded(sync_done())
}

/// Does a replica apply a frame? Only commands that change data.
pub open spec fn applies(v: Resp) -> bool {
    persistence::model::command_in(v) matches Some(c) && cmd::model::modifies(c)
}

/// Does a replica apply what it sees?
pub open spec fn applies_event(e: Event) -> bool {
    e matches Event::Frame(v) && applies(v)
}

/// The table of a replica after what it sees at `now`.
pub open spec fn after_event(e: Event, t: Table, now: u128) -> Table {
    match e {
        Event::Frame(v) => if applies(v) {
            persistence::model::after_frame(v, t, now)
        } else {
            t
        },
        Event::Bad(_) => t,
    }
}

/// The table of a replica after all it sees at `now`, in that order.
pub open spec fn after_events(es: Seq<Event>, t: Table, now: u128) -> Table
    decreases es.len(),
{
    if es.len() == 0 {
        t
    } else {
        after_events(es.drop_first(), after_event(es[0], t, now), now)
    }
}

/// How many commands are applied.
pub open spec fn count_applied(es: Seq<Event>) -> nat
    decreases es.len(),
{
    if es.len() == 0 {
        0
    } else {
        count_applied(es.drop_first()) + if applies_event(es[0]) {
            1nat
        } else {
            0
        }
    }
}

/// How many errors are seen.
pub open spec fn count_errors(es: Seq<Event>) -> nat
    decreases es.len(),
{
    if es.len() == 0 {
        0
    } else {
        count_errors(es.drop_first()) + if es[0] is Bad {
            1nat
        } else {
            0
        }
    }
}

/// Is the end of the snapshot seen?
pub open spec fn sees_sync_done(es: Seq<Event>) -> bool {
    es.contains(Event::Frame(sync_done()))
}

} // verus!
