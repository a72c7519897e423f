//! What a replica makes of the stream of its master, piece by piece.
use crate::cmd;
use crate::persistence;
use crate::replication;
use crate::replication::model;
use crate::replication::{ReplicationConfig, ReplicationRole};
use crate::resp;
use crate::resp::laws::Event;
use crate::resp::model::{ErrorKind, Resp};
use crate::store::model::Table;
use vstd::prelude::*;

verus! {

/// The stream of a master begins with its snapshot, and a marker behind it:
/// `+SYNC_DONE`.
pub proof fn law_first_stream(entries: Seq<(Seq<u8>, Seq<u8>, Option<u64>)>)
    ensures
        model::sync_done() == Resp::SimpleString("SYNC_DONE"@),
        model::sync_bytes(entries) == persistence::model::snapshot_bytes(entries)
            + resp::model::encoded(Resp::SimpleString("SYNC_DONE"@)),
{
}

/// A replica applies the commands that set or delete keys, and does nothing about
/// any other frame, nor about errors.
pub proof fn law_applied_events(v: Resp, code: ErrorKind, t: Table, now: u128)
    ensures
        model::applies(v) <==> persistence::model::command_in(v) is Some && (
        persistence::model::command_in(v)->0 is SetKey || persistence::model::command_in(v)->0
            is Del),
        model::applies(v) ==> model::after_event(Event::Frame(v), t, now) == cmd::model::effect(
            persistence::model::command_in(v)->0,
            t,
            now,
        ),
        !model::applies(v) ==> model::after_event(Event::Frame(v), t, now) == t,
        model::after_event(Event::Bad(code), t, now) == t,
{
}

/// What is seen is applied in its order, and counted: the commands that are
/// applied, the errors, and whether the marker is among it.
pub proof fn law_stream_step(e: Event, es: Seq<Event>, t: Table, now: u128)
    ensures
        model::after_events(Seq::empty(), t, now) == t,
        model::after_events(seq![e] + es, t, now) == model::after_events(
            es,
            model::after_event(e, t, now),
            now,
        ),
        model::count_applied(Seq::empty()) == 0,
        model::count_applied(seq![e] + es) == model::count_applied(es) + if e is Frame
            && model::applies(e->Frame_0) {
            1nat
        } else {
            0nat
        },
        model::count_errors(Seq::empty()) == 0,
        model::count_errors(seq![e] + es) == model::count_errors(es) + if e is Bad {
            1nat
        } else {
            0nat
        },
        !model::sees_sync_done(Seq::empty()),
        model::sees_sync_done(seq![e] + es) <==> e == Event::Frame(
            Resp::SimpleString("SYNC_DONE"@),
        ) || model::sees_sync_done(es),
{
    let all = seq![e] + es;
    let mark = Event::Frame(model::sync_done());
    assert(all.drop_first() =~= es);
    if es.contains(mark) {
        let i = choose|i: int| 0 <= i < es.len() && es[i] == mark;
        assert(all[i + 1] == mark);
    }
    if all.contains(mark) {
        let i = choose|i: int| 0 <= i < all.len() && all[i] == mark;
        if i > 0 {
            assert(es[i - 1] == mark);
        }
    }
    if e == mark {
        assert(all[0] == mark);
    }
}

/// The roles: a master follows nobody, and a replica follows the address that it is
/// given, or a default. Any other word is no role.
pub proof fn law_roles(role: Seq<char>, master: Seq<char>, addr: String)
    ensures
        replication::role_of("master"@, Some(master)) == Some(None::<Seq<char>>),
        replication::role_of("master"@, None) == Some(None::<Seq<char>>),
        replication::role_of("replica"@, Some(master)) == Some(Some(master)),
        replication::role_of("replica"@, None) == Some(Some("127.0.0.1:8080"@)),
        role != "master"@ && role != "replica"@ ==> replication::role_of(role, None) is None
            && replication::role_of(role, Some(master)) is None,
        (ReplicationConfig { role: ReplicationRole::Master }).follows() is None,
        (ReplicationConfig {
            role: ReplicationRole::Replica { master_addr: addr },
        }).follows() == Some(addr@),
{
    reveal_strlit("master");
    reveal_strlit("replica");
    assert("master"@.len() != "replica"@.len());
}

} // verus!
