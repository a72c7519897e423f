//! What a node does about the requests on a connection. Reading and writing, and
//! whatever else goes to disk or over the network, is left to the caller.
use crate::cluster::ClusterState;
use crate::cmd;
use crate::cmd::Command;
use crate::connection::model::{Decision, Node};
use crate::resp;
use crate::resp::laws::Event;
use crate::resp::model::Resp;
use crate::resp::parser::{RespBuffer, RespValue};
use crate::store;
use crate::store::model::Table;
use crate::store::Store;
use crate::text;
use vstd::prelude::*;
use vstd::string::*;

pub mod laws;
pub mod model;
pub mod records;
pub mod requests;

verus! {

/// What is to be done about a request.
#[derive(Debug)]
pub enum Action {
    /// Send a reply.
    Reply(Vec<u8>),
    /// A command has changed data: log the request and pass it to the replicas,
    /// and send the reply.
    ReplyAndRecord { reply: Vec<u8>, record: Vec<u8> },
    /// Hand the connection over to a replica.
    Sync,
    /// Save a snapshot, and tell how that went.
    Save,
    /// Send the request to the node at `target`, and pass its reply back.
    Forward { target: String, request: Vec<u8> },
}

/// What is known of a node.
pub open spec fn node_of(cluster: ClusterState, master: bool) -> Node {
    Node {
        clustered: cluster.enabled,
        points: cluster.ring@.points,
        address: cluster.current_addr@,
        master,
    }
}

/// Does a request ask for the data of a master?
fn is_sync(items: &Vec<RespValue>) -> (r: bool)
    ensures
        r == model::is_sync(resp::parser::views(items@)),
{
    if items.len() == 0 {
        return false;
    }
    match &items[0] {
        RespValue::BulkString(Some(bytes)) => is_sync_name(
            text::uppercase(text::utf8_lossy(bytes.as_slice()).as_str()).as_str(),
        ),
        RespValue::SimpleString(s) => is_sync_name(text::uppercase(s.as_str()).as_str()),
        _ => false,
    }
}

/// Is this the upper-case name of the request for the data of a master?
pub fn is_sync_name(name: &str) -> (r: bool)
    ensures
        r == (name@ == "SYNC"@),
{
    text::text_equal(name, "SYNC")
}

/// Carries out a command at the time `now`: it is passed on to the node at
/// `target`, where there is one, and executed here otherwise. `frame` is the
/// request.
pub fn carry_out_at(
    command: &Command,
    frame: &RespValue,
    store: &mut Store,
    target: Option<String>,
    now: u128,
) -> (r: Action)
    ensures
        done(
            r,
            model::decide_target(command@, text_of_option(target)),
            frame@,
            old(store)@,
            now,
        ),
        final(store)@ == left(
            model::decide_target(command@, text_of_option(target)),
            old(store)@,
            now,
        ),
        final(store).limit() == old(store).limit(),
        final(store).origin() == old(store).origin(),
{
    if let Command::Bgsave = command {
        return Action::Save;
    }
    match target {
        Some(target) => Action::Forward { target, request: frame.encode() },
        None => {
            let reply: Vec<u8> = cmd::execute_command_at(command, store, now);
            if command.is_modifying() {
                Action::ReplyAndRecord { reply, record: frame.encode() }
            } else {
                Action::Reply(reply)
            }
        },
    }
}

/// The text of a string, if there is one.
pub open spec fn text_of_option(s: Option<String>) -> Option<Seq<char>> {
    match s {
        Some(t) => Some(t@),
        None => None,
    }
}

/// Handles a command at the time `now`: what can be done here is done, and the
/// action says what is left to do. `frame` is the request.
pub fn handle_command_at(
    command: &Command,
    frame: &RespValue,
    store: &mut Store,
    cluster: &ClusterState,
    now: u128,
) -> (r: Action)
    requires
        cluster.wf(),
    ensures
        done(
            r,
            model::decide_command(command@, node_of(*cluster, false)),
            frame@,
            old(store)@,
            now,
        ),
        final(store)@ == left(
            model::decide_command(command@, node_of(*cluster, false)),
            old(store)@,
            now,
        ),
        final(store).limit() == old(store).limit(),
        final(store).origin() == old(store).origin(),
{
    let target: Option<String> = match command.routing_key() {
        Some(key) => cluster.route_key(key),
        None => None,
    };
    carry_out_at(command, frame, store, target, now)
}

/// The action is that of a decision about a request that is carried out at `now`
/// on a store with the given table.
pub open spec fn done(
    r: Action,
    d: Decision,
    frame: Resp,
    t: Table,
    now: u128,
) -> bool {
    match d {
        Decision::Answer(v) => r matches Action::Reply(reply) && reply@ == resp::model::encoded(v),
        Decision::Sync => r is Sync,
        Decision::Save => r is Save,
        Decision::Forward(address) => r matches Action::Forward { target, request } && target@
            == address && request@ == resp::model::encoded(frame),
        Decision::Execute(c) => {
            let answer = resp::model::encoded(cmd::model::reply(c, t, now));
            if cmd::model::modifies(c) {
                r matches Action::ReplyAndRecord { reply, record } && reply@ == answer && record@
                    == resp::model::encoded(frame)
            } else {
                r matches Action::Reply(reply) && reply@ == answer
            }
        },
    }
}

/// The table that a decision leaves that is carried out at `now`: only commands
/// that are executed here change it.
pub open spec fn left(
    d: Decision,
    t: Table,
    now: u128,
) -> Table {
    match d {
        Decision::Execute(c) => cmd::model::effect(c, t, now),
        _ => t,
    }
}

/// Handles a request at the time `now`: what can be done here is done, and the
/// action says what is left to do.
pub fn handle_frame_at(
    frame: &RespValue,
    store: &mut Store,
    cluster: &ClusterState,
    master: bool,
    now: u128,
) -> (r: Action)
    requires
        cluster.wf(),
    ensures
        done(r, model::decide(frame@, node_of(*cluster, master)), frame@, old(store)@, now),
        model::decide(frame@, node_of(*cluster, master)) matches Decision::Answer(v)
            ==> r matches Action::Reply(reply) && reply@ == resp::model::encoded(v)
            && cmd::model::is_whole_error(v),
        final(store)@ == left(
            model::decide(frame@, node_of(*cluster, master)),
            old(store)@,
            now,
        ),
        final(store).limit() == old(store).limit(),
        final(store).origin() == old(store).origin(),
{
    proof {
        laws::law_answers_are_whole(frame@, node_of(*cluster, master));
    }
    match frame {
        RespValue::Array(Some(items)) => {
            if is_sync(items) {
                if master {
                    return Action::Sync;
                }
                return Action::Reply(
                    RespValue::Error(
                        String::from_str("ERR SYNC not allowed: node is not a master"),
                    ).encode(),
                );
            }
            match cmd::parse_command(items.as_slice()) {
                Err(e) => Action::Reply(e.encode()),
                Ok(command) => handle_command_at(&command, frame, store, cluster, now),
            }
        },
        other => {
            let shown: String = text::unbreak(other.debug_string().as_str());
            Action::Reply(
                RespValue::Error(
                    String::from_str("ERR expected array, got ").concat(shown.as_str()),
                ).encode(),
            )
        },
    }
}

/// Handles a request: what can be done here is done, and the action says what is
/// left to do.
pub fn handle_frame(
    frame: &RespValue,
    store: &mut Store,
    cluster: &ClusterState,
    master: bool,
) -> (r: Action)
    requires
        cluster.wf(),
    ensures
        exists|now: u128|
            {
                &&& store::clock::is_reading(old(store).origin(), now)
                &&& done(
                    r,
                    model::decide(frame@, node_of(*cluster, master)),
                    frame@,
                    old(store)@,
                    now,
                )
                &&& final(store)@ == #[trigger] left(
                    model::decide(frame@, node_of(*cluster, master)),
                    old(store)@,
                    now,
                )
            },
        model::decide(frame@, node_of(*cluster, master)) matches Decision::Answer(v)
            ==> r matches Action::Reply(reply) && reply@ == resp::model::encoded(v)
            && cmd::model::is_whole_error(v),
        final(store).limit() == old(store).limit(),
        final(store).origin() == old(store).origin(),
{
    let now: u128 = store.now();
    handle_frame_at(frame, store, cluster, master, now)
}

/// What is seen of a stream up to and with a frame: errors, which are skipped,
/// and the frame.
pub open spec fn first_frame(es: Seq<Event>, n: int, v: Resp) -> bool {
    &&& 0 <= n < es.len()
    &&& es[n] == Event::Frame(v)
    &&& forall|i: int| 0 <= i < n ==> #[trigger] es[i] is Bad
}

/// Takes the next request out of what has arrived, if it is complete. Bytes that
/// are no RESP2 are skipped.
pub fn next_frame(buf: &mut RespBuffer) -> (r: Option<RespValue>)
    ensures
        resp::laws::leftover(final(buf)@) == resp::laws::leftover(old(buf)@),
        match r {
            Some(frame) => exists|n: int|
                {
                    &&& #[trigger] first_frame(resp::laws::events(old(buf)@), n, frame@)
                    &&& resp::laws::events(final(buf)@) == resp::laws::events(old(buf)@).skip(
                        n + 1,
                    )
                },
            None => {
                &&& final(buf)@ == resp::laws::leftover(old(buf)@)
                &&& forall|i: int|
                    0 <= i < resp::laws::events(old(buf)@).len() ==> #[trigger] resp::laws::events(
                        old(buf)@,
                    )[i] is Bad
            },
        },
{
    let ghost all = resp::laws::events(buf@);
    let ghost mut n: int = 0;
    assert(all.skip(0) =~= all);
    loop
        invariant
            all == resp::laws::events(old(buf)@),
            0 <= n <= all.len(),
            resp::laws::leftover(buf@) == resp::laws::leftover(old(buf)@),
            resp::laws::events(buf@) == all.skip(n),
            forall|i: int| 0 <= i < n ==> #[trigger] all[i] is Bad,
        decreases buf@.len(),
    {
        let ghost es = resp::laws::events(buf@);
        proof {
            resp::laws::law_frame_stable(buf@, Seq::empty());
            resp::laws::lemma_events_step(buf@);
            if es.len() > 0 {
                assert(es[0] == all[n]);
                assert(es.drop_first() =~= all.skip(n + 1));
            }
        }
        match buf.try_parse() {
            Ok(Some(frame)) => {
                assert(first_frame(all, n, frame@));
                return Some(frame);
            },
            Ok(None) => {
                return None;
            },
            Err(_) => {
                proof {
                    n = n + 1;
                }
            },
        }
    }
}

} // verus!
