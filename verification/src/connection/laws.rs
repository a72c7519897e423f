//! What holds of the handling of requests.
use crate::cluster;
use crate::cmd;
use crate::connection;
use crate::connection::model;
use crate::connection::model::{Decision, Node};
use crate::persistence;
use crate::resp::model::Resp;
use crate::store;
use crate::store::model::Table;
use crate::text;
use vstd::prelude::*;
use vstd::utf8::*;

verus! {

/// The request of a replica is recognised: a master hands the connection over,
/// and any other node refuses.
pub proof fn law_sync_request(node: Node)
    ensures
        model::decide(
            Resp::Array(Some(seq![Resp::BulkString(Some(encode_utf8("SYNC"@)))])),
            node,
        ) == if node.master {
            Decision::Sync
        } else {
            Decision::Answer(Resp::Error("ERR SYNC not allowed: node is not a master"@))
        },
{
    reveal_strlit("SYNC");
    text::lemma_upper_literal("SYNC"@);
}

/// A request that is refused is answered with one whole error frame, whatever it
/// holds.
pub proof fn law_answers_are_whole(frame: Resp, node: Node)
    ensures
        model::decide(frame, node) matches Decision::Answer(v) ==> cmd::model::is_whole_error(v),
{
    let sync = "ERR SYNC not allowed: node is not a master"@;
    let shown = cmd::model::shows("ERR expected array, got "@, frame);
    reveal_strlit("ERR ");
    reveal_strlit("ERR SYNC not allowed: node is not a master");
    reveal_strlit("ERR expected array, got ");
    cmd::laws::law_error_frame(sync);
    cmd::laws::lemma_shown_message("ERR expected array, got "@, frame);
    cmd::laws::law_error_frame(shown);
    if let Resp::Array(Some(items)) = frame {
        cmd::laws::law_errors_can_be_sent(items);
    }
}

/// Only a request that is executed here and is recorded changes a value that can
/// be read from then on. So what is recorded is all that a log and replicas need.
pub proof fn law_only_recorded_requests_change_values(
    frame: Resp,
    node: Node,
    t: Table,
    now: u128,
    key: Seq<u8>,
    later: u128,
)
    requires
        now <= later,
        !(model::decide(frame, node) matches Decision::Execute(c) && cmd::model::modifies(c)),
    ensures
        store::model::value_at(
            connection::left(model::decide(frame, node), t, now),
            key,
            later,
        ) == store::model::value_at(t, key, later),
{
    if let Decision::Execute(c) = model::decide(frame, node) {
        cmd::laws::law_only_modifying_commands_change_values(c, t, now, key, later);
    }
}

/// A request that is executed here does what reading it back from a log does.
pub proof fn law_execute_is_replay(frame: Resp, node: Node, t: Table, now: u128)
    requires
        model::decide(frame, node) is Execute,
    ensures
        connection::left(model::decide(frame, node), t, now) == persistence::model::after_frame(
            frame,
            t,
            now,
        ),
{
}

/// A node on its own passes nothing on.
pub proof fn law_alone_forwards_nothing(frame: Resp, node: Node)
    requires
        !node.clustered,
    ensures
        !(model::decide(frame, node) is Forward),
{
}

/// The node that a request is passed on to, with the same ring, executes it.
pub proof fn law_forwarded_is_executed(frame: Resp, node: Node, there: Node)
    requires
        node.clustered,
        there.points == node.points,
        model::decide(frame, node) matches Decision::Forward(a) && there.address == a,
    ensures
        model::decide(frame, there) is Execute,
{
    if let Resp::Array(Some(items)) = frame {
        if let Ok(c) = cmd::model::command_of(items) {
            if let Some(k) = cmd::model::routed_by(c) {
                cluster::laws::law_passed_on_once(
                    node.points,
                    node.address,
                    cluster::model::place(k),
                );
            }
        }
    }
}

} // verus!
