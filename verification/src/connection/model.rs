//! The mathematical model of a connection: what is done about a request.
use crate::cluster;
use crate::cluster::model::Points;
use crate::cmd;
use crate::cmd::model::Cmd;
use crate::resp::model::Resp;
use crate::text;
use vstd::prelude::*;

verus! {

/// What is known of the node that gets a request.
pub struct Node {
    /// Is it part of a cluster?
    pub clustered: bool,
    /// The points of the ring.
    pub points: Points,
    /// Its address.
    pub address: Seq<char>,
    /// Does it send its data to replicas?
    pub master: bool,
}

/// What is done about a request.
pub enum Decision {
    /// It is answered at once.
    Answer(Resp),
    /// The connection becomes that of a replica.
    Sync,
    /// A snapshot is saved.
    Save,
    /// It is passed on to another node.
    Forward(Seq<char>),
    /// It is executed here.
    Execute(Cmd),
}

/// Does a request ask for the data of a master?
pub open spec fn is_sync(items: Seq<Resp>) -> bool {
    items.len() > 0 && (cmd::model::name_text(items[0]) matches Some(name) && text::upper_text(
        name,
    ) == "SYNC"@)
}

/// Where a command is passed on to, if it is.
pub open spec fn target_of(c: Cmd, node: Node) -> Option<Seq<char>> {
    match cmd::model::routed_by(c) {
        Some(key) => cluster::model::route(
            node.clustered,
            node.points,
            node.address,
            cluster::model::place(key),
        ),
        None => None,
    }
}

/// What is done about a command that belongs to the node at `target`, or to this
/// one.
pub open spec fn decide_target(c: Cmd, target: Option<Seq<char>>) -> Decision {
    if c is Bgsave {
        Decision::Save
    } else {
        match target {
            Some(address) => Decision::Forward(address),
            None => Decision::Execute(c),
        }
    }
}

/// What is done about a command.
pub open spec fn decide_command(c: Cmd, node: Node) -> Decision {
    decide_target(c, target_of(c, node))
}

/// What is done about a request.
pub open spec fn decide(frame: Resp, node: Node) -> Decision {
    match frame {
        Resp::Array(Some(items)) => if is_sync(items) {
            if node.master {
                Decision::Sync
            } else {
                Decision::Answer(Resp::Error("ERR SYNC not allowed: node is not a master"@))
            }
        } else {
            match cmd::model::command_of(items) {
                Err(message) => Decision::Answer(Resp::Error(message)),
                Ok(c) => decide_command(c, node),
            }
        },
        _ => Decision::Answer(
            Resp::Error(cmd::model::shows("ERR expected array, got "@, frame)),
        ),
    }
}

} // verus!
