//! The mathematical model of what is written to disk and how it is read back.
use crate::cmd;
use crate::cmd::model::Cmd;
use crate::resp;
use crate::resp::model::{ErrorKind, Outcome, Resp};
use crate::store::model::Table;
use vstd::prelude::*;

verus! {

/// The command that a frame stands for, if it is one.
pub open spec fn command_in(v: Resp) -> Option<Cmd> {
    match v {
        Resp::Array(Some(items)) => match cmd::model::command_of(items) {
            Ok(c) => Some(c),
            Err(_) => None,
        },
        _ => None,
    }
}

/// The table after a frame was executed at `now`; a frame that is no command
/// changes nothing.
pub open spec fn after_frame(v: Resp, t: Table, now: u128) -> Table {
    match command_in(v) {
        Some(c) => cmd::model::effect(c, t, now),
        None => t,
    }
}

/// The table after frames were executed one after another, all at `now`.
pub open spec fn after_frames(items: Seq<Resp>, t: Table, now: u128) -> Table
    decreases items.len(),
{
    if items.len() == 0 {
        t
    } else {
        after_frame(items.last(), after_frames(items.drop_last(), t, now), now)
    }
}

/// How many of the frames are commands.
pub open spec fn count_commands(items: Seq<Resp>) -> nat
    decreases items.len(),
{
    if items.len() == 0 {
        0
    } else {
        count_commands(items.drop_last()) + if command_in(items.last()) is Some {
            1nat
        } else {
            0
        }
    }
}

/// What comes of reading back a file: the number of commands that were
/// executed, or why reading stopped; and the table.
pub struct Replayed {
    pub result: Result<nat, ErrorKind>,
    pub table: Table,
}

/// Reads a file from its front and executes the commands in it at `now`, until
/// what is left is no whole frame. It stops at bytes that are no RESP2.
pub open spec fn replay(b: Seq<u8>, t: Table, now: u128, count: nat) -> Replayed
    decreases b.len(),
{
    match resp::model::frame(b) {
        Outcome::Done { value, used } if 1 <= used <= b.len() => replay(
            b.skip(used as int),
            after_frame(value, t, now),
            now,
            count + if command_in(value) is Some {
                1nat
            } else {
                0
            },
        ),
        Outcome::Invalid { code, at } => Replayed { result: Err(code), table: t },
        _ => Replayed { result: Ok(count), table: t },
    }
}

/// The frame by which a snapshot sets a key.
pub open spec fn set_frame(e: (Seq<u8>, Seq<u8>, Option<u64>)) -> Resp {
    Resp::Array(Some(cmd::laws::set_request(e.0, e.1, e.2)))
}

/// The frames of a snapshot.
pub open spec fn snapshot_frames(entries: Seq<(Seq<u8>, Seq<u8>, Option<u64>)>) -> Seq<Resp> {
    entries.map_values(|e: (Seq<u8>, Seq<u8>, Option<u64>)| set_frame(e))
}

/// The bytes of a snapshot.
pub open spec fn snapshot_bytes(entries: Seq<(Seq<u8>, Seq<u8>, Option<u64>)>) -> Seq<u8> {
    resp::model::encoded_all(snapshot_frames(entries))
}

} // verus!
