//! Replication from a master to its replicas.
//!
//! A replica connects to its master and sends `SYNC`. The master answers with a
//! snapshot of its data, as SET requests, then with a marker, and from then on
//! with every command that changes data. The replica applies what it gets to its
//! own store.
use crate::cmd;
use crate::persistence;
use crate::resp;
use crate::resp::laws::Event;
use crate::resp::model::Resp;
use crate::resp::parser::{RespBuffer, RespValue};
use crate::store;
use crate::store::Store;
use crate::text;
use vstd::prelude::*;
use vstd::string::*;
use vstd::utf8::*;

pub mod laws;
pub mod model;
pub mod stream;

verus! {

/// The role of a node.
#[derive(Debug, Clone, PartialEq)]
pub enum ReplicationRole {
    /// Sends its data to replicas.
    Master,
    /// Follows a master.
    Replica { master_addr: String },
}

/// How a node takes part in replication.
#[derive(Debug, Clone)]
pub struct ReplicationConfig {
    pub role: ReplicationRole,
}

/// What settings say of a node's role: `role` is the lower-case text of the role.
pub open spec fn role_of(role: Seq<char>, master: Option<Seq<char>>) -> Option<Option<Seq<char>>> {
    if role == "master"@ {
        Some(None)
    } else if role == "replica"@ {
        Some(
            Some(
                match master {
                    Some(addr) => addr,
                    None => "127.0.0.1:8080"@,
                },
            ),
        )
    } else {
        None
    }
}

impl ReplicationConfig {
    /// The address of the master that a replica follows; a master has none.
    pub open spec fn follows(&self) -> Option<Seq<char>> {
        match self.role {
            ReplicationRole::Master => None,
            ReplicationRole::Replica { master_addr } => Some(master_addr@),
        }
    }

    /// Reads the settings of a node, where `role` is given in lower case. An
    /// unknown role switches replication off.
    pub fn from_role(role: &str, master: Option<String>) -> (r: Option<Self>)
        ensures
            match role_of(
                role@,
                match master {
                    Some(addr) => Some(addr@),
                    None => None,
                },
            ) {
                Some(follows) => r matches Some(config) && config.follows() == follows,
                None => r is None,
            },
    {
        if text::text_equal(role, "master") {
            Some(ReplicationConfig { role: ReplicationRole::Master })
        } else if text::text_equal(role, "replica") {
            let master_addr: String = match master {
                Some(addr) => addr,
                None => String::from_str("127.0.0.1:8080"),
            };
            Some(ReplicationConfig { role: ReplicationRole::Replica { master_addr } })
        } else {
            None
        }
    }

    /// Reads the settings of a node: its role, in upper or lower case, and the
    /// address of its master. Without a role, replication is off.
    pub fn from_settings(role: Option<String>, master: Option<String>) -> (r: Option<Self>)
        ensures
            match role {
                None => r is None,
                Some(text) => match role_of(
                    text::lower_text(text@),
                    match master {
                        Some(addr) => Some(addr@),
                        None => None,
                    },
                ) {
                    Some(follows) => r matches Some(config) && config.follows() == follows,
                    None => r is None,
                },
            },
    {
        match role {
            None => None,
            Some(name) => {
                let lower: String = text::lowercase(name.as_str());
                Self::from_role(lower.as_str(), master)
            },
        }
    }
}

/// The request by which a replica asks its master for the data.
pub fn sync_request() -> (r: Vec<u8>)
    ensures
        r@ == resp::model::encoded(
            Resp::Array(Some(seq![Resp::BulkString(Some(encode_utf8("SYNC"@)))])),
        ),
{
    let mut items: Vec<RespValue> = Vec::new();
    items.push(RespValue::BulkString(Some(vstd::slice::slice_to_vec("SYNC".as_bytes()))));
    assert(resp::parser::views(items@) =~= seq![Resp::BulkString(Some(encode_utf8("SYNC"@)))]);
    RespValue::Array(Some(items)).encode()
}

/// What a master sends first: a snapshot of the given entries and the marker
/// that ends it.
pub fn sync_stream(entries: &Vec<(Vec<u8>, Vec<u8>, Option<u64>)>) -> (r: Vec<u8>)
    ensures
        r@ == model::sync_bytes(store::entry_views(entries@)),
{
    let mut out: Vec<u8> = persistence::encode_snapshot(entries);
    let marker: Vec<u8> = RespValue::SimpleString(String::from_str("SYNC_DONE")).encode();
    let ghost snapshot = out@;
    out.extend_from_slice(marker.as_slice());
    assert(out@ =~= snapshot + marker@);
    out
}

/// What came of a piece of the stream from the master.
#[derive(Debug, Clone, Copy, PartialEq, Eq, Structural)]
pub struct Progress {
    /// How many commands were applied.
    pub applied: usize,
    /// How many times bytes were skipped that are no RESP2.
    pub errors: usize,
    /// Was the marker seen that ends the snapshot?
    pub snapshot_done: bool,
}

/// Applies a frame from the master at the time `now`, if it is a command that
/// changes data.
fn apply_frame_at(frame: &RespValue, store: &mut Store, now: u128) -> (r: bool)
    ensures
        r == model::applies(frame@),
        final(store)@ == model::after_event(Event::Frame(frame@), old(store)@, now),
        final(store).limit() == old(store).limit(),
        final(store).origin() == old(store).origin(),
{
    if let RespValue::Array(Some(items)) = frame {
        if let Ok(command) = cmd::parse_command(items.as_slice()) {
            if command.is_modifying() {
                cmd::execute_command_at(&command, store, now);
                return true;
            }
        }
    }
    false
}

/// Is this the marker that ends the snapshot?
fn is_sync_done(frame: &RespValue) -> (r: bool)
    ensures
        r == (frame@ == model::sync_done()),
{
    match frame {
        RespValue::SimpleString(s) => text::text_equal(s.as_str(), "SYNC_DONE"),
        _ => false,
    }
}

/// Applies what has arrived from the master at the time `now`, as far as it is
/// complete.
pub fn apply_stream_at(buf: &mut RespBuffer, store: &mut Store, now: u128) -> (r: Progress)
    ensures
        final(buf)@ == resp::laws::leftover(old(buf)@),
        final(store)@ == model::after_events(
            resp::laws::events(old(buf)@),
            old(store)@,
            now,
        ),
        final(store).limit() == old(store).limit(),
        final(store).origin() == old(store).origin(),
        r.applied == model::count_applied(resp::laws::events(old(buf)@)),
        r.errors == model::count_errors(resp::laws::events(old(buf)@)),
        r.snapshot_done == model::sees_sync_done(resp::laws::events(old(buf)@)),
{
    let mut progress: Progress = Progress { applied: 0, errors: 0, snapshot_done: false };
    let size: usize = buf.pending().len();
    let ghost all = resp::laws::events(buf@);
    loop
        invariant
            all == resp::laws::events(old(buf)@),
            resp::laws::leftover(buf@) == resp::laws::leftover(old(buf)@),
            model::after_events(resp::laws::events(buf@), store@, now) == model::after_events(
                all,
                old(store)@,
                now,
            ),
            store.limit() == old(store).limit(),
            store.origin() == old(store).origin(),
            progress.applied + progress.errors + buf@.len() <= size,
            progress.applied + model::count_applied(resp::laws::events(buf@))
                == model::count_applied(all),
            progress.errors + model::count_errors(resp::laws::events(buf@)) == model::count_errors(
                all,
            ),
            (progress.snapshot_done || model::sees_sync_done(resp::laws::events(buf@)))
                == model::sees_sync_done(all),
        decreases buf@.len(),
    {
        let ghost b = buf@;
        let ghost es = resp::laws::events(b);
        proof {
            resp::laws::law_frame_stable(b, Seq::empty());
            resp::laws::lemma_events_step(b);
        }
        match buf.try_parse() {
            Ok(None) => {
                return progress;
            },
            Err(_) => {
                proof {
                    lemma_first_event(es);
                }
                progress.errors = progress.errors + 1;
            },
            Ok(Some(frame)) => {
                proof {
                    lemma_first_event(es);
                }
                if is_sync_done(&frame) {
                    progress.snapshot_done = true;
                }
                if apply_frame_at(&frame, store, now) {
                    progress.applied = progress.applied + 1;
                }
            },
        }
    }
}

/// The end of the snapshot is seen first or later.
proof fn lemma_first_event(es: Seq<Event>)
    requires
        es.len() > 0,
    ensures
        model::sees_sync_done(es) == (es[0] == Event::Frame(model::sync_done())
            || model::sees_sync_done(es.drop_first())),
{
    let mark = Event::Frame(model::sync_done());
    if model::sees_sync_done(es) {
        let i = choose|i: int| 0 <= i < es.len() && es[i] == mark;
        if i > 0 {
            assert(es.drop_first()[i - 1] == mark);
        }
    }
    if model::sees_sync_done(es.drop_first()) {
        let i = choose|i: int| 0 <= i < es.len() - 1 && es.drop_first()[i] == mark;
        assert(es[i + 1] == mark);
    }
}

/// Applies what has arrived from the master, as far as it is complete.
pub fn apply_stream(buf: &mut RespBuffer, store: &mut Store) -> (r: Progress)
    ensures
        final(buf)@ == resp::laws::leftover(old(buf)@),
        exists|now: u128|
            store::clock::is_reading(old(store).origin(), now) && final(store)@
                == #[trigger] model::after_events(
                resp::laws::events(old(buf)@),
                old(store)@,
                now,
            ),
        final(store).limit() == old(store).limit(),
        final(store).origin() == old(store).origin(),
        r.applied == model::count_applied(resp::laws::events(old(buf)@)),
        r.errors == model::count_errors(resp::laws::events(old(buf)@)),
        r.snapshot_done == model::sees_sync_done(resp::laws::events(old(buf)@)),
{
    let now: u128 = store.now();
    apply_stream_at(buf, store, now)
}

} // verus!
