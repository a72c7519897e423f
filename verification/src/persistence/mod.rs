//! Persistence: snapshots of all data, and a log of the commands that change
//! data.
//!
//! A snapshot is a sequence of RESP2 requests `SET key value EX ttl`, and the log
//! is a sequence of the requests that changed data, so that both are read back
//! like a stream of requests. Where the log is in use, only the log is read back.
use crate::cmd;
use crate::resp;
use crate::resp::model::{ErrorKind, Resp};
use crate::resp::parser;
use crate::resp::parser::{RespBuffer, RespValue};
use crate::store;
use crate::store::Store;
use crate::text;
use vstd::prelude::*;
use vstd::slice::*;
use vstd::string::*;
use vstd::utf8::*;

pub mod files;
pub mod laws;
pub mod model;

verus! {

/// Where and how data is kept on disk.
#[derive(Debug, Clone)]
pub struct PersistenceConfig {
    /// The directory of the data files.
    pub data_dir: String,
    /// The name of the snapshot file.
    pub rdb_filename: String,
    /// The name of the log file.
    pub aof_filename: String,
    /// The seconds between two snapshots; 0 for none.
    pub snapshot_interval_secs: u64,
    /// Is the log in use?
    pub aof_enabled: bool,
}

impl Default for PersistenceConfig {
    fn default() -> (r: Self)
        ensures
            r.data_dir@ == "./data"@,
            r.rdb_filename@ == "dump.rdb"@,
            r.aof_filename@ == "appendonly.aof"@,
            r.snapshot_interval_secs == 60,
            r.aof_enabled,
    {
        PersistenceConfig {
            data_dir: String::from_str("./data"),
            rdb_filename: String::from_str("dump.rdb"),
            aof_filename: String::from_str("appendonly.aof"),
            snapshot_interval_secs: 60,
            aof_enabled: true,
        }
    }
}

/// Which file is read back when the server starts.
#[derive(Debug, Clone, Copy, PartialEq, Eq, Structural)]
pub enum LoadSource {
    Aof,
    Rdb,
    Nothing,
}

impl PersistenceConfig {
    /// Which file is read back: where the log is in use, only the log, which is
    /// more precise; otherwise the snapshot. A file that is not there is not
    /// read.
    pub fn load_source(&self, aof_exists: bool, rdb_exists: bool) -> (r: LoadSource)
        ensures
            r == if self.aof_enabled && aof_exists {
                LoadSource::Aof
            } else if !self.aof_enabled && rdb_exists {
                LoadSource::Rdb
            } else {
                LoadSource::Nothing
            },
    {
        if self.aof_enabled {
            if aof_exists {
                LoadSource::Aof
            } else {
                LoadSource::Nothing
            }
        } else if rdb_exists {
            LoadSource::Rdb
        } else {
            LoadSource::Nothing
        }
    }

    /// What is appended to the log for a frame that changed data: the frame as
    /// it is, if the log is in use.
    pub fn log_record(&self, frame: &RespValue) -> (r: Option<Vec<u8>>)
        ensures
            self.aof_enabled ==> (r matches Some(bytes) && bytes@ == resp::model::encoded(frame@)),
            !self.aof_enabled ==> r is None,
    {
        if self.aof_enabled {
            Some(frame.encode())
        } else {
            None
        }
    }

    /// Are snapshots taken in the background?
    pub fn snapshots_enabled(&self) -> (r: bool)
        ensures
            r == (self.snapshot_interval_secs > 0),
    {
        self.snapshot_interval_secs > 0
    }
}

/// A bulk string.
fn bulk(data: &[u8]) -> (r: RespValue)
    ensures
        r@ == Resp::BulkString(Some(data@)),
{
    RespValue::BulkString(Some(slice_to_vec(data)))
}

/// The frame by which a snapshot sets a key.
pub fn set_frame(key: &[u8], value: &[u8], ttl_secs: Option<u64>) -> (r: RespValue)
    ensures
        r@ == model::set_frame((key@, value@, ttl_secs)),
{
    let mut items: Vec<RespValue> = Vec::new();
    items.push(bulk("SET".as_bytes()));
    items.push(bulk(key));
    items.push(bulk(value));
    if let Some(ttl) = ttl_secs {
        items.push(bulk("EX".as_bytes()));
        items.push(RespValue::BulkString(Some(text::decimal_bytes(ttl))));
    }
    assert(parser::views(items@) =~= cmd::laws::set_request(key@, value@, ttl_secs));
    RespValue::Array(Some(items))
}

/// The bytes of a snapshot of the given entries.
pub fn encode_snapshot(entries: &Vec<(Vec<u8>, Vec<u8>, Option<u64>)>) -> (r: Vec<u8>)
    ensures
        r@ == model::snapshot_bytes(store::entry_views(entries@)),
{
    let ghost frames = model::snapshot_frames(store::entry_views(entries@));
    let mut buf: Vec<u8> = Vec::new();
    let mut i: usize = 0;
    assert(frames.take(0) =~= Seq::<Resp>::empty());
    assert(buf@ =~= resp::model::encoded_all(frames.take(0)));
    while i < entries.len()
        invariant
            i <= entries@.len(),
            frames == model::snapshot_frames(store::entry_views(entries@)),
            buf@ == resp::model::encoded_all(frames.take(i as int)),
        decreases entries@.len() - i,
    {
        let frame: RespValue = set_frame(
            entries[i].0.as_slice(),
            entries[i].1.as_slice(),
            entries[i].2,
        );
        let part: Vec<u8> = frame.encode();
        let ghost before = buf@;
        buf.extend_from_slice(part.as_slice());
        proof {
            let next = frames.take(i as int + 1);
            assert(next.drop_last() =~= frames.take(i as int));
            assert(next.last() == frame@);
            assert(buf@ =~= before + part@);
        }
        i = i + 1;
    }
    assert(frames.take(entries@.len() as int) =~= frames);
    buf
}

/// A file was read back as the model says; where it was not, the message begins
/// with `prefix`.
pub open spec fn read_back(
    r: Result<usize, String>,
    o: Result<nat, ErrorKind>,
    prefix: Seq<char>,
) -> bool {
    match o {
        Ok(n) => r matches Ok(count) && count == n,
        Err(code) => r matches Err(message) && message@ == prefix + parser::parse_error_text(code),
    }
}

/// Executes the commands in a file at the time `now`.
fn replay(data: &[u8], store: &mut Store, now: u128, prefix: &str) -> (r: Result<usize, String>)
    ensures
        read_back(r, model::replay(data@, old(store)@, now, 0).result, prefix@),
        final(store)@ == model::replay(data@, old(store)@, now, 0).table,
        final(store).limit() == old(store).limit(),
        final(store).origin() == old(store).origin(),
{
    let mut buf: RespBuffer = RespBuffer::new();
    buf.feed(data);
    let size: usize = data.len();
    let mut count: usize = 0;
    let ghost whole = model::replay(data@, store@, now, 0);
    assert(buf@ =~= data@);
    loop
        invariant
            count + buf@.len() <= size,
            whole == model::replay(data@, old(store)@, now, 0),
            whole == model::replay(buf@, store@, now, count as nat),
            store.limit() == old(store).limit(),
            store.origin() == old(store).origin(),
        decreases buf@.len(),
    {
        let ghost b = buf@;
        proof {
            resp::laws::law_frame_stable(b, Seq::empty());
        }
        match buf.try_parse() {
            Ok(None) => {
                return Ok(count);
            },
            Err(e) => {
                return Err(String::from_str(prefix).concat(e.as_str()));
            },
            Ok(Some(frame)) => {
                if let RespValue::Array(Some(items)) = &frame {
                    if let Ok(command) = cmd::parse_command(items.as_slice()) {
                        cmd::execute_command_at(&command, store, now);
                        count = count + 1;
                    }
                }
            },
        }
    }
}

/// Loads a snapshot at the time `now`: executes the commands in it and gives
/// their number.
pub fn load_rdb_at(data: &[u8], store: &mut Store, now: u128) -> (r: Result<usize, String>)
    ensures
        read_back(r, model::replay(data@, old(store)@, now, 0).result, "RDB parse error: "@),
        final(store)@ == model::replay(data@, old(store)@, now, 0).table,
        final(store).limit() == old(store).limit(),
        final(store).origin() == old(store).origin(),
{
    replay(data, store, now, "RDB parse error: ")
}

/// Loads a snapshot: executes the commands in it and gives their number.
pub fn load_rdb(data: &[u8], store: &mut Store) -> (r: Result<usize, String>)
    ensures
        exists|now: u128|
            {
                let o = #[trigger] model::replay(data@, old(store)@, now, 0);
                &&& store::clock::is_reading(old(store).origin(), now)
                &&& read_back(r, o.result, "RDB parse error: "@)
                &&& final(store)@ == o.table
            },
        final(store).limit() == old(store).limit(),
        final(store).origin() == old(store).origin(),
{
    let now: u128 = store.now();
    load_rdb_at(data, store, now)
}

/// Replays a log at the time `now`: executes the commands in it and gives their
/// number.
pub fn replay_aof_at(data: &[u8], store: &mut Store, now: u128) -> (r: Result<usize, String>)
    ensures
        read_back(r, model::replay(data@, old(store)@, now, 0).result, "AOF parse error: "@),
        final(store)@ == model::replay(data@, old(store)@, now, 0).table,
        final(store).limit() == old(store).limit(),
        final(store).origin() == old(store).origin(),
{
    replay(data, store, now, "AOF parse error: ")
}

/// Replays a log: executes the commands in it and gives their number.
pub fn replay_aof(data: &[u8], store: &mut Store) -> (r: Result<usize, String>)
    ensures
        exists|now: u128|
            {
                let o = #[trigger] model::replay(data@, old(store)@, now, 0);
                &&& store::clock::is_reading(old(store).origin(), now)
                &&& read_back(r, o.result, "AOF parse error: "@)
                &&& final(store)@ == o.table
            },
        final(store).limit() == old(store).limit(),
        final(store).origin() == old(store).origin(),
{
    let now: u128 = store.now();
    replay_aof_at(data, store, now)
}

/// How saving a snapshot went. A snapshot is first written beside the old one,
/// which it replaces when it is complete.
#[derive(Debug, Clone, PartialEq)]
pub enum SaveOutcome {
    Saved,
    /// Writing the new file failed.
    WriteFailed(String),
    /// Replacing the old file failed.
    RenameFailed(String),
}

/// The reply that tells how saving a snapshot went.
pub open spec fn save_reply_of(outcome: SaveOutcome) -> Resp {
    match outcome {
        SaveOutcome::Saved => Resp::SimpleString("OK"@),
        SaveOutcome::WriteFailed(e) => Resp::Error("ERR saving snapshot: "@ + text::unbroken(e@)),
        SaveOutcome::RenameFailed(e) => Resp::Error(
            "ERR renaming snapshot: "@ + text::unbroken(e@),
        ),
    }
}

/// The reply that tells how saving a snapshot went: one whole frame.
pub fn save_reply(outcome: &SaveOutcome) -> (r: Vec<u8>)
    ensures
        r@ == resp::model::encoded(save_reply_of(*outcome)),
        outcome is Saved || cmd::model::is_whole_error(save_reply_of(*outcome)),
{
    proof {
        reveal_strlit("ERR ");
        reveal_strlit("ERR saving snapshot: ");
        reveal_strlit("ERR renaming snapshot: ");
    }
    match outcome {
        SaveOutcome::Saved => RespValue::SimpleString(String::from_str("OK")).encode(),
        SaveOutcome::WriteFailed(e) => failure_reply("ERR saving snapshot: ", e.as_str()),
        SaveOutcome::RenameFailed(e) => failure_reply("ERR renaming snapshot: ", e.as_str()),
    }
}

/// An error reply with a detail, on a single line.
fn failure_reply(message: &str, detail: &str) -> (r: Vec<u8>)
    requires
        cmd::model::is_message_head(message@),
    ensures
        r@ == resp::model::encoded(Resp::Error(message@ + text::unbroken(detail@))),
        cmd::model::is_whole_error(Resp::Error(message@ + text::unbroken(detail@))),
{
    let shown: String = text::unbreak(detail);
    proof {
        resp::laws::lemma_unbroken(detail@);
        cmd::laws::lemma_longer_message(message@, shown@);
        cmd::laws::law_error_frame(message@ + shown@);
    }
    RespValue::Error(String::from_str(message).concat(shown.as_str())).encode()
}

} // verus!
