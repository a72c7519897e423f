//! Commands: how a request is understood, and what it does to the store.
use crate::cmd::model::Cmd;
use crate::resp;
use crate::resp::model::Resp;
use crate::resp::parser;
use crate::resp::parser::RespValue;
use crate::store;
use crate::store::Store;
use crate::text;
use vstd::prelude::*;
use vstd::slice::*;
use vstd::string::*;
use vstd::utf8::*;

pub mod laws;
pub mod meaning;
pub mod model;

verus! {

/// A command that is understood and ready to be executed.
#[derive(Debug, Clone, PartialEq)]
pub enum Command {
    Ping(Option<Vec<u8>>),
    Echo(Vec<u8>),
    SetKey { key: Vec<u8>, value: Vec<u8>, ttl_secs: Option<u64> },
    Get(Vec<u8>),
    Del(Vec<Vec<u8>>),
    Exists(Vec<Vec<u8>>),
    /// Saves a snapshot to disk.
    Bgsave,
}

impl View for Command {
    type V = Cmd;

    open spec fn view(&self) -> Cmd {
        match *self {
            Command::Ping(None) => Cmd::Ping(None),
            Command::Ping(Some(m)) => Cmd::Ping(Some(m@)),
            Command::Echo(m) => Cmd::Echo(m@),
            Command::SetKey { key, value, ttl_secs } => Cmd::SetKey {
                key: key@,
                value: value@,
                ttl_secs,
            },
            Command::Get(key) => Cmd::Get(key@),
            Command::Del(keys) => Cmd::Del(text::byte_views(keys@)),
            Command::Exists(keys) => Cmd::Exists(text::byte_views(keys@)),
            Command::Bgsave => Cmd::Bgsave,
        }
    }
}

impl Command {
    /// Does the command change data? Such commands are logged and replicated.
    pub fn is_modifying(&self) -> (r: bool)
        ensures
            r == model::modifies(self@),
    {
        match self {
            Command::SetKey { .. } => true,
            Command::Del(_) => true,
            _ => false,
        }
    }

    /// The key by which the command is routed: its first key. The other keys of
    /// a command with several belong to the same node.
    pub fn routing_key(&self) -> (r: Option<&[u8]>)
        ensures
            match model::routed_by(self@) {
                Some(k) => r matches Some(key) && key@ == k,
                None => r is None,
            },
    {
        match self {
            Command::SetKey { key, .. } => Some(key.as_slice()),
            Command::Get(key) => Some(key.as_slice()),
            Command::Del(keys) => if keys.len() > 0 {
                Some(keys[0].as_slice())
            } else {
                None
            },
            Command::Exists(keys) => if keys.len() > 0 {
                Some(keys[0].as_slice())
            } else {
                None
            },
            _ => None,
        }
    }
}

/// A request was understood as the model says, or answered with its error.
pub open spec fn understood(r: Result<Command, RespValue>, o: Result<Cmd, Seq<char>>) -> bool {
    match o {
        Ok(c) => r matches Ok(cmd) && cmd@ == c,
        Err(message) => r matches Err(e) && e@ == Resp::Error(message),
    }
}

/// An error reply with a fixed text.
fn error_reply(message: &str) -> (r: RespValue)
    ensures
        r@ == Resp::Error(message@),
{
    RespValue::Error(String::from_str(message))
}

/// An error reply that shows a value.
fn unexpected(message: &str, v: &RespValue) -> (r: RespValue)
    ensures
        r@ == Resp::Error(model::shows(message@, v@)),
{
    let shown: String = text::unbreak(v.debug_string().as_str());
    RespValue::Error(String::from_str(message).concat(shown.as_str()))
}

/// The bytes of a value that must be a bulk string.
fn get_bulk(v: &RespValue) -> (r: Result<Vec<u8>, RespValue>)
    ensures
        match model::bulk_of(v@) {
            Ok(b) => r matches Ok(bytes) && bytes@ == b,
            Err(message) => r matches Err(e) && e@ == Resp::Error(message),
        },
{
    match v {
        RespValue::BulkString(Some(b)) => Ok(slice_to_vec(b.as_slice())),
        other => Err(unexpected("ERR expected bulk string, got ", other)),
    }
}

/// The message of PING or ECHO, if there is one.
fn message_of(args: &[RespValue]) -> (r: Option<Vec<u8>>)
    ensures
        match model::message_of(parser::views(args@)) {
            Some(m) => r matches Some(bytes) && bytes@ == m,
            None => r is None,
        },
{
    if args.len() < 2 {
        return None;
    }
    match &args[1] {
        RespValue::BulkString(Some(b)) => Some(slice_to_vec(b.as_slice())),
        _ => None,
    }
}

/// The keys behind the command name.
fn keys_of(args: &[RespValue]) -> (r: Result<Vec<Vec<u8>>, RespValue>)
    requires
        args@.len() >= 1,
    ensures
        match model::keys_of(parser::views(args@).drop_first()) {
            Ok(ks) => r matches Ok(keys) && text::byte_views(keys@) == ks,
            Err(message) => r matches Err(e) && e@ == Resp::Error(message),
        },
{
    let ghost all = parser::views(args@).drop_first();
    let mut keys: Vec<Vec<u8>> = Vec::new();
    let mut i: usize = 1;
    proof {
        assert(all.take(0) =~= Seq::<Resp>::empty());
        assert(text::byte_views(keys@) =~= Seq::<Seq<u8>>::empty());
    }
    while i < args.len()
        invariant
            1 <= i <= args@.len(),
            all == parser::views(args@).drop_first(),
            model::keys_of(all.take(i - 1)) == Ok::<Seq<Seq<u8>>, Seq<char>>(
                text::byte_views(keys@),
            ),
        decreases args@.len() - i,
    {
        let ghost next = all.take(i as int);
        let ghost before = text::byte_views(keys@);
        assert(next.drop_last() =~= all.take(i - 1));
        assert(next.last() == args@[i as int]@);
        match get_bulk(&args[i]) {
            Err(e) => {
                proof {
                    model::lemma_keys_error(all, i as int);
                }
                return Err(e);
            },
            Ok(k) => {
                let ghost key = k@;
                keys.push(k);
                assert(text::byte_views(keys@) =~= before.push(key));
            },
        }
        i = i + 1;
    }
    assert(all.take(args@.len() - 1) =~= all);
    Ok(keys)
}

/// Understands the options of SET, given the upper-case text of the first.
pub fn parse_set_option(option: &str, args: &[RespValue]) -> (r: Result<Option<u64>, RespValue>)
    ensures
        match model::set_option(option@, parser::views(args@)) {
            Ok(ttl) => r == Ok::<Option<u64>, RespValue>(ttl),
            Err(message) => r matches Err(e) && e@ == Resp::Error(message),
        },
        r matches Err(e) ==> model::is_whole_error(e@),
{
    proof {
        laws::lemma_option_message(option@, parser::views(args@));
        if let Err(message) = model::set_option(option@, parser::views(args@)) {
            laws::law_error_frame(message);
        }
    }
    if text::text_equal(option, "EX") {
        if args.len() < 5 {
            return Err(error_reply("ERR wrong number of arguments for 'SET' command"));
        }
        match get_bulk(&args[4]) {
            Err(e) => Err(e),
            Ok(raw) => match text::parse_unsigned(raw.as_slice(), u64::MAX) {
                Some(secs) => Ok(Some(secs)),
                None => Err(error_reply("ERR value is not an integer or out of range")),
            },
        }
    } else {
        let shown: String = text::unbreak(option);
        let message: String = String::from_str("ERR unknown option '").concat(
            shown.as_str(),
        ).concat("' for 'SET' command");
        Err(RespValue::Error(message))
    }
}

/// Understands SET.
fn parse_set(args: &[RespValue]) -> (r: Result<Command, RespValue>)
    ensures
        understood(r, model::set_command(parser::views(args@))),
{
    if args.len() < 3 {
        return Err(error_reply("ERR wrong number of arguments for 'SET' command"));
    }
    let key: Vec<u8> = match get_bulk(&args[1]) {
        Ok(k) => k,
        Err(e) => {
            return Err(e);
        },
    };
    let value: Vec<u8> = match get_bulk(&args[2]) {
        Ok(v) => v,
        Err(e) => {
            return Err(e);
        },
    };
    if args.len() < 4 {
        return Ok(Command::SetKey { key, value, ttl_secs: None });
    }
    match get_bulk(&args[3]) {
        Err(e) => Err(e),
        Ok(raw) => {
            let option: String = text::uppercase(text::utf8_lossy(raw.as_slice()).as_str());
            match parse_set_option(option.as_str(), args) {
                Err(e) => Err(e),
                Ok(ttl_secs) => Ok(Command::SetKey { key, value, ttl_secs }),
            }
        },
    }
}

/// Understands a request, given the upper-case text of its command name.
pub fn parse_named_command(name: &str, args: &[RespValue]) -> (r: Result<Command, RespValue>)
    ensures
        understood(r, model::named_command(name@, parser::views(args@))),
        r matches Err(e) ==> model::is_whole_error(e@),
{
    proof {
        laws::lemma_named_message(name@, parser::views(args@));
        if let Err(message) = model::named_command(name@, parser::views(args@)) {
            laws::law_error_frame(message);
        }
    }
    if text::text_equal(name, "PING") {
        Ok(Command::Ping(message_of(args)))
    } else if text::text_equal(name, "ECHO") {
        match message_of(args) {
            Some(m) => Ok(Command::Echo(m)),
            None => Err(error_reply("ERR wrong number of arguments for 'ECHO' command")),
        }
    } else if text::text_equal(name, "SET") {
        parse_set(args)
    } else if text::text_equal(name, "GET") {
        match message_of(args) {
            Some(k) => Ok(Command::Get(k)),
            None => Err(error_reply("ERR wrong number of arguments for 'GET' command")),
        }
    } else if text::text_equal(name, "DEL") {
        if args.len() < 2 {
            return Err(error_reply("ERR wrong number of arguments for 'DEL' command"));
        }
        match keys_of(args) {
            Ok(keys) => Ok(Command::Del(keys)),
            Err(e) => Err(e),
        }
    } else if text::text_equal(name, "EXISTS") {
        if args.len() < 2 {
            return Err(error_reply("ERR wrong number of arguments for 'EXISTS' command"));
        }
        match keys_of(args) {
            Ok(keys) => Ok(Command::Exists(keys)),
            Err(e) => Err(e),
        }
    } else if text::text_equal(name, "BGSAVE") {
        if args.len() > 1 {
            Err(error_reply("ERR BGSAVE does not accept arguments"))
        } else {
            Ok(Command::Bgsave)
        }
    } else {
        let shown: String = text::unbreak(name);
        let message: String = String::from_str("ERR unknown command '").concat(
            shown.as_str(),
        ).concat("'");
        Err(RespValue::Error(message))
    }
}

/// Understands the items of a request as a command. The name of a command may
/// be in upper or lower case.
///
/// Where that fails, the error can be sent to the client as it is: it is one whole
/// frame.
pub fn parse_command(args: &[RespValue]) -> (r: Result<Command, RespValue>)
    ensures
        understood(r, model::command_of(parser::views(args@))),
        r matches Err(e) ==> model::is_whole_error(e@),
{
    proof {
        laws::law_errors_can_be_sent(parser::views(args@));
    }
    if args.len() == 0 {
        return Err(error_reply("ERR empty command"));
    }
    let name: String = match &args[0] {
        RespValue::BulkString(Some(bytes)) => text::uppercase(
            text::utf8_lossy(bytes.as_slice()).as_str(),
        ),
        RespValue::SimpleString(s) => text::uppercase(s.as_str()),
        other => {
            return Err(unexpected("ERR expected command name, got ", other));
        },
    };
    parse_named_command(name.as_str(), args)
}

/// The keys of a command as slices.
fn key_slices(keys: &Vec<Vec<u8>>) -> (r: Vec<&[u8]>)
    ensures
        store::key_views(r@) == text::byte_views(keys@),
{
    let mut refs: Vec<&[u8]> = Vec::new();
    let mut i: usize = 0;
    while i < keys.len()
        invariant
            i <= keys@.len(),
            refs@.len() == i,
            forall|j: int| 0 <= j < i ==> #[trigger] refs@[j]@ == keys@[j]@,
        decreases keys@.len() - i,
    {
        refs.push(keys[i].as_slice());
        i = i + 1;
    }
    assert(store::key_views(refs@) =~= text::byte_views(keys@));
    refs
}

/// Executes a command at the time `now`, and gives the reply in its encoding.
///
/// Saving a snapshot is left to those who have access to the disk: here BGSAVE
/// is only acknowledged.
pub fn execute_command_at(cmd: &Command, store: &mut Store, now: u128) -> (r: Vec<u8>)
    ensures
        final(store)@ == model::effect(cmd@, old(store)@, now),
        final(store).limit() == old(store).limit(),
        final(store).origin() == old(store).origin(),
        r@ == resp::model::encoded(model::reply(cmd@, old(store)@, now)),
{
    match cmd {
        Command::Ping(msg) => match msg {
            Some(m) => RespValue::BulkString(Some(slice_to_vec(m.as_slice()))).encode(),
            None => RespValue::SimpleString(String::from_str("PONG")).encode(),
        },
        Command::Echo(msg) => RespValue::BulkString(Some(slice_to_vec(msg.as_slice()))).encode(),
        Command::SetKey { key, value, ttl_secs } => store.set_at(
            key.as_slice(),
            value.as_slice(),
            *ttl_secs,
            now,
        ),
        Command::Get(key) => store.get_at(key.as_slice(), now),
        Command::Del(keys) => {
            let refs: Vec<&[u8]> = key_slices(keys);
            store.del(refs.as_slice())
        },
        Command::Exists(keys) => {
            let refs: Vec<&[u8]> = key_slices(keys);
            store.count_existing_at(refs.as_slice(), now)
        },
        Command::Bgsave => RespValue::SimpleString(String::from_str("OK")).encode(),
    }
}

/// Executes a command, and gives the reply in its encoding.
pub fn execute_command(cmd: &Command, store: &mut Store) -> (r: Vec<u8>)
    ensures
        exists|now: u128|
            {
                &&& store::clock::is_reading(old(store).origin(), now)
                &&& final(store)@ == #[trigger] model::effect(cmd@, old(store)@, now)
                &&& r@ == resp::model::encoded(model::reply(cmd@, old(store)@, now))
            },
        final(store).limit() == old(store).limit(),
        final(store).origin() == old(store).origin(),
{
    let now: u128 = store.now();
    execute_command_at(cmd, store, now)
}

} // verus!
