//! The mathematical model of commands: how requests are understood, what is
//! answered, and what becomes of the table of keys.
use crate::resp;
use crate::resp::model::{Outcome, Resp};
use crate::store;
use crate::store::model::Table;
use crate::text;
use vstd::prelude::*;

verus! {

/// A command.
pub enum Cmd {
    Ping(Option<Seq<u8>>),
    Echo(Seq<u8>),
    SetKey { key: Seq<u8>, value: Seq<u8>, ttl_secs: Option<u64> },
    Get(Seq<u8>),
    Del(Seq<Seq<u8>>),
    Exists(Seq<Seq<u8>>),
    Bgsave,
}

/// Does a command change data?
pub open spec fn modifies(c: Cmd) -> bool {
    c is SetKey || c is Del
}

/// The key by which a command is routed, if it has one.
pub open spec fn routed_by(c: Cmd) -> Option<Seq<u8>> {
    match c {
        Cmd::SetKey { key, .. } => Some(key),
        Cmd::Get(key) => Some(key),
        Cmd::Del(keys) => if keys.len() > 0 {
            Some(keys[0])
        } else {
            None
        },
        Cmd::Exists(keys) => if keys.len() > 0 {
            Some(keys[0])
        } else {
            None
        },
        _ => None,
    }
}

/// A message that shows a value, on a single line.
pub open spec fn shows(message: Seq<char>, v: Resp) -> Seq<char> {
    message + text::unbroken(resp::debug::debug_text(v))
}

/// Is this the message of an error reply? It begins as one, and no line end ends
/// it early.
pub open spec fn is_error_message(m: Seq<char>) -> bool {
    "ERR "@.is_prefix_of(m) && resp::laws::single_line(m)
}

/// Is this the beginning of such a message, which any single line may follow?
pub open spec fn is_message_head(m: Seq<char>) -> bool {
    is_error_message(m) && m.len() > 0 && m.last() != '\r'
}

/// Can an error be sent as it is? Its encoding is read back as that error, and as
/// nothing more.
pub open spec fn is_whole_error(e: Resp) -> bool {
    &&& e matches Resp::Error(m) && "ERR "@.is_prefix_of(m) && resp::laws::single_line(m)
    &&& resp::model::frame(resp::model::encoded(e)) == (Outcome::Done {
        value: e,
        used: resp::model::encoded(e).len(),
    })
}

/// The bytes of a value that must be a bulk string, or the message if it is
/// none.
pub open spec fn bulk_of(v: Resp) -> Result<Seq<u8>, Seq<char>> {
    match v {
        Resp::BulkString(Some(b)) => Ok(b),
        _ => Err(shows("ERR expected bulk string, got "@, v)),
    }
}

/// The first argument behind the command name, if it is a bulk string.
pub open spec fn message_of(args: Seq<Resp>) -> Option<Seq<u8>> {
    if args.len() < 2 {
        None
    } else {
        match args[1] {
            Resp::BulkString(b) => b,
            _ => None,
        }
    }
}

/// The keys that arguments stand for, or the message for the first of them that
/// is no bulk string.
pub open spec fn keys_of(args: Seq<Resp>) -> Result<Seq<Seq<u8>>, Seq<char>>
    decreases args.len(),
{
    if args.len() == 0 {
        Ok(Seq::empty())
    } else {
        match keys_of(args.drop_last()) {
            Err(message) => Err(message),
            Ok(keys) => match bulk_of(args.last()) {
                Err(message) => Err(message),
                Ok(k) => Ok(keys.push(k)),
            },
        }
    }
}

/// An error among the first arguments is the error for all of them.
pub proof fn lemma_keys_error(args: Seq<Resp>, n: int)
    requires
        0 <= n <= args.len(),
        keys_of(args.take(n)) is Err,
    ensures
        keys_of(args) == keys_of(args.take(n)),
    decreases args.len() - n,
{
    if n < args.len() {
        assert(args.take(n + 1).drop_last() =~= args.take(n));
        lemma_keys_error(args, n + 1);
    } else {
        assert(args.take(n) =~= args);
    }
}

/// The time to live that the options of SET give, where `option` is the
/// upper-case text of the first.
pub open spec fn set_option(option: Seq<char>, args: Seq<Resp>) -> Result<Option<u64>, Seq<char>> {
    if option != "EX"@ {
        Err("ERR unknown option '"@ + text::unbroken(option) + "' for 'SET' command"@)
    } else if args.len() < 5 {
        Err("ERR wrong number of arguments for 'SET' command"@)
    } else {
        match bulk_of(args[4]) {
            Err(message) => Err(message),
            Ok(raw) => match text::unsigned_of(raw, u64::MAX as nat) {
                Some(secs) => Ok(Some(secs as u64)),
                None => Err("ERR value is not an integer or out of range"@),
            },
        }
    }
}

/// What a SET request means.
pub open spec fn set_command(args: Seq<Resp>) -> Result<Cmd, Seq<char>> {
    if args.len() < 3 {
        Err("ERR wrong number of arguments for 'SET' command"@)
    } else {
        match (bulk_of(args[1]), bulk_of(args[2])) {
            (Err(message), _) => Err(message),
            (_, Err(message)) => Err(message),
            (Ok(key), Ok(value)) => if args.len() < 4 {
                Ok(Cmd::SetKey { key, value, ttl_secs: None })
            } else {
                match bulk_of(args[3]) {
                    Err(message) => Err(message),
                    Ok(raw) => match set_option(text::upper_text(text::text_of(raw)), args) {
                        Err(message) => Err(message),
                        Ok(ttl_secs) => Ok(Cmd::SetKey { key, value, ttl_secs }),
                    },
                }
            },
        }
    }
}

/// What a request means, where `name` is the upper-case text of its command
/// name.
pub open spec fn named_command(name: Seq<char>, args: Seq<Resp>) -> Result<Cmd, Seq<char>> {
    if name == "PING"@ {
        Ok(Cmd::Ping(message_of(args)))
    } else if name == "ECHO"@ {
        match message_of(args) {
            Some(m) => Ok(Cmd::Echo(m)),
            None => Err("ERR wrong number of arguments for 'ECHO' command"@),
        }
    } else if name == "SET"@ {
        set_command(args)
    } else if name == "GET"@ {
        match message_of(args) {
            Some(k) => Ok(Cmd::Get(k)),
            None => Err("ERR wrong number of arguments for 'GET' command"@),
        }
    } else if name == "DEL"@ {
        if args.len() < 2 {
            Err("ERR wrong number of arguments for 'DEL' command"@)
        } else {
            match keys_of(args.drop_first()) {
                Ok(keys) => Ok(Cmd::Del(keys)),
                Err(message) => Err(message),
            }
        }
    } else if name == "EXISTS"@ {
        if args.len() < 2 {
            Err("ERR wrong number of arguments for 'EXISTS' command"@)
        } else {
            match keys_of(args.drop_first()) {
                Ok(keys) => Ok(Cmd::Exists(keys)),
                Err(message) => Err(message),
            }
        }
    } else if name == "BGSAVE"@ {
        if args.len() > 1 {
            Err("ERR BGSAVE does not accept arguments"@)
        } else {
            Ok(Cmd::Bgsave)
        }
    } else {
        Err("ERR unknown command '"@ + text::unbroken(name) + "'"@)
    }
}

/// The text of a command name: that of a bulk string or a simple string.
pub open spec fn name_text(v: Resp) -> Option<Seq<char>> {
    match v {
        Resp::BulkString(Some(b)) => Some(text::text_of(b)),
        Resp::SimpleString(s) => Some(s),
        _ => None,
    }
}

/// What a request means: a command, or the message of an error.
pub open spec fn command_of(args: Seq<Resp>) -> Result<Cmd, Seq<char>> {
    if args.len() == 0 {
        Err("ERR empty command"@)
    } else {
        match name_text(args[0]) {
            None => Err(shows("ERR expected command name, got "@, args[0])),
            Some(name) => named_command(text::upper_text(name), args),
        }
    }
}

/// What is answered to a command that is executed at `now`.
pub open spec fn reply(c: Cmd, t: Table, now: u128) -> Resp {
    match c {
        Cmd::Ping(None) => Resp::SimpleString("PONG"@),
        Cmd::Ping(Some(m)) => Resp::BulkString(Some(m)),
        Cmd::Echo(m) => Resp::BulkString(Some(m)),
        Cmd::SetKey { .. } => Resp::SimpleString("OK"@),
        Cmd::Get(key) => Resp::BulkString(store::model::value_at(t, key, now)),
        Cmd::Del(keys) => Resp::Integer(store::model::count_removed(t, keys) as int),
        Cmd::Exists(keys) => Resp::Integer(store::model::count_live(t, keys, now) as int),
        Cmd::Bgsave => Resp::SimpleString("OK"@),
    }
}

/// What a command that is executed at `now` makes of the table.
pub open spec fn effect(c: Cmd, t: Table, now: u128) -> Table {
    match c {
        Cmd::SetKey { key, value, ttl_secs } => store::model::after_set(
            t,
            key,
            value,
            ttl_secs,
            now,
        ),
        Cmd::Get(key) => store::model::after_get(t, key, now),
        Cmd::Del(keys) => store::model::after_del(t, keys),
        _ => t,
    }
}

} // verus!
