//! What each command name means with its arguments, and what each command does.
use crate::cmd;
use crate::cmd::model;
use crate::cmd::model::Cmd;
use crate::cmd::Command;
use crate::resp::model::Resp;
use crate::resp::parser::RespValue;
use crate::store::model::{Entry, Table};
use crate::text;
use vstd::prelude::*;
use vstd::utf8::*;

verus! {

/// A request with a name and arguments that are all bulk strings.
pub open spec fn with_keys(name: Resp, keys: Seq<Seq<u8>>) -> Seq<Resp> {
    seq![name] + Seq::new(keys.len(), |i: int| Resp::BulkString(Some(keys[i])))
}

/// Is the first argument of a request a bulk string that is not null?
pub open spec fn has_data(args: Seq<Resp>) -> bool {
    args.len() > 0 && args[0] is BulkString && args[0]->BulkString_0 is Some
}

/// The command names are all different.
proof fn lemma_names()
    ensures
        "PING"@.len() == 4,
        "ECHO"@.len() == 4,
        "SET"@.len() == 3,
        "GET"@.len() == 3,
        "DEL"@.len() == 3,
        "EXISTS"@.len() == 6,
        "BGSAVE"@.len() == 6,
        "PING"@[0] == 'P',
        "ECHO"@[0] == 'E',
        "SET"@[0] == 'S',
        "GET"@[0] == 'G',
        "DEL"@[0] == 'D',
        "EXISTS"@[0] == 'E',
        "BGSAVE"@[0] == 'B',
{
    reveal_strlit("PING");
    reveal_strlit("ECHO");
    reveal_strlit("SET");
    reveal_strlit("GET");
    reveal_strlit("DEL");
    reveal_strlit("EXISTS");
    reveal_strlit("BGSAVE");
}

/// The name of a request is its first item, in capital letters: a bulk string or a
/// simple string.
pub proof fn law_names(b: Seq<u8>, s: Seq<char>, args: Seq<Resp>)
    ensures
        model::command_of(seq![Resp::BulkString(Some(b))] + args) == model::named_command(
            text::upper_text(text::text_of(b)),
            seq![Resp::BulkString(Some(b))] + args,
        ),
        model::command_of(seq![Resp::SimpleString(s)] + args) == model::named_command(
            text::upper_text(s),
            seq![Resp::SimpleString(s)] + args,
        ),
{
}

/// PING may have a message, which must be a bulk string to count.
pub proof fn law_ping_means(name: Resp, args: Seq<Resp>)
    ensures
        has_data(args) ==> model::named_command("PING"@, seq![name] + args) == Ok::<
            Cmd,
            Seq<char>,
        >(Cmd::Ping(Some(args[0]->BulkString_0->0))),
        !has_data(args) ==> model::named_command("PING"@, seq![name] + args) == Ok::<
            Cmd,
            Seq<char>,
        >(Cmd::Ping(None)),
{
}

/// ECHO has a message, and GET a key; both must be bulk strings.
pub proof fn law_echo_and_get_mean(name: Resp, args: Seq<Resp>)
    ensures
        has_data(args) ==> model::named_command("ECHO"@, seq![name] + args) == Ok::<
            Cmd,
            Seq<char>,
        >(Cmd::Echo(args[0]->BulkString_0->0)),
        has_data(args) ==> model::named_command("GET"@, seq![name] + args) == Ok::<
            Cmd,
            Seq<char>,
        >(Cmd::Get(args[0]->BulkString_0->0)),
        !has_data(args) ==> model::named_command("ECHO"@, seq![name] + args) == Err::<
            Cmd,
            Seq<char>,
        >("ERR wrong number of arguments for 'ECHO' command"@),
        !has_data(args) ==> model::named_command("GET"@, seq![name] + args) == Err::<
            Cmd,
            Seq<char>,
        >("ERR wrong number of arguments for 'GET' command"@),
{
    lemma_names();
}

/// SET has a key and a value, and may have a time to live in seconds.
pub proof fn law_set_means(
    name: Resp,
    key: Seq<u8>,
    value: Seq<u8>,
    secs: u64,
    rest: Seq<Resp>,
)
    ensures
        model::named_command(
            "SET"@,
            seq![name, Resp::BulkString(Some(key)), Resp::BulkString(Some(value))],
        ) == Ok::<Cmd, Seq<char>>(Cmd::SetKey { key, value, ttl_secs: None }),
        model::named_command(
            "SET"@,
            seq![
                name,
                Resp::BulkString(Some(key)),
                Resp::BulkString(Some(value)),
                Resp::BulkString(Some(encode_utf8("EX"@))),
                Resp::BulkString(Some(text::decimal(secs as nat))),
            ] + rest,
        ) == Ok::<Cmd, Seq<char>>(Cmd::SetKey { key, value, ttl_secs: Some(secs) }),
{
    let d = text::decimal(secs as nat);
    lemma_names();
    reveal_strlit("EX");
    text::lemma_upper_literal("EX"@);
    text::lemma_decimal_digits(secs as nat);
    text::lemma_decimal_round_trip(secs as nat);
    assert(text::is_digit(d[0]));
    assert(text::unsigned_of(d, u64::MAX as nat) == Some(secs as nat));
}

/// Arguments that are bulk strings are understood as these keys, in their order.
proof fn lemma_keys(name: Resp, keys: Seq<Seq<u8>>)
    ensures
        with_keys(name, keys).len() == keys.len() + 1,
        model::keys_of(with_keys(name, keys).drop_first()) == Ok::<Seq<Seq<u8>>, Seq<char>>(keys),
    decreases keys.len(),
{
    let items = with_keys(name, keys);
    if keys.len() == 0 {
        assert(keys =~= Seq::<Seq<u8>>::empty());
    } else {
        lemma_keys(name, keys.drop_last());
        assert(items.drop_first().drop_last() =~= with_keys(name, keys.drop_last()).drop_first());
        assert(keys.drop_last().push(keys.last()) =~= keys);
    }
}

/// DEL and EXISTS have keys: all those that are named, in their order, and at
/// least one.
pub proof fn law_del_and_exists_mean(name: Resp, keys: Seq<Seq<u8>>)
    ensures
        keys.len() > 0 ==> model::named_command("DEL"@, with_keys(name, keys)) == Ok::<
            Cmd,
            Seq<char>,
        >(Cmd::Del(keys)),
        keys.len() > 0 ==> model::named_command("EXISTS"@, with_keys(name, keys)) == Ok::<
            Cmd,
            Seq<char>,
        >(Cmd::Exists(keys)),
        keys.len() == 0 ==> model::named_command("DEL"@, with_keys(name, keys)) == Err::<
            Cmd,
            Seq<char>,
        >("ERR wrong number of arguments for 'DEL' command"@),
        keys.len() == 0 ==> model::named_command("EXISTS"@, with_keys(name, keys)) == Err::<
            Cmd,
            Seq<char>,
        >("ERR wrong number of arguments for 'EXISTS' command"@),
{
    lemma_names();
    lemma_keys(name, keys);
}

/// The request EXISTS with keys is understood as just that, as it is for DEL: with
/// all the keys, in their order.
pub proof fn law_exists_request(keys: Seq<Seq<u8>>)
    requires
        keys.len() > 0,
    ensures
        model::command_of(
            with_keys(Resp::BulkString(Some(encode_utf8("EXISTS"@))), keys),
        ) == Ok::<Cmd, Seq<char>>(Cmd::Exists(keys)),
{
    let name = Resp::BulkString(Some(encode_utf8("EXISTS"@)));
    reveal_strlit("EXISTS");
    text::lemma_upper_literal("EXISTS"@);
    law_del_and_exists_mean(name, keys);
}

/// BGSAVE has no arguments.
pub proof fn law_bgsave_means(name: Resp, args: Seq<Resp>)
    ensures
        args.len() == 0 ==> model::named_command("BGSAVE"@, seq![name] + args) == Ok::<
            Cmd,
            Seq<char>,
        >(Cmd::Bgsave),
        args.len() > 0 ==> model::named_command("BGSAVE"@, seq![name] + args) == Err::<
            Cmd,
            Seq<char>,
        >("ERR BGSAVE does not accept arguments"@),
{
    lemma_names();
}

/// Only commands that set or delete keys change data.
pub proof fn law_what_changes_data(
    key: Seq<u8>,
    value: Seq<u8>,
    ttl_secs: Option<u64>,
    keys: Seq<Seq<u8>>,
    message: Option<Seq<u8>>,
)
    ensures
        model::modifies(Cmd::SetKey { key, value, ttl_secs }),
        model::modifies(Cmd::Del(keys)),
        !model::modifies(Cmd::Ping(message)),
        !model::modifies(Cmd::Echo(value)),
        !model::modifies(Cmd::Get(key)),
        !model::modifies(Cmd::Exists(keys)),
        !model::modifies(Cmd::Bgsave),
{
}

/// Commands are routed by the first key that they name, and those that name none
/// are not routed.
pub proof fn law_routing_keys(
    key: Seq<u8>,
    value: Seq<u8>,
    ttl_secs: Option<u64>,
    more: Seq<Seq<u8>>,
    message: Option<Seq<u8>>,
)
    ensures
        model::routed_by(Cmd::SetKey { key, value, ttl_secs }) == Some(key),
        model::routed_by(Cmd::Get(key)) == Some(key),
        model::routed_by(Cmd::Del(seq![key] + more)) == Some(key),
        model::routed_by(Cmd::Exists(seq![key] + more)) == Some(key),
        model::routed_by(Cmd::Del(Seq::empty())) is None,
        model::routed_by(Cmd::Exists(Seq::empty())) is None,
        model::routed_by(Cmd::Ping(message)) is None,
        model::routed_by(Cmd::Echo(value)) is None,
        model::routed_by(Cmd::Bgsave) is None,
{
}

/// A command stands for what it holds: its keys are all there, in their order.
pub proof fn law_command_views(
    key: Vec<u8>,
    value: Vec<u8>,
    ttl_secs: Option<u64>,
    keys: Vec<Vec<u8>>,
    i: int,
)
    requires
        0 <= i < keys@.len(),
    ensures
        Command::Ping(None)@ == Cmd::Ping(None),
        Command::Ping(Some(value))@ == Cmd::Ping(Some(value@)),
        Command::Echo(value)@ == Cmd::Echo(value@),
        (Command::SetKey { key, value, ttl_secs })@ == (Cmd::SetKey {
            key: key@,
            value: value@,
            ttl_secs,
        }),
        Command::Get(key)@ == Cmd::Get(key@),
        Command::Del(keys)@ is Del,
        Command::Del(keys)@->Del_0.len() == keys@.len(),
        Command::Del(keys)@->Del_0[i] == keys@[i]@,
        Command::Exists(keys)@ is Exists,
        Command::Exists(keys)@->Exists_0.len() == keys@.len(),
        Command::Exists(keys)@->Exists_0[i] == keys@[i]@,
        Command::Bgsave@ == Cmd::Bgsave,
{
}

/// A request was understood as a command exactly if that command came out, and is
/// refused with an error value that holds the message.
pub proof fn law_understood(r: Result<Command, RespValue>, c: Cmd, message: Seq<char>)
    ensures
        cmd::understood(r, Ok(c)) == (r is Ok && r->Ok_0@ == c),
        cmd::understood(r, Err(message)) == (r is Err && r->Err_0@ == Resp::Error(message)),
{
}

/// PING, ECHO and BGSAVE change nothing, and are answered with what they hold or
/// with a fixed text.
pub proof fn law_plain_commands(m: Seq<u8>, t: Table, now: u128)
    ensures
        model::reply(Cmd::Ping(None), t, now) == Resp::SimpleString("PONG"@),
        model::reply(Cmd::Ping(Some(m)), t, now) == Resp::BulkString(Some(m)),
        model::reply(Cmd::Echo(m), t, now) == Resp::BulkString(Some(m)),
        model::reply(Cmd::Bgsave, t, now) == Resp::SimpleString("OK"@),
        model::effect(Cmd::Ping(None), t, now) == t,
        model::effect(Cmd::Ping(Some(m)), t, now) == t,
        model::effect(Cmd::Echo(m), t, now) == t,
        model::effect(Cmd::Bgsave, t, now) == t,
{
}

/// SET puts an entry with the value under the key, and nothing else: without a
/// time to live it stays, and with one it expires that many seconds later.
pub proof fn law_set_puts(
    key: Seq<u8>,
    value: Seq<u8>,
    secs: u64,
    t: Table,
    now: u128,
)
    ensures
        model::reply(Cmd::SetKey { key, value, ttl_secs: None }, t, now) == Resp::SimpleString(
            "OK"@,
        ),
        model::reply(Cmd::SetKey { key, value, ttl_secs: Some(secs) }, t, now)
            == Resp::SimpleString("OK"@),
        model::effect(Cmd::SetKey { key, value, ttl_secs: None }, t, now) == t.insert(
            key,
            (Entry { data: value, expires_at: None, last_used: now }),
        ),
        now + secs * 1_000_000_000 <= u128::MAX ==> model::effect(
            Cmd::SetKey { key, value, ttl_secs: Some(secs) },
            t,
            now,
        ) == t.insert(
            key,
            (Entry {
                data: value,
                expires_at: Some((now + secs * 1_000_000_000) as u128),
                last_used: now,
            }),
        ),
        now + secs * 1_000_000_000 > u128::MAX ==> model::effect(
            Cmd::SetKey { key, value, ttl_secs: Some(secs) },
            t,
            now,
        ) == t.insert(
            key,
            (Entry { data: value, expires_at: Some(u128::MAX), last_used: now }),
        ),
{
}

/// GET is answered with the data of an entry whose time has not come, which from
/// then on counts as used at that time; otherwise with null, and the key is gone.
pub proof fn law_get_reads(key: Seq<u8>, t: Table, now: u128)
    ensures
        t.contains_key(key) && (t[key].expires_at is None || now < t[key].expires_at->0) ==> {
            &&& model::reply(Cmd::Get(key), t, now) == Resp::BulkString(Some(t[key].data))
            &&& model::effect(Cmd::Get(key), t, now) == t.insert(
                key,
                (Entry { data: t[key].data, expires_at: t[key].expires_at, last_used: now }),
            )
        },
        !(t.contains_key(key) && (t[key].expires_at is None || now < t[key].expires_at->0)) ==> {
            &&& model::reply(Cmd::Get(key), t, now) == Resp::BulkString(None)
            &&& model::effect(Cmd::Get(key), t, now) == t.remove(key)
        },
{
}

/// EXISTS counts each key as often as it is named, and counts those that GET would
/// read; it changes nothing.
pub proof fn law_exists_counts(keys: Seq<Seq<u8>>, key: Seq<u8>, t: Table, now: u128)
    ensures
        model::reply(Cmd::Exists(Seq::empty()), t, now) == Resp::Integer(0),
        model::reply(Cmd::Exists(keys), t, now) is Integer,
        model::reply(Cmd::Exists(keys.push(key)), t, now) == Resp::Integer(
            model::reply(Cmd::Exists(keys), t, now)->Integer_0 + if model::reply(
                Cmd::Get(key),
                t,
                now,
            ) != Resp::BulkString(None) {
                1int
            } else {
                0int
            },
        ),
        model::effect(Cmd::Exists(keys), t, now) == t,
{
    reveal(Seq::filter);
    assert(keys.push(key).drop_last() =~= keys);
}

} // verus!
