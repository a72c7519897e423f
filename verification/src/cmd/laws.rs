//! What holds of commands as a whole.
use crate::cmd::model;
use crate::cmd::model::Cmd;
use crate::resp;
use crate::resp::model::Resp;
use crate::store;
use crate::store::model::Table;
use crate::text;
use vstd::prelude::*;
use vstd::utf8::*;

verus! {

/// A command that does not change data changes no value that can be read from
/// then on.
pub proof fn law_only_modifying_commands_change_values(
    c: Cmd,
    t: Table,
    now: u128,
    key: Seq<u8>,
    later: u128,
)
    requires
        !model::modifies(c),
        now <= later,
    ensures
        store::model::value_at(model::effect(c, t, now), key, later) == store::model::value_at(
            t,
            key,
            later,
        ),
{
    if let Cmd::Get(k) = c {
        store::laws::law_get_keeps_values(t, k, now, key, later);
    }
}

/// A command that changes data leaves every key alone that it does not name.
pub proof fn law_commands_leave_other_keys(
    c: Cmd,
    t: Table,
    now: u128,
    key: Seq<u8>,
    later: u128,
)
    requires
        c matches Cmd::SetKey { key: k, value, ttl_secs } ==> k != key,
        c matches Cmd::Del(keys) ==> !keys.contains(key),
        now <= later,
    ensures
        store::model::value_at(model::effect(c, t, now), key, later) == store::model::value_at(
            t,
            key,
            later,
        ),
{
    match c {
        Cmd::SetKey { key: k, value, ttl_secs } => {
            store::laws::law_set_frame(t, k, value, ttl_secs, now, key, later);
        },
        Cmd::Del(keys) => store::laws::law_del_frame(t, keys, key, later),
        _ => law_only_modifying_commands_change_values(c, t, now, key, later),
    }
}

/// A command that was understood as one with a key is routed by the first key
/// that it names.
pub proof fn law_commands_with_keys_are_routed(args: Seq<Resp>)
    ensures
        match model::command_of(args) {
            Ok(c) => (c is SetKey || c is Get || c is Del || c is Exists) ==> {
                &&& model::routed_by(c) is Some
                &&& model::bulk_of(args[1]) == Ok::<Seq<u8>, Seq<char>>(model::routed_by(c)->0)
            },
            Err(_) => true,
        },
{
    if let Ok(c) = model::command_of(args) {
        if c is Del || c is Exists {
            lemma_first_key(args.drop_first());
        }
    }
}

/// The first key is the first argument.
proof fn lemma_first_key(args: Seq<Resp>)
    ensures
        model::keys_of(args) matches Ok(ks) ==> ks.len() == args.len() && (args.len() > 0
            ==> model::bulk_of(args[0]) == Ok::<Seq<u8>, Seq<char>>(ks[0])),
    decreases args.len(),
{
    if args.len() > 0 {
        lemma_first_key(args.drop_last());
    }
}

/// The fixed texts of error replies.
proof fn lemma_fixed_messages()
    ensures
        model::is_error_message("ERR empty command"@),
        model::is_error_message("ERR wrong number of arguments for 'ECHO' command"@),
        model::is_error_message("ERR wrong number of arguments for 'SET' command"@),
        model::is_error_message("ERR wrong number of arguments for 'GET' command"@),
        model::is_error_message("ERR wrong number of arguments for 'DEL' command"@),
        model::is_error_message("ERR wrong number of arguments for 'EXISTS' command"@),
        model::is_error_message("ERR BGSAVE does not accept arguments"@),
        model::is_error_message("ERR value is not an integer or out of range"@),
        model::is_message_head("ERR expected bulk string, got "@),
        model::is_message_head("ERR expected command name, got "@),
        model::is_message_head("ERR unknown option '"@),
        model::is_message_head("ERR unknown command '"@),
        resp::laws::single_line("' for 'SET' command"@),
        "' for 'SET' command"@[0] != '\n',
        resp::laws::single_line("'"@),
        "'"@[0] != '\n',
{
    reveal_strlit("ERR ");
    reveal_strlit("ERR empty command");
    reveal_strlit("ERR wrong number of arguments for 'ECHO' command");
    reveal_strlit("ERR wrong number of arguments for 'SET' command");
    reveal_strlit("ERR wrong number of arguments for 'GET' command");
    reveal_strlit("ERR wrong number of arguments for 'DEL' command");
    reveal_strlit("ERR wrong number of arguments for 'EXISTS' command");
    reveal_strlit("ERR BGSAVE does not accept arguments");
    reveal_strlit("ERR value is not an integer or out of range");
    reveal_strlit("ERR expected bulk string, got ");
    reveal_strlit("ERR expected command name, got ");
    reveal_strlit("ERR unknown option '");
    reveal_strlit("ERR unknown command '");
    reveal_strlit("' for 'SET' command");
    reveal_strlit("'");
}

/// An error message with more text behind it is an error message.
pub proof fn lemma_longer_message(m: Seq<char>, more: Seq<char>)
    requires
        model::is_error_message(m),
        resp::laws::single_line(more),
        m.len() > 0 && more.len() > 0 ==> !(m.last() == '\r' && more[0] == '\n'),
    ensures
        model::is_error_message(m + more),
{
    resp::laws::lemma_single_line_concat(m, more);
    assert("ERR "@ =~= (m + more).subrange(0, "ERR "@.len() as int)) by {
        assert("ERR "@ =~= m.subrange(0, "ERR "@.len() as int));
    }
}

/// The message for a value that is no bulk string is an error message.
proof fn lemma_bulk_message(v: Resp)
    ensures
        model::bulk_of(v) matches Err(m) ==> model::is_error_message(m),
{
    lemma_fixed_messages();
    lemma_shown_message("ERR expected bulk string, got "@, v);
}

/// The message for arguments that are no keys is an error message.
proof fn lemma_keys_message(args: Seq<Resp>)
    ensures
        model::keys_of(args) matches Err(m) ==> model::is_error_message(m),
    decreases args.len(),
{
    if args.len() > 0 {
        lemma_keys_message(args.drop_last());
        lemma_bulk_message(args.last());
    }
}

/// The message for an option of SET is an error message.
pub proof fn lemma_option_message(option: Seq<char>, args: Seq<Resp>)
    ensures
        model::set_option(option, args) matches Err(m) ==> model::is_error_message(m),
{
    lemma_fixed_messages();
    resp::laws::lemma_unbroken(option);
    let head = "ERR unknown option '"@;
    lemma_longer_message(head, text::unbroken(option));
    lemma_longer_message(head + text::unbroken(option), "' for 'SET' command"@);
    if args.len() >= 5 {
        lemma_bulk_message(args[4]);
    }
}

/// The message for a SET request is an error message.
proof fn lemma_set_message(args: Seq<Resp>)
    ensures
        model::set_command(args) matches Err(m) ==> model::is_error_message(m),
{
    lemma_fixed_messages();
    if args.len() >= 3 {
        lemma_bulk_message(args[1]);
        lemma_bulk_message(args[2]);
    }
    if args.len() >= 4 {
        lemma_bulk_message(args[3]);
        if let Ok(raw) = model::bulk_of(args[3]) {
            lemma_option_message(text::upper_text(text::text_of(raw)), args);
        }
    }
}

/// The message for a request with a given command name is an error message.
pub proof fn lemma_named_message(name: Seq<char>, args: Seq<Resp>)
    ensures
        model::named_command(name, args) matches Err(m) ==> model::is_error_message(m),
{
    let head = "ERR unknown command '"@;
    lemma_fixed_messages();
    resp::laws::lemma_unbroken(name);
    lemma_longer_message(head, text::unbroken(name));
    lemma_longer_message(head + text::unbroken(name), "'"@);
    lemma_set_message(args);
    lemma_keys_message(args.drop_first());
}

/// A message that shows a value is an error message.
pub proof fn lemma_shown_message(message: Seq<char>, v: Resp)
    requires
        model::is_message_head(message),
    ensures
        model::is_error_message(model::shows(message, v)),
{
    resp::laws::lemma_unbroken(resp::debug::debug_text(v));
    lemma_longer_message(message, text::unbroken(resp::debug::debug_text(v)));
}

/// A request that is not understood is answered with one whole error frame,
/// whatever its command name and its arguments hold.
pub proof fn law_errors_can_be_sent(args: Seq<Resp>)
    ensures
        model::command_of(args) matches Err(m) ==> model::is_whole_error(Resp::Error(m)),
{
    lemma_fixed_messages();
    if let Err(m) = model::command_of(args) {
        if args.len() > 0 {
            match model::name_text(args[0]) {
                None => lemma_shown_message("ERR expected command name, got "@, args[0]),
                Some(name) => lemma_named_message(text::upper_text(name), args),
            }
        }
        law_error_frame(m);
    }
}

/// An error message makes one whole error frame.
pub proof fn law_error_frame(m: Seq<char>)
    requires
        model::is_error_message(m),
    ensures
        model::is_whole_error(Resp::Error(m)),
{
    let e = Resp::Error(m);
    resp::laws::law_round_trip(e, Seq::empty());
    assert(resp::model::encoded(e) + Seq::<u8>::empty() =~= resp::model::encoded(e));
}

/// The case of the letters of a command name does not matter.
pub proof fn law_names_ignore_case(a: Seq<u8>, b: Seq<u8>, args: Seq<Resp>)
    requires
        text::upper_text(text::text_of(a)) == text::upper_text(text::text_of(b)),
    ensures
        model::command_of(seq![Resp::BulkString(Some(a))] + args) == model::command_of(
            seq![Resp::BulkString(Some(b))] + args,
        ),
{
    let x = seq![Resp::BulkString(Some(a))] + args;
    let y = seq![Resp::BulkString(Some(b))] + args;
    assert(x.drop_first() =~= y.drop_first());
    assert forall|i: int| 1 <= i < x.len() implies x[i] == y[i] by {}
}

/// The request that sets a key, as it is stored in snapshots and sent to
/// replicas.
pub open spec fn set_request(key: Seq<u8>, value: Seq<u8>, ttl_secs: Option<u64>) -> Seq<Resp> {
    let plain = seq![
        Resp::BulkString(Some(encode_utf8("SET"@))),
        Resp::BulkString(Some(key)),
        Resp::BulkString(Some(value)),
    ];
    match ttl_secs {
        None => plain,
        Some(secs) => plain + seq![
            Resp::BulkString(Some(encode_utf8("EX"@))),
            Resp::BulkString(Some(text::decimal(secs as nat))),
        ],
    }
}

/// The request that sets a key is understood as just that.
pub proof fn law_set_request(key: Seq<u8>, value: Seq<u8>, ttl_secs: Option<u64>)
    ensures
        model::command_of(set_request(key, value, ttl_secs)) == Ok::<Cmd, Seq<char>>(
            Cmd::SetKey { key, value, ttl_secs },
        ),
{
    let args = set_request(key, value, ttl_secs);
    reveal_strlit("SET");
    reveal_strlit("EX");
    reveal_strlit("PING");
    reveal_strlit("ECHO");
    text::lemma_upper_literal("SET"@);
    text::lemma_upper_literal("EX"@);
    assert("SET"@ != "PING"@) by {
        assert("SET"@.len() != "PING"@.len());
    }
    assert("SET"@ != "ECHO"@) by {
        assert("SET"@.len() != "ECHO"@.len());
    }
    if let Some(secs) = ttl_secs {
        let d = text::decimal(secs as nat);
        text::lemma_decimal_digits(secs as nat);
        text::lemma_decimal_round_trip(secs as nat);
        assert(text::is_digit(d[0]));
        assert(text::unsigned_of(d, u64::MAX as nat) == Some(secs as nat));
        assert(args[3] == Resp::BulkString(Some(encode_utf8("EX"@))));
        assert(args[4] == Resp::BulkString(Some(d)));
    }
}

/// The request that reads a key.
pub open spec fn get_request(key: Seq<u8>) -> Seq<Resp> {
    seq![Resp::BulkString(Some(encode_utf8("GET"@))), Resp::BulkString(Some(key))]
}

/// The request that reads a key is understood as just that.
pub proof fn law_get_request(key: Seq<u8>)
    ensures
        model::command_of(get_request(key)) == Ok::<Cmd, Seq<char>>(Cmd::Get(key)),
{
    reveal_strlit("SET");
    reveal_strlit("GET");
    reveal_strlit("PING");
    reveal_strlit("ECHO");
    text::lemma_upper_literal("GET"@);
    assert("GET"@ != "PING"@) by {
        assert("GET"@.len() != "PING"@.len());
    }
    assert("GET"@ != "ECHO"@) by {
        assert("GET"@.len() != "ECHO"@.len());
    }
    assert("GET"@ != "SET"@) by {
        assert("GET"@[0] != "SET"@[0]);
    }
}

/// The request that deletes keys.
pub open spec fn del_request(keys: Seq<Seq<u8>>) -> Seq<Resp> {
    seq![Resp::BulkString(Some(encode_utf8("DEL"@)))] + keys.map_values(
        |k: Seq<u8>| Resp::BulkString(Some(k)),
    )
}

/// The request that deletes keys is understood as just that.
pub proof fn law_del_request(keys: Seq<Seq<u8>>)
    requires
        keys.len() > 0,
    ensures
        model::command_of(del_request(keys)) == Ok::<Cmd, Seq<char>>(Cmd::Del(keys)),
{
    let args = del_request(keys);
    reveal_strlit("DEL");
    reveal_strlit("SET");
    reveal_strlit("GET");
    reveal_strlit("PING");
    reveal_strlit("ECHO");
    text::lemma_upper_literal("DEL"@);
    assert("DEL"@ != "PING"@) by {
        assert("DEL"@.len() != "PING"@.len());
    }
    assert("DEL"@ != "ECHO"@) by {
        assert("DEL"@.len() != "ECHO"@.len());
    }
    assert("DEL"@ != "SET"@) by {
        assert("DEL"@[0] != "SET"@[0]);
    }
    assert("DEL"@ != "GET"@) by {
        assert("DEL"@[0] != "GET"@[0]);
    }
    lemma_bulk_keys(keys);
    assert(args.drop_first() =~= keys.map_values(|k: Seq<u8>| Resp::BulkString(Some(k))));
}

/// The keys of bulk strings are their bytes.
proof fn lemma_bulk_keys(keys: Seq<Seq<u8>>)
    ensures
        model::keys_of(keys.map_values(|k: Seq<u8>| Resp::BulkString(Some(k)))) == Ok::<
            Seq<Seq<u8>>,
            Seq<char>,
        >(keys),
    decreases keys.len(),
{
    let args = keys.map_values(|k: Seq<u8>| Resp::BulkString(Some(k)));
    if keys.len() == 0 {
        assert(keys =~= Seq::<Seq<u8>>::empty());
    } else {
        lemma_bulk_keys(keys.drop_last());
        assert(args.drop_last() =~= keys.drop_last().map_values(
            |k: Seq<u8>| Resp::BulkString(Some(k)),
        ));
        assert(keys.drop_last().push(keys.last()) =~= keys);
    }
}

/// What a client reads is what was set: after SET, GET answers with the value
/// until the key expires, and with null from then on.
pub proof fn law_set_then_get(
    key: Seq<u8>,
    value: Seq<u8>,
    ttl_secs: Option<u64>,
    t: Table,
    now: u128,
    later: u128,
)
    ensures
        model::reply(
            Cmd::Get(key),
            model::effect(Cmd::SetKey { key, value, ttl_secs }, t, now),
            later,
        ) == Resp::BulkString(
            match ttl_secs {
                None => Some(value),
                Some(s) => if later < store::model::deadline(now, s) {
                    Some(value)
                } else {
                    None
                },
            },
        ),
{
    store::laws::law_set_get(t, key, value, ttl_secs, now, later);
}

/// After DEL, GET answers with null and EXISTS with 0.
pub proof fn law_del_then_get(keys: Seq<Seq<u8>>, key: Seq<u8>, t: Table, now: u128, later: u128)
    requires
        keys.contains(key),
    ensures
        model::reply(Cmd::Get(key), model::effect(Cmd::Del(keys), t, now), later)
            == Resp::BulkString(None),
        model::reply(Cmd::Exists(seq![key]), model::effect(Cmd::Del(keys), t, now), later)
            == Resp::Integer(0),
{
    store::laws::law_del_get(t, keys, key, later);
    store::laws::law_exists_iff_readable(store::model::after_del(t, keys), key, later);
}

/// DEL is answered with the number of keys by which the table gets smaller: the
/// named keys go that were there, each counting once, and nothing else changes.
pub proof fn law_del_counts_what_goes(keys: Seq<Seq<u8>>, t: Table, now: u128)
    requires
        t.dom().finite(),
    ensures
        model::effect(Cmd::Del(keys), t, now).dom().finite(),
        model::effect(Cmd::Del(keys), t, now).dom().len() <= t.dom().len(),
        model::reply(Cmd::Del(keys), t, now) == Resp::Integer(
            t.dom().len() - model::effect(Cmd::Del(keys), t, now).dom().len(),
        ),
        forall|k: Seq<u8>| #[trigger]
            model::effect(Cmd::Del(keys), t, now).contains_key(k) <==> t.contains_key(k)
                && !keys.contains(k),
        forall|k: Seq<u8>|
            t.contains_key(k) && !keys.contains(k) ==> #[trigger] model::effect(
                Cmd::Del(keys),
                t,
                now,
            )[k] == t[k],
{
    lemma_del_size(keys, t);
}

/// Deleting keys makes a table smaller by the number of those that were there.
pub proof fn lemma_del_size(keys: Seq<Seq<u8>>, t: Table)
    ensures
        t.dom().finite() ==> store::model::after_del(t, keys).dom().finite()
            && store::model::count_removed(t, keys) == t.dom().len() - store::model::after_del(
            t,
            keys,
        ).dom().len(),
{
    if t.dom().finite() {
        let after = store::model::after_del(t, keys).dom();
        let gone = keys.to_set().intersect(t.dom());
        assert(after =~= t.dom().difference(gone));
        assert(gone.subset_of(t.dom()));
        vstd::set_lib::lemma_set_subset_finite(t.dom(), gone);
        vstd::set_lib::lemma_len_difference(t.dom(), gone);
        assert(after.disjoint(gone));
        vstd::set_lib::lemma_set_disjoint_lens(after, gone);
        assert(after.union(gone) =~= t.dom());
    }
}

/// Where none of the keys is in the table, DEL is answered with 0, and nothing
/// changes.
pub proof fn law_del_of_nothing(keys: Seq<Seq<u8>>, t: Table, now: u128)
    requires
        forall|i: int| 0 <= i < keys.len() ==> !t.contains_key(#[trigger] keys[i]),
    ensures
        model::reply(Cmd::Del(keys), t, now) == Resp::Integer(0),
        model::effect(Cmd::Del(keys), t, now) == t,
{
    assert(keys.to_set().intersect(t.dom()) =~= Set::<Seq<u8>>::empty());
    assert(model::effect(Cmd::Del(keys), t, now) =~= t);
}

} // verus!
