//! What each request does, from the bytes that name the command to the bytes of
//! the reply and the entries of the table.
use crate::cluster;
use crate::cluster::ClusterState;
use crate::cmd;
use crate::cmd::model::Cmd;
use crate::connection;
use crate::connection::model;
use crate::connection::model::{Decision, Node};
use crate::connection::Action;
use crate::resp;
use crate::resp::laws::Event;
use crate::resp::model::Resp;
use crate::store;
use crate::store::model::{Entry, Table};
use crate::text;
use vstd::prelude::*;
use vstd::utf8::*;

verus! {

/// A bulk string.
pub open spec fn bulk(b: Seq<u8>) -> Resp {
    Resp::BulkString(Some(b))
}

/// Bulk strings.
pub open spec fn bulks(keys: Seq<Seq<u8>>) -> Seq<Resp> {
    Seq::new(keys.len(), |i: int| Resp::BulkString(Some(keys[i])))
}

/// A request: a command name and arguments.
pub open spec fn request(name: Seq<u8>, args: Seq<Resp>) -> Resp {
    Resp::Array(Some(seq![Resp::BulkString(Some(name))] + args))
}

/// Do these bytes spell a word that is given in capital letters? Each letter may
/// be small instead.
pub open spec fn spells(name: Seq<u8>, word: Seq<char>) -> bool {
    &&& name.len() == word.len()
    &&& forall|i: int|
        0 <= i < name.len() ==> #[trigger] name[i] as int == word[i] as int || name[i] as int
            == word[i] as int + 32
}

/// The bytes of a reply that holds data.
pub open spec fn data_reply(d: Seq<u8>) -> Seq<u8> {
    seq![36u8] + text::decimal(d.len()) + seq![13u8, 10u8] + d + seq![13u8, 10u8]
}

/// The bytes of a reply that holds a count.
pub open spec fn count_reply(n: nat) -> Seq<u8> {
    seq![58u8] + text::decimal(n) + seq![13u8, 10u8]
}

/// The bytes of a reply that says that there is no value: `$-1`.
pub open spec fn null_reply() -> Seq<u8> {
    seq![36u8, 45u8, 49u8, 13u8, 10u8]
}

/// The bytes of a reply that says `+OK`.
pub open spec fn ok_reply() -> Seq<u8> {
    seq![43u8, 79u8, 75u8, 13u8, 10u8]
}

/// The bytes of an error reply.
pub open spec fn error_reply(message: Seq<char>) -> Seq<u8> {
    seq![45u8] + encode_utf8(message) + seq![13u8, 10u8]
}

/// All there is to do is to send a reply.
pub open spec fn answers(r: Action, bytes: Seq<u8>) -> bool {
    r matches Action::Reply(reply) && reply@ == bytes
}

/// A reply is to be sent, and the bytes of the request are to be recorded.
pub open spec fn answers_and_records(r: Action, bytes: Seq<u8>, frame: Resp) -> bool {
    r matches Action::ReplyAndRecord { reply, record } && reply@ == bytes && record@
        == resp::model::encoded(frame)
}

/// The request is to be sent, as it is, to the node at `address`.
pub open spec fn forwards(r: Action, address: Seq<char>, frame: Resp) -> bool {
    r matches Action::Forward { target, request } && target@ == address && request@
        == resp::model::encoded(frame)
}

/// Does a key belong to another node of the cluster, at the address `a`?
pub open spec fn belongs_to(node: Node, key: Seq<u8>, a: Seq<char>) -> bool {
    &&& node.clustered
    &&& cluster::model::owner(node.points, cluster::model::place(key)) == Some(a)
    &&& a != node.address
}

/// Does a key belong to a node? On its own a node has all keys; in a cluster those
/// that the ring gives to its address, and all as long as the ring is empty.
pub open spec fn belongs(node: Node, key: Seq<u8>) -> bool {
    node.clustered ==> match cluster::model::owner(
        node.points,
        cluster::model::place(key),
    ) {
        Some(a) => a == node.address,
        None => true,
    }
}

/// Is there a value to read? The key is in the table, and its time has not come.
pub open spec fn readable(t: Table, key: Seq<u8>, now: u128) -> bool {
    t.contains_key(key) && match t[key].expires_at {
        None => true,
        Some(d) => now < d,
    }
}

/// How many of the keys can be read, each as often as it is named.
pub open spec fn readable_count(t: Table, keys: Seq<Seq<u8>>, now: u128) -> nat
    decreases keys.len(),
{
    if keys.len() == 0 {
        0
    } else {
        readable_count(t, keys.drop_last(), now) + if readable(t, keys.last(), now) {
            1nat
        } else {
            0nat
        }
    }
}

/// The words of the protocol are all different.
proof fn lemma_words()
    ensures
        "PING"@.len() == 4,
        "ECHO"@.len() == 4,
        "SYNC"@.len() == 4,
        "SET"@.len() == 3,
        "GET"@.len() == 3,
        "DEL"@.len() == 3,
        "EXISTS"@.len() == 6,
        "BGSAVE"@.len() == 6,
        "PING"@[0] == 'P',
        "ECHO"@[0] == 'E',
        "SYNC"@[0] == 'S',
        "SET"@[0] == 'S',
        "GET"@[0] == 'G',
        "DEL"@[0] == 'D',
        "EXISTS"@[0] == 'E',
        "BGSAVE"@[0] == 'B',
        capitals("PING"@),
        capitals("ECHO"@),
        capitals("SYNC"@),
        capitals("SET"@),
        capitals("GET"@),
        capitals("DEL"@),
        capitals("EXISTS"@),
        capitals("BGSAVE"@),
        capitals("EX"@),
{
    reveal_strlit("PING");
    reveal_strlit("ECHO");
    reveal_strlit("SYNC");
    reveal_strlit("SET");
    reveal_strlit("GET");
    reveal_strlit("DEL");
    reveal_strlit("EXISTS");
    reveal_strlit("BGSAVE");
    reveal_strlit("EX");
}

/// Is a word made of the letters from `A` to `Z`?
spec fn capitals(word: Seq<char>) -> bool {
    forall|i: int| 0 <= i < word.len() ==> 'A' <= #[trigger] word[i] <= 'Z'
}

/// The capital letter that a letter stands for.
proof fn lemma_letter(b: u8, c: char)
    requires
        'A' <= c <= 'Z',
        b as int == c as int || b as int == c as int + 32,
    ensures
        b < 128,
        text::ascii_upper_char(b as char) == c,
{
}

/// Bytes that spell a word are read as that word.
proof fn lemma_spells(name: Seq<u8>, word: Seq<char>)
    requires
        spells(name, word),
        capitals(word),
    ensures
        text::upper_text(text::text_of(name)) == word,
{
    assert forall|i: int| 0 <= i < name.len() implies #[trigger] name[i] < 128 by {
        assert('A' <= word[i] <= 'Z');
        lemma_letter(name[i], word[i]);
    }
    text::lemma_ascii_text(name);
    let s = text::ascii_text(name);
    let u = text::upper_text(s);
    assert(u.len() == word.len());
    assert forall|i: int| 0 <= i < u.len() implies u[i] == word[i] by {
        assert('A' <= word[i] <= 'Z');
        assert(name[i] < 128);
        lemma_letter(name[i], word[i]);
        assert(s[i] == name[i] as char);
    }
    assert(u =~= word);
}

/// What a request is understood as, by its name.
proof fn lemma_request(name: Seq<u8>, word: Seq<char>, args: Seq<Resp>)
    requires
        spells(name, word),
        capitals(word),
    ensures
        model::is_sync(seq![Resp::BulkString(Some(name))] + args) == (word == "SYNC"@),
        cmd::model::command_of(seq![Resp::BulkString(Some(name))] + args)
            == cmd::model::named_command(word, seq![Resp::BulkString(Some(name))] + args),
        (seq![Resp::BulkString(Some(name))] + args).drop_first() == args,
{
    lemma_spells(name, word);
    assert((seq![Resp::BulkString(Some(name))] + args).drop_first() =~= args);
}

/// The encodings of the replies.
proof fn lemma_replies()
    ensures
        resp::model::encoded(Resp::SimpleString("OK"@)) == ok_reply(),
        resp::model::encoded(Resp::SimpleString("PONG"@)) == seq![
            43u8,
            80u8,
            79u8,
            78u8,
            71u8,
            13u8,
            10u8,
        ],
        resp::model::encoded(Resp::BulkString(None)) == null_reply(),
        forall|d: Seq<u8>| #[trigger]
            resp::model::encoded(Resp::BulkString(Some(d))) == data_reply(d),
        forall|n: nat| #[trigger] resp::model::encoded(Resp::Integer(n as int)) == count_reply(n),
        forall|m: Seq<char>| #[trigger] resp::model::encoded(Resp::Error(m)) == error_reply(m),
{
    reveal_strlit("OK");
    reveal_strlit("PONG");
    let ok = seq![79u8, 75u8];
    text::lemma_ascii_text(ok);
    assert(text::ascii_text(ok) =~= "OK"@);
    let pong = seq![80u8, 79u8, 78u8, 71u8];
    text::lemma_ascii_text(pong);
    assert(text::ascii_text(pong) =~= "PONG"@);
    assert(resp::model::encoded(Resp::SimpleString("OK"@)) =~= ok_reply());
    assert(resp::model::encoded(Resp::SimpleString("PONG"@)) =~= seq![
        43u8,
        80u8,
        79u8,
        78u8,
        71u8,
        13u8,
        10u8,
    ]);
    assert(text::decimal(1) =~= seq![49u8]);
    assert(resp::model::encoded(Resp::BulkString(None)) =~= null_reply());
}

/// PING is answered with its argument, if that is a bulk string, and else with
/// `+PONG`; any node answers it, and nothing changes.
pub proof fn law_ping(name: Seq<u8>, args: Seq<Resp>, node: Node, t: Table, now: u128, r: Action)
    requires
        spells(name, "PING"@),
        connection::done(
            r,
            model::decide(request(name, args), node),
            request(name, args),
            t,
            now,
        ),
    ensures
        args.len() > 0 && args[0] is BulkString && args[0]->BulkString_0 is Some ==> answers(
            r,
            data_reply(args[0]->BulkString_0->0),
        ),
        !(args.len() > 0 && args[0] is BulkString && args[0]->BulkString_0 is Some) ==> answers(
            r,
            seq![43u8, 80u8, 79u8, 78u8, 71u8, 13u8, 10u8],
        ),
        connection::left(model::decide(request(name, args), node), t, now) == t,
{
    lemma_words();
    lemma_replies();
    lemma_request(name, "PING"@, args);
}

/// ECHO is answered with its argument; any node answers it, and nothing changes.
/// Without an argument that is a bulk string it is refused.
pub proof fn law_echo(name: Seq<u8>, args: Seq<Resp>, node: Node, t: Table, now: u128, r: Action)
    requires
        spells(name, "ECHO"@),
        connection::done(
            r,
            model::decide(request(name, args), node),
            request(name, args),
            t,
            now,
        ),
    ensures
        args.len() > 0 && args[0] is BulkString && args[0]->BulkString_0 is Some ==> answers(
            r,
            data_reply(args[0]->BulkString_0->0),
        ),
        !(args.len() > 0 && args[0] is BulkString && args[0]->BulkString_0 is Some) ==> answers(
            r,
            error_reply("ERR wrong number of arguments for 'ECHO' command"@),
        ),
        connection::left(model::decide(request(name, args), node), t, now) == t,
{
    lemma_words();
    lemma_replies();
    lemma_request(name, "ECHO"@, args);
}

/// GET on the node that a key belongs to is answered with the value, as long as
/// there is one to read, which counts as a use of the key; else the answer is
/// null, and the key is not in the table any more.
pub proof fn law_get(
    name: Seq<u8>,
    key: Seq<u8>,
    rest: Seq<Resp>,
    node: Node,
    t: Table,
    now: u128,
    r: Action,
)
    requires
        spells(name, "GET"@),
        belongs(node, key),
        connection::done(
            r,
            model::decide(request(name, seq![bulk(key)] + rest), node),
            request(name, seq![bulk(key)] + rest),
            t,
            now,
        ),
    ensures
        readable(t, key, now) ==> answers(r, data_reply(t[key].data)) && connection::left(
            model::decide(request(name, seq![bulk(key)] + rest), node),
            t,
            now,
        ) == t.insert(
            key,
            (Entry { data: t[key].data, expires_at: t[key].expires_at, last_used: now }),
        ),
        !readable(t, key, now) ==> answers(r, null_reply()) && connection::left(
            model::decide(request(name, seq![bulk(key)] + rest), node),
            t,
            now,
        ) == t.remove(key),
{
    lemma_words();
    lemma_replies();
    lemma_request(name, "GET"@, seq![bulk(key)] + rest);
}

/// GET without a key that is a bulk string is refused.
pub proof fn law_get_needs_a_key(
    name: Seq<u8>,
    args: Seq<Resp>,
    node: Node,
    t: Table,
    now: u128,
    r: Action,
)
    requires
        spells(name, "GET"@),
        !(args.len() > 0 && args[0] is BulkString && args[0]->BulkString_0 is Some),
        connection::done(
            r,
            model::decide(request(name, args), node),
            request(name, args),
            t,
            now,
        ),
    ensures
        answers(r, error_reply("ERR wrong number of arguments for 'GET' command"@)),
        connection::left(model::decide(request(name, args), node), t, now) == t,
{
    lemma_words();
    lemma_replies();
    lemma_request(name, "GET"@, args);
}

/// GET for a key of another node is sent to that node.
pub proof fn law_get_elsewhere(
    name: Seq<u8>,
    key: Seq<u8>,
    rest: Seq<Resp>,
    node: Node,
    a: Seq<char>,
    t: Table,
    now: u128,
    r: Action,
)
    requires
        spells(name, "GET"@),
        belongs_to(node, key, a),
        connection::done(
            r,
            model::decide(request(name, seq![bulk(key)] + rest), node),
            request(name, seq![bulk(key)] + rest),
            t,
            now,
        ),
    ensures
        forwards(r, a, request(name, seq![bulk(key)] + rest)),
        connection::left(
            model::decide(request(name, seq![bulk(key)] + rest), node),
            t,
            now,
        ) == t,
{
    lemma_words();
    lemma_request(name, "GET"@, seq![bulk(key)] + rest);
}

/// SET on the node that a key belongs to puts the value there, for good, and is
/// answered with `+OK`; the request is recorded.
pub proof fn law_set(
    name: Seq<u8>,
    key: Seq<u8>,
    value: Seq<u8>,
    node: Node,
    t: Table,
    now: u128,
    r: Action,
)
    requires
        spells(name, "SET"@),
        belongs(node, key),
        connection::done(
            r,
            model::decide(request(name, seq![bulk(key), bulk(value)]), node),
            request(name, seq![bulk(key), bulk(value)]),
            t,
            now,
        ),
    ensures
        answers_and_records(r, ok_reply(), request(name, seq![bulk(key), bulk(value)])),
        connection::left(
            model::decide(request(name, seq![bulk(key), bulk(value)]), node),
            t,
            now,
        ) == t.insert(key, (Entry { data: value, expires_at: None, last_used: now })),
{
    lemma_words();
    lemma_replies();
    lemma_request(name, "SET"@, seq![bulk(key), bulk(value)]);
}

/// SET for a key of another node is sent to that node.
pub proof fn law_set_elsewhere(
    name: Seq<u8>,
    key: Seq<u8>,
    value: Seq<u8>,
    node: Node,
    a: Seq<char>,
    t: Table,
    now: u128,
    r: Action,
)
    requires
        spells(name, "SET"@),
        belongs_to(node, key, a),
        connection::done(
            r,
            model::decide(request(name, seq![bulk(key), bulk(value)]), node),
            request(name, seq![bulk(key), bulk(value)]),
            t,
            now,
        ),
    ensures
        forwards(r, a, request(name, seq![bulk(key), bulk(value)])),
        connection::left(
            model::decide(request(name, seq![bulk(key), bulk(value)]), node),
            t,
            now,
        ) == t,
{
    lemma_words();
    lemma_request(name, "SET"@, seq![bulk(key), bulk(value)]);
}

/// The arguments of SET with a time to live; more arguments may follow.
pub open spec fn set_for_args(
    key: Seq<u8>,
    value: Seq<u8>,
    option: Seq<u8>,
    secs: Seq<u8>,
    rest: Seq<Resp>,
) -> Seq<Resp> {
    seq![bulk(key), bulk(value), bulk(option), bulk(secs)] + rest
}

/// Do these bytes write a number in decimal digits?
pub open spec fn digits_of(digits: Seq<u8>, n: u64) -> bool {
    &&& digits.len() > 0
    &&& forall|i: int| 0 <= i < digits.len() ==> 48 <= #[trigger] digits[i] <= 57
    &&& text::decimal_value(digits) == n
}

/// Do these bytes write a number of seconds? A plus sign may stand before the
/// digits.
pub open spec fn writes(secs: Seq<u8>, n: u64) -> bool {
    digits_of(secs, n) || (secs.len() > 0 && secs[0] == 43 && digits_of(secs.drop_first(), n))
}

/// SET with EX on the node that a key belongs to puts the value there until as
/// many seconds have passed, and is answered with `+OK`; the request is recorded.
pub proof fn law_set_for(
    name: Seq<u8>,
    key: Seq<u8>,
    value: Seq<u8>,
    option: Seq<u8>,
    secs: Seq<u8>,
    n: u64,
    rest: Seq<Resp>,
    node: Node,
    t: Table,
    now: u128,
    r: Action,
)
    requires
        spells(name, "SET"@),
        spells(option, "EX"@),
        writes(secs, n),
        belongs(node, key),
        connection::done(
            r,
            model::decide(request(name, set_for_args(key, value, option, secs, rest)), node),
            request(name, set_for_args(key, value, option, secs, rest)),
            t,
            now,
        ),
    ensures
        answers_and_records(
            r,
            ok_reply(),
            request(name, set_for_args(key, value, option, secs, rest)),
        ),
        now + n * 1_000_000_000 <= u128::MAX ==> connection::left(
            model::decide(request(name, set_for_args(key, value, option, secs, rest)), node),
            t,
            now,
        ) == t.insert(
            key,
            (Entry {
                data: value,
                expires_at: Some((now + n * 1_000_000_000) as u128),
                last_used: now,
            }),
        ),
        now + n * 1_000_000_000 > u128::MAX ==> connection::left(
            model::decide(request(name, set_for_args(key, value, option, secs, rest)), node),
            t,
            now,
        ) == t.insert(
            key,
            (Entry { data: value, expires_at: Some(u128::MAX), last_used: now }),
        ),
{
    lemma_words();
    lemma_replies();
    lemma_set_for(name, key, value, option, secs, n, rest);
}

/// How SET with EX is understood.
proof fn lemma_set_for(
    name: Seq<u8>,
    key: Seq<u8>,
    value: Seq<u8>,
    option: Seq<u8>,
    secs: Seq<u8>,
    n: u64,
    rest: Seq<Resp>,
)
    requires
        spells(name, "SET"@),
        spells(option, "EX"@),
        writes(secs, n),
    ensures
        ({
            let items = seq![bulk(name)] + set_for_args(key, value, option, secs, rest);
            &&& !model::is_sync(items)
            &&& cmd::model::command_of(items) == Ok::<cmd::model::Cmd, Seq<char>>(
                cmd::model::Cmd::SetKey { key, value, ttl_secs: Some(n) },
            )
        }),
{
    let args = set_for_args(key, value, option, secs, rest);
    let items = seq![bulk(name)] + args;
    lemma_words();
    lemma_request(name, "SET"@, args);
    lemma_spells(option, "EX"@);
    assert(items[1] == bulk(key));
    assert(items[2] == bulk(value));
    assert(items[3] == bulk(option));
    assert(items[4] == bulk(secs));
    if digits_of(secs, n) {
        assert(48 <= secs[0] <= 57);
    }
    assert(text::unsigned_of(secs, u64::MAX as nat) == Some(n as nat));
}

/// SET with EX for a key of another node is sent to that node.
pub proof fn law_set_for_elsewhere(
    name: Seq<u8>,
    key: Seq<u8>,
    value: Seq<u8>,
    option: Seq<u8>,
    secs: Seq<u8>,
    n: u64,
    rest: Seq<Resp>,
    node: Node,
    a: Seq<char>,
    t: Table,
    now: u128,
    r: Action,
)
    requires
        spells(name, "SET"@),
        spells(option, "EX"@),
        writes(secs, n),
        belongs_to(node, key, a),
        connection::done(
            r,
            model::decide(request(name, set_for_args(key, value, option, secs, rest)), node),
            request(name, set_for_args(key, value, option, secs, rest)),
            t,
            now,
        ),
    ensures
        forwards(r, a, request(name, set_for_args(key, value, option, secs, rest))),
        connection::left(
            model::decide(request(name, set_for_args(key, value, option, secs, rest)), node),
            t,
            now,
        ) == t,
{
    lemma_words();
    lemma_set_for(name, key, value, option, secs, n, rest);
}

/// Bulk strings are understood as keys.
proof fn lemma_bulks(keys: Seq<Seq<u8>>)
    ensures
        cmd::model::keys_of(bulks(keys)) == Ok::<Seq<Seq<u8>>, Seq<char>>(keys),
    decreases keys.len(),
{
    if keys.len() == 0 {
        assert(keys =~= Seq::<Seq<u8>>::empty());
    } else {
        lemma_bulks(keys.drop_last());
        assert(bulks(keys).drop_last() =~= bulks(keys.drop_last()));
        assert(keys.drop_last().push(keys.last()) =~= keys);
    }
}

/// DEL on the node that the first key belongs to takes all the keys that it names
/// out of the table, and no others. It is answered with the number of keys by
/// which the table got smaller; the request is recorded.
pub proof fn law_del(
    name: Seq<u8>,
    keys: Seq<Seq<u8>>,
    node: Node,
    t: Table,
    now: u128,
    r: Action,
)
    requires
        spells(name, "DEL"@),
        keys.len() > 0,
        belongs(node, keys[0]),
        t.dom().finite(),
        connection::done(
            r,
            model::decide(request(name, bulks(keys)), node),
            request(name, bulks(keys)),
            t,
            now,
        ),
    ensures
        connection::left(
            model::decide(request(name, bulks(keys)), node),
            t,
            now,
        ).dom().finite(),
        connection::left(
            model::decide(request(name, bulks(keys)), node),
            t,
            now,
        ).dom().len() <= t.dom().len(),
        answers_and_records(
            r,
            count_reply(
                (t.dom().len() - connection::left(
                    model::decide(request(name, bulks(keys)), node),
                    t,
                    now,
                ).dom().len()) as nat,
            ),
            request(name, bulks(keys)),
        ),
        forall|k: Seq<u8>| #[trigger]
            connection::left(
                model::decide(request(name, bulks(keys)), node),
                t,
                now,
            ).contains_key(k) <==> t.contains_key(k) && !keys.contains(k),
        forall|k: Seq<u8>|
            t.contains_key(k) && !keys.contains(k) ==> #[trigger] connection::left(
                model::decide(request(name, bulks(keys)), node),
                t,
                now,
            )[k] == t[k],
{
    lemma_words();
    lemma_replies();
    lemma_request(name, "DEL"@, bulks(keys));
    lemma_bulks(keys);
    cmd::laws::law_del_counts_what_goes(keys, t, now);
}

/// DEL whose first key belongs to another node is sent to that node.
pub proof fn law_del_elsewhere(
    name: Seq<u8>,
    keys: Seq<Seq<u8>>,
    node: Node,
    a: Seq<char>,
    t: Table,
    now: u128,
    r: Action,
)
    requires
        spells(name, "DEL"@),
        keys.len() > 0,
        belongs_to(node, keys[0], a),
        connection::done(
            r,
            model::decide(request(name, bulks(keys)), node),
            request(name, bulks(keys)),
            t,
            now,
        ),
    ensures
        forwards(r, a, request(name, bulks(keys))),
        connection::left(model::decide(request(name, bulks(keys)), node), t, now) == t,
{
    lemma_words();
    lemma_request(name, "DEL"@, bulks(keys));
    lemma_bulks(keys);
}

/// EXISTS on the node that the first key belongs to is answered with how many of
/// the keys can be read, each counting as often as it is named; nothing changes.
pub proof fn law_exists(
    name: Seq<u8>,
    keys: Seq<Seq<u8>>,
    node: Node,
    t: Table,
    now: u128,
    r: Action,
)
    requires
        spells(name, "EXISTS"@),
        keys.len() > 0,
        belongs(node, keys[0]),
        connection::done(
            r,
            model::decide(request(name, bulks(keys)), node),
            request(name, bulks(keys)),
            t,
            now,
        ),
    ensures
        answers(r, count_reply(readable_count(t, keys, now))),
        connection::left(model::decide(request(name, bulks(keys)), node), t, now) == t,
{
    lemma_words();
    lemma_replies();
    lemma_request(name, "EXISTS"@, bulks(keys));
    lemma_bulks(keys);
    lemma_readable_count(t, keys, now);
}

/// The keys that can be read are those that are live.
proof fn lemma_readable_count(t: Table, keys: Seq<Seq<u8>>, now: u128)
    ensures
        store::model::count_live(t, keys, now) == readable_count(t, keys, now),
    decreases keys.len(),
{
    let f = |k: Seq<u8>| store::model::live(t, k, now);
    reveal(Seq::filter);
    if keys.len() > 0 {
        lemma_readable_count(t, keys.drop_last(), now);
        assert(keys.filter(f) == if f(keys.last()) {
            keys.drop_last().filter(f).push(keys.last())
        } else {
            keys.drop_last().filter(f)
        });
    }
}

/// EXISTS whose first key belongs to another node is sent to that node.
pub proof fn law_exists_elsewhere(
    name: Seq<u8>,
    keys: Seq<Seq<u8>>,
    node: Node,
    a: Seq<char>,
    t: Table,
    now: u128,
    r: Action,
)
    requires
        spells(name, "EXISTS"@),
        keys.len() > 0,
        belongs_to(node, keys[0], a),
        connection::done(
            r,
            model::decide(request(name, bulks(keys)), node),
            request(name, bulks(keys)),
            t,
            now,
        ),
    ensures
        forwards(r, a, request(name, bulks(keys))),
        connection::left(model::decide(request(name, bulks(keys)), node), t, now) == t,
{
    lemma_words();
    lemma_request(name, "EXISTS"@, bulks(keys));
    lemma_bulks(keys);
}

/// DEL and EXISTS without keys are refused.
pub proof fn law_keys_are_needed(
    name: Seq<u8>,
    node: Node,
    t: Table,
    now: u128,
    r: Action,
)
    requires
        spells(name, "DEL"@) || spells(name, "EXISTS"@),
        connection::done(
            r,
            model::decide(request(name, Seq::empty()), node),
            request(name, Seq::empty()),
            t,
            now,
        ),
    ensures
        spells(name, "DEL"@) ==> answers(
            r,
            error_reply("ERR wrong number of arguments for 'DEL' command"@),
        ),
        spells(name, "EXISTS"@) ==> answers(
            r,
            error_reply("ERR wrong number of arguments for 'EXISTS' command"@),
        ),
        connection::left(model::decide(request(name, Seq::empty()), node), t, now) == t,
{
    lemma_words();
    lemma_replies();
    if spells(name, "DEL"@) {
        lemma_request(name, "DEL"@, Seq::empty());
    } else {
        lemma_request(name, "EXISTS"@, Seq::empty());
    }
}

/// BGSAVE saves a snapshot on the node that gets it, and changes nothing. It takes
/// no arguments.
pub proof fn law_bgsave(
    name: Seq<u8>,
    args: Seq<Resp>,
    node: Node,
    t: Table,
    now: u128,
    r: Action,
)
    requires
        spells(name, "BGSAVE"@),
        connection::done(
            r,
            model::decide(request(name, args), node),
            request(name, args),
            t,
            now,
        ),
    ensures
        args.len() == 0 ==> r is Save,
        args.len() > 0 ==> answers(r, error_reply("ERR BGSAVE does not accept arguments"@)),
        connection::left(model::decide(request(name, args), node), t, now) == t,
{
    lemma_words();
    lemma_replies();
    lemma_request(name, "BGSAVE"@, args);
}

/// SYNC hands the connection over on a master and is refused by any other node,
/// whatever its arguments; nothing changes.
pub proof fn law_sync(
    name: Seq<u8>,
    args: Seq<Resp>,
    node: Node,
    t: Table,
    now: u128,
    r: Action,
)
    requires
        spells(name, "SYNC"@),
        connection::done(
            r,
            model::decide(request(name, args), node),
            request(name, args),
            t,
            now,
        ),
    ensures
        node.master ==> r is Sync,
        !node.master ==> answers(r, error_reply("ERR SYNC not allowed: node is not a master"@)),
        connection::left(model::decide(request(name, args), node), t, now) == t,
{
    lemma_words();
    lemma_replies();
    lemma_request(name, "SYNC"@, args);
}

/// The text of an error that shows what stands in a wrong place.
pub open spec fn shown(message: Seq<char>, v: Resp) -> Seq<char> {
    message + text::unbroken(resp::debug::debug_text(v))
}

/// Is this a bulk string that is not null?
pub open spec fn is_data(v: Resp) -> bool {
    v is BulkString && v->BulkString_0 is Some
}

/// SET is refused if the key or the value is missing or is no bulk string: the
/// first that is wrong is named.
pub proof fn law_set_needs_key_and_value(
    name: Seq<u8>,
    args: Seq<Resp>,
    node: Node,
    t: Table,
    now: u128,
    r: Action,
)
    requires
        spells(name, "SET"@),
        args.len() < 2 || !is_data(args[0]) || !is_data(args[1]),
        connection::done(
            r,
            model::decide(request(name, args), node),
            request(name, args),
            t,
            now,
        ),
    ensures
        args.len() < 2 ==> answers(
            r,
            error_reply("ERR wrong number of arguments for 'SET' command"@),
        ),
        args.len() >= 2 && !is_data(args[0]) ==> answers(
            r,
            error_reply(shown("ERR expected bulk string, got "@, args[0])),
        ),
        args.len() >= 2 && is_data(args[0]) ==> answers(
            r,
            error_reply(shown("ERR expected bulk string, got "@, args[1])),
        ),
        connection::left(model::decide(request(name, args), node), t, now) == t,
{
    lemma_words();
    lemma_replies();
    lemma_request(name, "SET"@, args);
    let items = seq![bulk(name)] + args;
    if args.len() >= 2 {
        assert(items[1] == args[0]);
        assert(items[2] == args[1]);
    }
}

/// SET is refused if what follows the value is not EX and a number of seconds that
/// 64 bits hold: the first thing that is wrong is named.
pub proof fn law_set_options(
    name: Seq<u8>,
    args: Seq<Resp>,
    node: Node,
    t: Table,
    now: u128,
    r: Action,
)
    requires
        spells(name, "SET"@),
        args.len() >= 3,
        is_data(args[0]),
        is_data(args[1]),
        connection::done(
            r,
            model::decide(request(name, args), node),
            request(name, args),
            t,
            now,
        ),
    ensures
        !is_data(args[2]) ==> answers(
            r,
            error_reply(shown("ERR expected bulk string, got "@, args[2])),
        ),
        is_data(args[2]) && text::upper_text(text::text_of(args[2]->BulkString_0->0)) != "EX"@
            ==> answers(
            r,
            error_reply(
                "ERR unknown option '"@ + text::unbroken(
                    text::upper_text(text::text_of(args[2]->BulkString_0->0)),
                ) + "' for 'SET' command"@,
            ),
        ),
        is_data(args[2]) && spells(args[2]->BulkString_0->0, "EX"@) && args.len() == 3 ==> answers(
            r,
            error_reply("ERR wrong number of arguments for 'SET' command"@),
        ),
        is_data(args[2]) && spells(args[2]->BulkString_0->0, "EX"@) && args.len() > 3 && !is_data(
            args[3],
        ) ==> answers(r, error_reply(shown("ERR expected bulk string, got "@, args[3]))),
        is_data(args[2]) && spells(args[2]->BulkString_0->0, "EX"@) && args.len() > 3 && is_data(
            args[3],
        ) && (forall|n: u64| !writes(args[3]->BulkString_0->0, n)) ==> answers(
            r,
            error_reply("ERR value is not an integer or out of range"@),
        ),
{
    lemma_words();
    lemma_replies();
    lemma_request(name, "SET"@, args);
    let items = seq![bulk(name)] + args;
    assert(items[1] == args[0]);
    assert(items[2] == args[1]);
    assert(items[3] == args[2]);
    if is_data(args[2]) && spells(args[2]->BulkString_0->0, "EX"@) {
        lemma_spells(args[2]->BulkString_0->0, "EX"@);
        if args.len() > 3 {
            assert(items[4] == args[3]);
            if is_data(args[3]) && (forall|n: u64| !writes(args[3]->BulkString_0->0, n)) {
                let secs = args[3]->BulkString_0->0;
                if let Some(n) = text::unsigned_of(secs, u64::MAX as nat) {
                    assert(writes(secs, n as u64));
                }
            }
        }
    }
}

/// DEL and EXISTS are refused if one of the arguments is no bulk string: the first
/// such argument is named.
pub proof fn law_keys_are_bulk_strings(
    name: Seq<u8>,
    keys: Seq<Seq<u8>>,
    wrong: Resp,
    rest: Seq<Resp>,
    node: Node,
    t: Table,
    now: u128,
    r: Action,
)
    requires
        spells(name, "DEL"@) || spells(name, "EXISTS"@),
        !is_data(wrong),
        connection::done(
            r,
            model::decide(request(name, bulks(keys) + seq![wrong] + rest), node),
            request(name, bulks(keys) + seq![wrong] + rest),
            t,
            now,
        ),
    ensures
        answers(r, error_reply(shown("ERR expected bulk string, got "@, wrong))),
        connection::left(
            model::decide(request(name, bulks(keys) + seq![wrong] + rest), node),
            t,
            now,
        ) == t,
{
    let args = bulks(keys) + seq![wrong] + rest;
    lemma_words();
    lemma_replies();
    lemma_bulks(keys);
    let n = keys.len() as int + 1;
    assert(args.take(n).drop_last() =~= bulks(keys));
    assert(args.take(n).last() == wrong);
    cmd::model::lemma_keys_error(args, n);
    if spells(name, "DEL"@) {
        lemma_request(name, "DEL"@, args);
    } else {
        lemma_request(name, "EXISTS"@, args);
    }
}

/// What is no array is refused, and shown.
pub proof fn law_requests_are_arrays(frame: Resp, node: Node, t: Table, now: u128, r: Action)
    requires
        !(frame is Array) || frame->Array_0 is None,
        connection::done(r, model::decide(frame, node), frame, t, now),
    ensures
        answers(r, error_reply(shown("ERR expected array, got "@, frame))),
        connection::left(model::decide(frame, node), t, now) == t,
{
    lemma_replies();
}

/// A request without a command name is refused.
pub proof fn law_empty_request(node: Node, t: Table, now: u128, r: Action)
    requires
        connection::done(
            r,
            model::decide(Resp::Array(Some(Seq::empty())), node),
            Resp::Array(Some(Seq::empty())),
            t,
            now,
        ),
    ensures
        answers(r, error_reply("ERR empty command"@)),
        connection::left(model::decide(Resp::Array(Some(Seq::empty())), node), t, now) == t,
{
    lemma_replies();
}

/// A command name is a bulk string or a simple string; anything else is refused,
/// and shown.
pub proof fn law_names_are_text(items: Seq<Resp>, node: Node, t: Table, now: u128, r: Action)
    requires
        items.len() > 0,
        !is_data(items[0]) && !(items[0] is SimpleString),
        connection::done(
            r,
            model::decide(Resp::Array(Some(items)), node),
            Resp::Array(Some(items)),
            t,
            now,
        ),
    ensures
        answers(r, error_reply(shown("ERR expected command name, got "@, items[0]))),
        connection::left(model::decide(Resp::Array(Some(items)), node), t, now) == t,
{
    lemma_replies();
}

/// A simple string names a command as the bulk string of its bytes does.
pub proof fn law_simple_names(name: Seq<char>, args: Seq<Resp>, node: Node)
    ensures
        cmd::model::command_of(seq![Resp::SimpleString(name)] + args)
            == cmd::model::command_of(seq![bulk(encode_utf8(name))] + args),
        model::decide(Resp::Array(Some(seq![Resp::SimpleString(name)] + args)), node)
            == model::decide(request(encode_utf8(name), args), node),
{
    let x = seq![Resp::SimpleString(name)] + args;
    let y = seq![bulk(encode_utf8(name))] + args;
    encode_utf8_valid_utf8(name);
    encode_utf8_decode_utf8(name);
    assert(x.drop_first() =~= y.drop_first());
    assert forall|i: int| 1 <= i < x.len() implies x[i] == y[i] by {}
}

/// A name that is none of the commands is refused, and shown in capital letters.
pub proof fn law_unknown_command(
    name: Seq<u8>,
    args: Seq<Resp>,
    node: Node,
    t: Table,
    now: u128,
    r: Action,
)
    requires
        ({
            let word = text::upper_text(text::text_of(name));
            &&& word != "PING"@
            &&& word != "ECHO"@
            &&& word != "SET"@
            &&& word != "GET"@
            &&& word != "DEL"@
            &&& word != "EXISTS"@
            &&& word != "BGSAVE"@
            &&& word != "SYNC"@
        }),
        connection::done(
            r,
            model::decide(request(name, args), node),
            request(name, args),
            t,
            now,
        ),
    ensures
        answers(
            r,
            error_reply(
                "ERR unknown command '"@ + text::unbroken(
                    text::upper_text(text::text_of(name)),
                ) + "'"@,
            ),
        ),
        connection::left(model::decide(request(name, args), node), t, now) == t,
{
    lemma_replies();
}

/// A command that names a key is sent to the node that the first key belongs to,
/// if that is another one, and is executed here if not.
pub proof fn law_commands_run_where_the_key_belongs(items: Seq<Resp>, node: Node)
    requires
        cmd::model::command_of(items) is Ok,
        cmd::model::command_of(items)->Ok_0 is SetKey || cmd::model::command_of(items)->Ok_0 is Get
            || cmd::model::command_of(items)->Ok_0 is Del || cmd::model::command_of(items)->Ok_0
            is Exists,
        !model::is_sync(items),
    ensures
        items.len() > 1,
        is_data(items[1]),
        forall|a: Seq<char>|
            #![trigger belongs_to(node, items[1]->BulkString_0->0, a)]
            belongs_to(node, items[1]->BulkString_0->0, a) ==> model::decide(
                Resp::Array(Some(items)),
                node,
            ) == Decision::Forward(a),
        belongs(node, items[1]->BulkString_0->0) <==> model::decide(
            Resp::Array(Some(items)),
            node,
        ) == Decision::Execute(cmd::model::command_of(items)->Ok_0),
{
    cmd::laws::law_commands_with_keys_are_routed(items);
}

/// A node is what its cluster state says: whether it is part of a cluster, the
/// points of the ring, and its own address.
pub proof fn law_node(state: ClusterState, master: bool, target: String)
    ensures
        connection::node_of(state, master).clustered == state.enabled,
        connection::node_of(state, master).points == state.ring@.points,
        connection::node_of(state, master).address == state.current_addr@,
        connection::node_of(state, master).master == master,
        connection::text_of_option(Some(target)) == Some(target@),
        connection::text_of_option(None) is None,
{
}

/// A command with a target is sent there, as the request that it came in, and
/// changes nothing here; BGSAVE alone is never sent on.
pub proof fn law_commands_with_a_target(
    c: Cmd,
    a: Seq<char>,
    frame: Resp,
    t: Table,
    now: u128,
    r: Action,
)
    requires
        connection::done(r, model::decide_target(c, Some(a)), frame, t, now),
    ensures
        c is Bgsave ==> r is Save,
        !(c is Bgsave) ==> forwards(r, a, frame),
        connection::left(model::decide_target(c, Some(a)), t, now) == t,
{
}

/// A command without a target is executed here, and the request is recorded
/// exactly if the command sets or deletes keys; BGSAVE saves a snapshot.
pub proof fn law_commands_without_a_target(
    c: Cmd,
    frame: Resp,
    t: Table,
    now: u128,
    r: Action,
)
    requires
        connection::done(r, model::decide_target(c, None), frame, t, now),
    ensures
        c is Bgsave ==> r is Save && connection::left(model::decide_target(c, None), t, now) == t,
        c is SetKey || c is Del ==> answers_and_records(
            r,
            resp::model::encoded(cmd::model::reply(c, t, now)),
            frame,
        ),
        c is Ping || c is Echo || c is Get || c is Exists ==> answers(
            r,
            resp::model::encoded(cmd::model::reply(c, t, now)),
        ),
        !(c is Bgsave) ==> connection::left(model::decide_target(c, None), t, now)
            == cmd::model::effect(c, t, now),
{
}

/// The first key that a command names, if it names one.
pub open spec fn first_key(c: Cmd) -> Option<Seq<u8>> {
    match c {
        Cmd::SetKey { key, .. } => Some(key),
        Cmd::Get(key) => Some(key),
        Cmd::Del(keys) if keys.len() > 0 => Some(keys[0]),
        Cmd::Exists(keys) if keys.len() > 0 => Some(keys[0]),
        _ => None,
    }
}

/// The target of a command is the node that its first key belongs to, if that is
/// another one.
pub proof fn law_targets(c: Cmd, node: Node, a: Seq<char>)
    ensures
        model::decide_command(c, node) == model::decide_target(c, model::target_of(c, node)),
        model::target_of(c, node) == Some(a) <==> first_key(c) is Some && belongs_to(
            node,
            first_key(c)->0,
            a,
        ),
        model::target_of(c, node) is None <==> first_key(c) is None || belongs(
            node,
            first_key(c)->0,
        ),
{
}

/// By the clock: a value that SET with EX has put is what GET answers with as long
/// as the clock has not moved on by as many seconds, and from then on the answer is
/// null. Both times are readings of the clock of the store.
pub proof fn law_set_for_then_get(
    origin: std::time::Instant,
    set_at: u128,
    get_at: u128,
    set: Seq<u8>,
    get: Seq<u8>,
    key: Seq<u8>,
    value: Seq<u8>,
    option: Seq<u8>,
    secs: Seq<u8>,
    n: u64,
    node: Node,
    t: Table,
    r: Action,
)
    requires
        store::clock::is_reading(origin, set_at),
        store::clock::is_reading(origin, get_at),
        spells(set, "SET"@),
        spells(get, "GET"@),
        spells(option, "EX"@),
        writes(secs, n),
        belongs(node, key),
        set_at <= get_at < u128::MAX,
        connection::done(
            r,
            model::decide(request(get, seq![bulk(key)]), node),
            request(get, seq![bulk(key)]),
            connection::left(
                model::decide(
                    request(set, set_for_args(key, value, option, secs, Seq::empty())),
                    node,
                ),
                t,
                set_at,
            ),
            get_at,
        ),
    ensures
        get_at - set_at < n * 1_000_000_000 ==> answers(r, data_reply(value)),
        get_at - set_at >= n * 1_000_000_000 ==> answers(r, null_reply()),
{
    lemma_words();
    lemma_replies();
    lemma_set_for(set, key, value, option, secs, n, Seq::empty());
    lemma_request(get, "GET"@, seq![bulk(key)]);
}

/// A value that SET has put for good is what GET answers with from then on, and one
/// that DEL has taken out is not there any more.
pub proof fn law_set_and_del_then_get(
    set: Seq<u8>,
    del: Seq<u8>,
    get: Seq<u8>,
    key: Seq<u8>,
    value: Seq<u8>,
    keys: Seq<Seq<u8>>,
    node: Node,
    t: Table,
    now: u128,
    later: u128,
    r: Action,
    q: Action,
)
    requires
        spells(set, "SET"@),
        spells(del, "DEL"@),
        spells(get, "GET"@),
        belongs(node, key),
        keys.contains(key),
        belongs(node, keys[0]),
        connection::done(
            r,
            model::decide(request(get, seq![bulk(key)]), node),
            request(get, seq![bulk(key)]),
            connection::left(
                model::decide(request(set, seq![bulk(key), bulk(value)]), node),
                t,
                now,
            ),
            later,
        ),
        connection::done(
            q,
            model::decide(request(get, seq![bulk(key)]), node),
            request(get, seq![bulk(key)]),
            connection::left(model::decide(request(del, bulks(keys)), node), t, now),
            later,
        ),
    ensures
        answers(r, data_reply(value)),
        answers(q, null_reply()),
{
    lemma_words();
    lemma_replies();
    lemma_request(set, "SET"@, seq![bulk(key), bulk(value)]);
    lemma_request(del, "DEL"@, bulks(keys));
    lemma_bulks(keys);
    lemma_request(get, "GET"@, seq![bulk(key)]);
    assert(keys.to_set().contains(key));
}

/// What is seen up to and with the first frame: that frame, and only errors before
/// it.
pub proof fn law_first_frame(es: Seq<Event>, n: int, v: Resp)
    ensures
        connection::first_frame(es, n, v) == (0 <= n < es.len() && es[n] == Event::Frame(v) && (
        forall|i: int| 0 <= i < n ==> !(#[trigger] es[i] is Frame))),
{
}

/// A request asks for the data of a master exactly if its name is SYNC in capital
/// letters; the name is a bulk string or a simple string.
pub proof fn law_sync_names(b: Seq<u8>, s: Seq<char>, v: Resp, args: Seq<Resp>)
    ensures
        model::is_sync(seq![Resp::BulkString(Some(b))] + args) == (text::upper_text(
            text::text_of(b),
        ) == "SYNC"@),
        model::is_sync(seq![Resp::SimpleString(s)] + args) == (text::upper_text(s) == "SYNC"@),
        !is_data(v) && !(v is SimpleString) ==> !model::is_sync(seq![v] + args),
        !model::is_sync(Seq::empty()),
{
}

/// Any other request is answered with the error if it is not understood, and is
/// handled as the command that it is understood as if it is.
pub proof fn law_other_requests(items: Seq<Resp>, node: Node)
    requires
        !model::is_sync(items),
    ensures
        cmd::model::command_of(items) matches Err(m) ==> model::decide(
            Resp::Array(Some(items)),
            node,
        ) == Decision::Answer(Resp::Error(m)),
        cmd::model::command_of(items) matches Ok(c) ==> model::decide(
            Resp::Array(Some(items)),
            node,
        ) == model::decide_command(c, node),
{
}

/// An answer is sent as it is, and changes nothing.
pub proof fn law_answers(v: Resp, frame: Resp, t: Table, now: u128, r: Action)
    ensures
        connection::done(r, Decision::Answer(v), frame, t, now) == answers(
            r,
            resp::model::encoded(v),
        ),
        connection::left(Decision::Answer(v), t, now) == t,
{
}

} // verus!
