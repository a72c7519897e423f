//! The arguments of the load generator one by one, its requests, and the replies
//! that it accepts.
use crate::benchmark;
use crate::benchmark::model;
use crate::benchmark::model::{Asked, Counts, Settings};
use crate::benchmark::{CommandType, Config, Start, Tally};
use crate::resp;
use crate::resp::model::Resp;
use crate::resp::wire;
use crate::text;
use vstd::prelude::*;
use vstd::utf8::*;

verus! {

/// The settings without arguments.
pub proof fn law_defaults()
    ensures
        model::default_settings().addr == "127.0.0.1:8080"@,
        model::default_settings().connections == 50,
        model::default_settings().requests_per_connection == 1000,
        model::default_settings().command == CommandType::Mixed,
        model::default_settings().value_size == 256,
        !model::default_settings().csv,
{
}

/// Settings, what is asked for, counts and lists of strings stand for what they
/// hold.
pub proof fn law_benchmark_views(
    c: Config,
    value_size: usize,
    message: String,
    t: Tally,
    items: Seq<String>,
    i: int,
)
    ensures
        c@.addr == c.addr@,
        c@.connections == c.connections,
        c@.requests_per_connection == c.requests_per_connection,
        c@.command == c.command,
        c@.value_size == c.value_size,
        c@.csv == c.csv,
        Start::Run(c)@ == Asked::Run(c@),
        (Start::Microbench { value_size })@ == Asked::Microbench(value_size as nat),
        Start::Help@ == Asked::Help,
        Start::Invalid(message)@ == Asked::Invalid(message@),
        t@.success == t.success,
        t@.errors == t.errors,
        benchmark::string_views(items).len() == items.len(),
        0 <= i < items.len() ==> benchmark::string_views(items)[i] == items[i]@,
{
}

/// The words that the arguments may be are all different.
proof fn lemma_flags()
    ensures
        "--addr"@.len() == 6,
        "--connections"@.len() == 13,
        "--requests"@.len() == 10,
        "--command"@.len() == 9,
        "--value-size"@.len() == 12,
        "--csv"@.len() == 5,
        "--microbench"@.len() == 12,
        "--help"@.len() == 6,
        "-h"@.len() == 2,
        "--addr"@[2] == 'a',
        "--help"@[2] == 'h',
        "--value-size"@[2] == 'v',
        "--microbench"@[2] == 'm',
{
    reveal_strlit("--addr");
    reveal_strlit("--connections");
    reveal_strlit("--requests");
    reveal_strlit("--command");
    reveal_strlit("--value-size");
    reveal_strlit("--csv");
    reveal_strlit("--microbench");
    reveal_strlit("--help");
    reveal_strlit("-h");
}

/// When all arguments are read, a run with the settings is asked for.
pub proof fn law_arguments_end(args: Seq<Seq<char>>, c: Settings, ignored: Seq<Seq<char>>)
    ensures
        model::asked(args, args.len() as int, c, ignored) == (Asked::Run(c), ignored),
{
}

/// The address is taken as it is.
pub proof fn law_address_argument(
    args: Seq<Seq<char>>,
    i: int,
    c: Settings,
    ignored: Seq<Seq<char>>,
)
    requires
        0 <= i,
        i + 1 < args.len(),
        args[i] == "--addr"@,
    ensures
        model::asked(args, i, c, ignored) == model::asked(
            args,
            i + 2,
            (Settings {
                addr: args[i + 1],
                connections: c.connections,
                requests_per_connection: c.requests_per_connection,
                command: c.command,
                value_size: c.value_size,
                csv: c.csv,
            }),
            ignored,
        ),
{
}

/// Numbers are read from digits, and each changes one of the settings.
pub proof fn law_number_arguments(
    args: Seq<Seq<char>>,
    i: int,
    c: Settings,
    ignored: Seq<Seq<char>>,
    n: nat,
)
    requires
        0 <= i,
        i + 1 < args.len(),
        wire::digits(encode_utf8(args[i + 1])),
        encode_utf8(args[i + 1]).len() > 0,
        text::decimal_value(encode_utf8(args[i + 1])) == n,
        n <= usize::MAX,
    ensures
        args[i] == "--connections"@ ==> model::asked(args, i, c, ignored) == model::asked(
            args,
            i + 2,
            (Settings {
                addr: c.addr,
                connections: n,
                requests_per_connection: c.requests_per_connection,
                command: c.command,
                value_size: c.value_size,
                csv: c.csv,
            }),
            ignored,
        ),
        args[i] == "--requests"@ ==> model::asked(args, i, c, ignored) == model::asked(
            args,
            i + 2,
            (Settings {
                addr: c.addr,
                connections: c.connections,
                requests_per_connection: n,
                command: c.command,
                value_size: c.value_size,
                csv: c.csv,
            }),
            ignored,
        ),
        args[i] == "--value-size"@ ==> model::asked(args, i, c, ignored) == model::asked(
            args,
            i + 2,
            (Settings {
                addr: c.addr,
                connections: c.connections,
                requests_per_connection: c.requests_per_connection,
                command: c.command,
                value_size: n,
                csv: c.csv,
            }),
            ignored,
        ),
{
    let d = encode_utf8(args[i + 1]);
    lemma_flags();
    assert(48 <= d[0] <= 57);
    text::law_unsigned_numbers(d, usize::MAX as nat);
}

/// What is no number, or too large a one, is refused, and the argument named.
pub proof fn law_bad_numbers(
    args: Seq<Seq<char>>,
    i: int,
    c: Settings,
    ignored: Seq<Seq<char>>,
)
    requires
        0 <= i,
        i + 1 < args.len(),
        args[i] == "--connections"@ || args[i] == "--requests"@ || args[i] == "--value-size"@,
        text::unsigned_of(encode_utf8(args[i + 1]), usize::MAX as nat) is None,
    ensures
        model::asked(args, i, c, ignored) == (
            Asked::Invalid(args[i] + " must be integer"@),
            ignored,
        ),
{
    lemma_flags();
}

/// The kinds of commands are `set`, `get` and `mixed`, in any case; another word is
/// refused, and shown in lower case.
pub proof fn law_command_argument(
    args: Seq<Seq<char>>,
    i: int,
    c: Settings,
    ignored: Seq<Seq<char>>,
    command: CommandType,
)
    requires
        0 <= i,
        i + 1 < args.len(),
        args[i] == "--command"@,
    ensures
        text::lower_text(args[i + 1]) == match command {
            CommandType::Sets => "set"@,
            CommandType::Gets => "get"@,
            CommandType::Mixed => "mixed"@,
        } ==> model::asked(args, i, c, ignored) == model::asked(
            args,
            i + 2,
            (Settings {
                addr: c.addr,
                connections: c.connections,
                requests_per_connection: c.requests_per_connection,
                command,
                value_size: c.value_size,
                csv: c.csv,
            }),
            ignored,
        ),
        text::lower_text(args[i + 1]) != "set"@ && text::lower_text(args[i + 1]) != "get"@
            && text::lower_text(args[i + 1]) != "mixed"@ ==> model::asked(args, i, c, ignored) == (
            Asked::Invalid(
                "unknown command type: "@ + text::lower_text(args[i + 1])
                    + " (use set/get/mixed)"@,
            ),
            ignored,
        ),
{
    lemma_flags();
    law_command_types(text::lower_text(args[i + 1]));
}

/// The words for the kinds of commands.
pub proof fn law_command_types(lower: Seq<char>)
    ensures
        model::command_type("set"@) == Ok::<CommandType, Seq<char>>(CommandType::Sets),
        model::command_type("get"@) == Ok::<CommandType, Seq<char>>(CommandType::Gets),
        model::command_type("mixed"@) == Ok::<CommandType, Seq<char>>(CommandType::Mixed),
        lower != "set"@ && lower != "get"@ && lower != "mixed"@ ==> model::command_type(lower)
            == Err::<CommandType, Seq<char>>(
            "unknown command type: "@ + lower + " (use set/get/mixed)"@,
        ),
{
    reveal_strlit("set");
    reveal_strlit("get");
    reveal_strlit("mixed");
    assert("set"@[0] != "get"@[0]);
    assert("set"@.len() != "mixed"@.len());
    assert("get"@.len() != "mixed"@.len());
}

/// An argument that needs a value must have one.
pub proof fn law_missing_values(args: Seq<Seq<char>>, c: Settings, ignored: Seq<Seq<char>>)
    requires
        args.len() > 0,
        args.last() == "--addr"@ || args.last() == "--connections"@ || args.last() == "--requests"@
            || args.last() == "--command"@ || args.last() == "--value-size"@,
    ensures
        model::asked(args, args.len() - 1, c, ignored) == (
            Asked::Invalid("missing value for "@ + args.last()),
            ignored,
        ),
{
}

/// The arguments without a value: `--csv` changes how results are shown,
/// `--microbench` and `--help` ask for something else than a run, and what is not
/// known is ignored.
pub proof fn law_plain_arguments(
    args: Seq<Seq<char>>,
    i: int,
    c: Settings,
    ignored: Seq<Seq<char>>,
)
    requires
        0 <= i < args.len(),
    ensures
        args[i] == "--csv"@ ==> model::asked(args, i, c, ignored) == model::asked(
            args,
            i + 1,
            (Settings {
                addr: c.addr,
                connections: c.connections,
                requests_per_connection: c.requests_per_connection,
                command: c.command,
                value_size: c.value_size,
                csv: true,
            }),
            ignored,
        ),
        args[i] == "--microbench"@ ==> model::asked(args, i, c, ignored) == (
            Asked::Microbench(c.value_size),
            ignored,
        ),
        args[i] == "--help"@ || args[i] == "-h"@ ==> model::asked(args, i, c, ignored) == (
            Asked::Help,
            ignored,
        ),
        args[i] != "--addr"@ && args[i] != "--connections"@ && args[i] != "--requests"@ && args[i]
            != "--command"@ && args[i] != "--value-size"@ && args[i] != "--csv"@ && args[i]
            != "--microbench"@ && args[i] != "--help"@ && args[i] != "-h"@ ==> model::asked(
            args,
            i,
            c,
            ignored,
        ) == model::asked(args, i + 1, c, ignored.push(args[i])),
{
    lemma_flags();
}

/// Only SET, only GET, or both in turn, beginning with SET.
pub proof fn law_turns(n: nat)
    ensures
        model::is_set(CommandType::Sets, n),
        !model::is_set(CommandType::Gets, n),
        model::is_set(CommandType::Mixed, 0),
        model::is_set(CommandType::Mixed, n + 1) == !model::is_set(CommandType::Mixed, n),
{
}

/// The key of a request is `bench:`, the number of the worker, a colon, and a
/// number that grows by one every ten requests.
pub proof fn law_request_keys(worker: nat, tens: nat, unit: nat)
    requires
        unit < 10,
    ensures
        model::request_key(worker, 10 * tens + unit) == seq![
            98u8,
            101u8,
            110u8,
            99u8,
            104u8,
            58u8,
        ] + text::decimal(worker) + seq![58u8] + text::decimal(tens),
{
    let head = seq![98u8, 101u8, 110u8, 99u8, 104u8, 58u8];
    reveal_strlit("bench:");
    text::lemma_ascii_text(head);
    assert(text::ascii_text(head) =~= "bench:"@);
    assert((10 * tens + unit) / 10 == tens);
}

/// A request is SET with its key and the value, or GET with its key.
pub proof fn law_benchmark_requests(
    command: CommandType,
    worker: nat,
    number: nat,
    value: Seq<u8>,
)
    ensures
        model::is_set(command, number) ==> model::request(command, worker, number, value)
            == Resp::Array(
            Some(
                seq![
                    Resp::BulkString(Some(seq![83u8, 69u8, 84u8])),
                    Resp::BulkString(Some(model::request_key(worker, number))),
                    Resp::BulkString(Some(value)),
                ],
            ),
        ),
        !model::is_set(command, number) ==> model::request(command, worker, number, value)
            == Resp::Array(
            Some(
                seq![
                    Resp::BulkString(Some(seq![71u8, 69u8, 84u8])),
                    Resp::BulkString(Some(model::request_key(worker, number))),
                ],
            ),
        ),
{
    let set = seq![83u8, 69u8, 84u8];
    let get = seq![71u8, 69u8, 84u8];
    reveal_strlit("SET");
    reveal_strlit("GET");
    text::lemma_ascii_text(set);
    text::lemma_ascii_text(get);
    assert(text::ascii_text(set) =~= "SET"@);
    assert(text::ascii_text(get) =~= "GET"@);
}

/// A reply reports success if it begins with `+OK` or `+PONG` and a line end.
pub proof fn law_good_replies(reply: Seq<u8>)
    ensures
        model::is_ok(reply) <==> seq![43u8, 79u8, 75u8, 13u8, 10u8].is_prefix_of(reply) || seq![
            43u8,
            80u8,
            79u8,
            78u8,
            71u8,
            13u8,
            10u8,
        ].is_prefix_of(reply),
{
    let ok = seq![43u8, 79u8, 75u8, 13u8, 10u8];
    let pong = seq![43u8, 80u8, 79u8, 78u8, 71u8, 13u8, 10u8];
    reveal_strlit("+OK\r\n");
    reveal_strlit("+PONG\r\n");
    text::lemma_ascii_text(ok);
    text::lemma_ascii_text(pong);
    assert(text::ascii_text(ok) =~= "+OK\r\n"@);
    assert(text::ascii_text(pong) =~= "+PONG\r\n"@);
}

/// The line end behind a line.
proof fn lemma_line(kind: u8, line: Seq<u8>, rest: Seq<u8>)
    requires
        wire::one_line(line),
    ensures
        resp::model::find_crlf((seq![kind] + line + seq![13u8, 10u8] + rest).skip(1)) == Some(
            line.len(),
        ),
        (seq![kind] + line + seq![13u8, 10u8] + rest).subrange(1, 1 + line.len() as int) == line,
        (seq![kind] + line + seq![13u8, 10u8] + rest).skip(line.len() as int + 3) == rest,
{
    let b = seq![kind] + line + seq![13u8, 10u8] + rest;
    let tail = line + seq![13u8, 10u8] + rest;
    assert(b.skip(1) =~= tail);
    assert forall|i: int| 0 <= i < line.len() implies !(#[trigger] tail[i] == 13 && tail[i + 1]
        == 10) by {
        assert(tail[i] == line[i]);
        if i + 1 < line.len() {
            assert(tail[i + 1] == line[i + 1]);
        }
    }
    resp::laws::lemma_find_crlf_is(tail, line.len());
    assert(b.subrange(1, 1 + line.len() as int) =~= line);
    assert(b.skip(line.len() as int + 3) =~= rest);
}

/// A reply holds data if it begins with `$` and a line that writes a length: no
/// negative one, and nothing else.
pub proof fn law_data_replies(line: Seq<u8>, rest: Seq<u8>, kind: u8)
    requires
        wire::one_line(line),
    ensures
        model::is_bulk(seq![36u8] + line + seq![13u8, 10u8] + rest) == (text::signed_of(line)
            is Some && text::signed_of(line)->0 >= 0),
        kind != 36 ==> !model::is_bulk(seq![kind] + rest),
        !model::is_bulk(seq![36u8] + line),
{
    lemma_line(36, line, rest);
    if text::signed_of(line) is Some {
        assert(line.len() > 0);
    }
    assert((seq![36u8] + line).skip(1) =~= line);
    wire::lemma_no_end(line);
}

/// One more request counts as a success exactly if there was a reply and it was
/// the expected one, and as an error otherwise.
pub proof fn law_counting(c: Counts, outcomes: Seq<(bool, bool)>, replied: bool, good: bool)
    ensures
        model::counted(c, replied, good).success + model::counted(c, replied, good).errors
            == c.success + c.errors + 1,
        model::counted(c, replied, good).success == c.success + if replied && good {
            1nat
        } else {
            0nat
        },
        model::counts_of(Seq::empty()) == (Counts { success: 0, errors: 0 }),
        model::counts_of(outcomes.push((replied, good))) == model::counted(
            model::counts_of(outcomes),
            replied,
            good,
        ),
{
    assert(outcomes.push((replied, good)).drop_last() =~= outcomes);
}

/// The lines of simple strings, errors and integers are measured up to their line
/// ends, whatever they hold; without a line end they cannot be.
pub proof fn law_measured_lines(kind: u8, line: Seq<u8>, rest: Seq<u8>)
    requires
        wire::one_line(line),
        kind == 43 || kind == 45 || kind == 58,
    ensures
        model::measure(seq![kind] + line + seq![13u8, 10u8] + rest) == Some(
            (line.len() + 3) as nat,
        ),
        model::measure(seq![kind] + line) is None,
{
    lemma_line(kind, line, rest);
    assert((seq![kind] + line).skip(1) =~= line);
    wire::lemma_no_end(line);
    assert((seq![kind] + line + seq![13u8, 10u8] + rest)[0] == kind);
}

/// Bulk strings are measured by the length that their line says, two bytes more
/// for the line end; they cannot be as long as they have not arrived. Lengths below
/// -1 and what is no number cannot be measured.
pub proof fn law_measured_bulks(line: Seq<u8>, rest: Seq<u8>)
    requires
        wire::one_line(line),
    ensures
        model::measure(seq![36u8] + line) is None,
        text::signed_of(line) is None ==> model::measure(
            seq![36u8] + line + seq![13u8, 10u8] + rest,
        ) is None,
        text::signed_of(line) matches Some(v) ==> {
            &&& v == -1 ==> model::measure(seq![36u8] + line + seq![13u8, 10u8] + rest) == Some(
                (line.len() + 3) as nat,
            )
            &&& v < -1 || v + 2 > rest.len() ==> v == -1 || model::measure(
                seq![36u8] + line + seq![13u8, 10u8] + rest,
            ) is None
            &&& 0 <= v && v + 2 <= rest.len() ==> model::measure(
                seq![36u8] + line + seq![13u8, 10u8] + rest,
            ) == Some((line.len() + 5 + v) as nat)
        },
{
    lemma_line(36, line, rest);
    assert((seq![36u8] + line).skip(1) =~= line);
    wire::lemma_no_end(line);
    assert((seq![36u8] + line + seq![13u8, 10u8] + rest)[0] == 36);
}

/// Arrays are measured with as many frames as their line says, and with none if it
/// says less than one.
pub proof fn law_measured_arrays(line: Seq<u8>, body: Seq<u8>)
    requires
        wire::one_line(line),
    ensures
        model::measure(seq![42u8] + line) is None,
        text::signed_of(line) is None ==> model::measure(
            seq![42u8] + line + seq![13u8, 10u8] + body,
        ) is None,
        text::signed_of(line) matches Some(v) ==> {
            &&& v <= 0 ==> model::measure(seq![42u8] + line + seq![13u8, 10u8] + body) == Some(
                (line.len() + 3) as nat,
            )
            &&& v > 0 && model::measure_all(body, v as nat) is None ==> model::measure(
                seq![42u8] + line + seq![13u8, 10u8] + body,
            ) is None
            &&& v > 0 && model::measure_all(body, v as nat) is Some ==> model::measure(
                seq![42u8] + line + seq![13u8, 10u8] + body,
            ) == Some((line.len() + 3 + model::measure_all(body, v as nat)->0) as nat)
        },
{
    lemma_line(42, line, body);
    assert((seq![42u8] + line).skip(1) =~= line);
    wire::lemma_no_end(line);
    assert((seq![42u8] + line + seq![13u8, 10u8] + body)[0] == 42);
}

/// Several frames are measured one after another; anything else than a frame
/// cannot be measured.
pub proof fn law_measured_lists(b: Seq<u8>, n: nat, m: nat)
    ensures
        model::measure_all(b, 0) == Some(0nat),
        model::measure(b) is None ==> model::measure_all(b, n + 1) is None,
        model::measure(b) == Some(m) && m <= b.len() && model::measure_all(b.skip(m as int), n)
            is None ==> model::measure_all(b, n + 1) is None,
        model::measure(b) == Some(m) && m <= b.len() && model::measure_all(b.skip(m as int), n)
            is Some ==> model::measure_all(b, n + 1) == Some(
            m + model::measure_all(b.skip(m as int), n)->0,
        ),
        b.len() == 0 ==> model::measure(b) is None,
        b.len() > 0 && b[0] != 43 && b[0] != 45 && b[0] != 58 && b[0] != 36 && b[0] != 42
            ==> model::measure(b) is None,
{
}

} // verus!
