//! The mathematical model of the load generator: its settings, its requests, and
//! how it reads replies.
use crate::benchmark::CommandType;
use crate::resp;
use crate::resp::model::Resp;
use crate::text;
use vstd::prelude::*;
use vstd::utf8::*;

verus! {

/// The settings of a run.
#[verifier::ext_equal]
pub struct Settings {
    pub addr: Seq<char>,
    pub connections: nat,
    pub requests_per_connection: nat,
    pub command: CommandType,
    pub value_size: nat,
    pub csv: bool,
}

/// What the arguments ask for.
pub enum Asked {
    Run(Settings),
    /// The small benchmarks that need no server, with values of the given size.
    Microbench(nat),
    Help,
    /// The arguments make no sense.
    Invalid(Seq<char>),
}

/// The settings of a run without arguments.
pub open spec fn default_settings() -> Settings {
    Settings {
        addr: "127.0.0.1:8080"@,
        connections: 50,
        requests_per_connection: 1000,
        command: CommandType::Mixed,
        value_size: 256,
        csv: false,
    }
}

/// Is this an argument that is followed by a value?
pub open spec fn takes_value(flag: Seq<char>) -> bool {
    flag == "--addr"@ || flag == "--connections"@ || flag == "--requests"@ || flag == "--command"@
        || flag == "--value-size"@
}

/// The number that an argument stands for.
pub open spec fn number_of(value: Seq<char>) -> Option<nat> {
    text::unsigned_of(encode_utf8(value), usize::MAX as nat)
}

/// Which commands are sent, given the lower-case text of the argument.
pub open spec fn command_type(lower: Seq<char>) -> Result<CommandType, Seq<char>> {
    if lower == "set"@ {
        Ok(CommandType::Sets)
    } else if lower == "get"@ {
        Ok(CommandType::Gets)
    } else if lower == "mixed"@ {
        Ok(CommandType::Mixed)
    } else {
        Err("unknown command type: "@ + lower + " (use set/get/mixed)"@)
    }
}

/// The settings with one of them changed, or why they cannot be.
pub open spec fn with_value(c: Settings, flag: Seq<char>, value: Seq<char>) -> Result<
    Settings,
    Seq<char>,
> {
    if flag == "--addr"@ {
        Ok(Settings { addr: value, ..c })
    } else if flag == "--command"@ {
        match command_type(text::lower_text(value)) {
            Ok(command) => Ok(Settings { command, ..c }),
            Err(message) => Err(message),
        }
    } else {
        match number_of(value) {
            None => Err(flag + " must be integer"@),
            Some(n) => Ok(
                if flag == "--connections"@ {
                    Settings { connections: n, ..c }
                } else if flag == "--requests"@ {
                    Settings { requests_per_connection: n, ..c }
                } else {
                    Settings { value_size: n, ..c }
                },
            ),
        }
    }
}

/// What the arguments from position `i` on ask for, and which of them are not
/// known and ignored.
pub open spec fn asked(
    args: Seq<Seq<char>>,
    i: int,
    c: Settings,
    ignored: Seq<Seq<char>>,
) -> (Asked, Seq<Seq<char>>)
    decreases args.len() - i,
{
    if i < 0 || i >= args.len() {
        (Asked::Run(c), ignored)
    } else if takes_value(args[i]) {
        if i + 1 >= args.len() {
            (Asked::Invalid("missing value for "@ + args[i]), ignored)
        } else {
            match with_value(c, args[i], args[i + 1]) {
                Ok(changed) => asked(args, i + 2, changed, ignored),
                Err(message) => (Asked::Invalid(message), ignored),
            }
        }
    } else if args[i] == "--csv"@ {
        asked(args, i + 1, Settings { csv: true, ..c }, ignored)
    } else if args[i] == "--microbench"@ {
        (Asked::Microbench(c.value_size), ignored)
    } else if args[i] == "--help"@ || args[i] == "-h"@ {
        (Asked::Help, ignored)
    } else {
        asked(args, i + 1, c, ignored.push(args[i]))
    }
}

/// Is the request with the given number a SET?
pub open spec fn is_set(command: CommandType, request: nat) -> bool {
    match command {
        CommandType::Sets => true,
        CommandType::Gets => false,
        CommandType::Mixed => request % 2 == 0,
    }
}

/// The key of a request: ten requests in a row of a worker have the same.
pub open spec fn request_key(worker: nat, request: nat) -> Seq<u8> {
    encode_utf8("bench:"@) + text::decimal(worker) + seq![58u8] + text::decimal(request / 10)
}

/// A request.
pub open spec fn request(command: CommandType, worker: nat, number: nat, value: Seq<u8>) -> Resp {
    let key = Resp::BulkString(Some(request_key(worker, number)));
    if is_set(command, number) {
        Resp::Array(
            Some(
                seq![
                    Resp::BulkString(Some(encode_utf8("SET"@))),
                    key,
                    Resp::BulkString(Some(value)),
                ],
            ),
        )
    } else {
        Resp::Array(Some(seq![Resp::BulkString(Some(encode_utf8("GET"@))), key]))
    }
}

/// Is this a reply that reports success?
pub open spec fn is_ok(reply: Seq<u8>) -> bool {
    encode_utf8("+OK\r\n"@).is_prefix_of(reply) || encode_utf8("+PONG\r\n"@).is_prefix_of(reply)
}

/// Is this a reply that begins a bulk string other than the null one? The data
/// need not have arrived.
pub open spec fn is_bulk(reply: Seq<u8>) -> bool {
    &&& reply.len() >= 4
    &&& reply[0] == 36
    &&& resp::model::find_crlf(reply.skip(1)) matches Some(n) && (text::signed_of(
        reply.subrange(1, 1 + n as int),
    ) matches Some(v) && v >= 0)
}

/// What came of the requests so far.
pub struct Counts {
    pub success: nat,
    pub errors: nat,
}

/// The counts after one more request: it went well if there was a reply and the
/// reply was the expected one.
pub open spec fn counted(c: Counts, replied: bool, good: bool) -> Counts {
    if replied && good {
        Counts { success: c.success + 1, errors: c.errors }
    } else {
        Counts { success: c.success, errors: c.errors + 1 }
    }
}

/// The counts of a list of requests: whether there was a reply, and whether it
/// was the expected one.
pub open spec fn counts_of(outcomes: Seq<(bool, bool)>) -> Counts
    decreases outcomes.len(),
{
    if outcomes.len() == 0 {
        Counts { success: 0, errors: 0 }
    } else {
        counted(counts_of(outcomes.drop_last()), outcomes.last().0, outcomes.last().1)
    }
}

/// How many bytes the frame at the front takes. The text of a line is not looked
/// at, nor is what ends the data of a bulk string.
pub open spec fn measure(b: Seq<u8>) -> Option<nat>
    decreases b.len(), 1nat, 0nat,
{
    if b.len() == 0 {
        None
    } else if b[0] == 43 || b[0] == 45 || b[0] == 58 {
        match resp::model::find_crlf(b.skip(1)) {
            None => None,
            Some(n) => Some(n + 3),
        }
    } else if b[0] == 36 || b[0] == 42 {
        match resp::model::find_crlf(b.skip(1)) {
            None => None,
            Some(n) => match text::signed_of(b.subrange(1, 1 + n as int)) {
                None => None,
                Some(v) => if v == -1 {
                    Some(n + 3)
                } else if b[0] == 36 {
                    if v >= 0 && n + 3 + v + 2 <= b.len() {
                        Some((n + 3 + v + 2) as nat)
                    } else {
                        None
                    }
                } else if v <= 0 {
                    Some(n + 3)
                } else if n + 3 > b.len() {
                    None
                } else {
                    match measure_all(b.skip(n as int + 3), v as nat) {
                        None => None,
                        Some(m) => Some(n + 3 + m),
                    }
                },
            },
        }
    } else {
        None
    }
}

/// How many bytes the first `n` frames take.
pub open spec fn measure_all(b: Seq<u8>, n: nat) -> Option<nat>
    decreases b.len(), 2nat, n,
{
    if n == 0 {
        Some(0)
    } else {
        match measure(b) {
            Some(m) if m <= b.len() => match measure_all(b.skip(m as int), (n - 1) as nat) {
                Some(rest) => Some(m + rest),
                None => None,
            },
            _ => None,
        }
    }
}

} // verus!
