//! The logic of the load generator: its arguments, the requests it sends, and how
//! it judges replies.
use crate::benchmark::model::{Asked, Counts, Settings};
use crate::random;
use crate::resp;
use crate::resp::parser;
use crate::resp::parser::RespValue;
use crate::text;
use rand::rngs::SmallRng;
use vstd::prelude::*;
use vstd::slice::*;
use vstd::string::*;
use vstd::utf8::*;

pub mod details;
pub mod laws;
pub mod model;

verus! {

/// Which commands are sent.
#[derive(Clone, Copy, Debug, PartialEq, Eq, Structural)]
pub enum CommandType {
    Sets,
    Gets,
    /// SET and GET in turn.
    Mixed,
}

impl CommandType {
    /// The name under which results are reported.
    pub fn label(&self) -> (r: &'static str)
        ensures
            r@ == match *self {
                CommandType::Sets => "Set"@,
                CommandType::Gets => "Get"@,
                CommandType::Mixed => "Mixed"@,
            },
    {
        match self {
            CommandType::Sets => "Set",
            CommandType::Gets => "Get",
            CommandType::Mixed => "Mixed",
        }
    }
}

/// The settings of a run.
#[derive(Clone, Debug)]
pub struct Config {
    pub addr: String,
    pub connections: usize,
    pub requests_per_connection: usize,
    pub command: CommandType,
    pub value_size: usize,
    pub csv: bool,
}

impl View for Config {
    type V = Settings;

    open spec fn view(&self) -> Settings {
        Settings {
            addr: self.addr@,
            connections: self.connections as nat,
            requests_per_connection: self.requests_per_connection as nat,
            command: self.command,
            value_size: self.value_size as nat,
            csv: self.csv,
        }
    }
}

/// What the arguments ask for.
#[derive(Debug)]
pub enum Start {
    Run(Config),
    Microbench { value_size: usize },
    Help,
    Invalid(String),
}

impl View for Start {
    type V = Asked;

    open spec fn view(&self) -> Asked {
        match *self {
            Start::Run(config) => Asked::Run(config@),
            Start::Microbench { value_size } => Asked::Microbench(value_size as nat),
            Start::Help => Asked::Help,
            Start::Invalid(message) => Asked::Invalid(message@),
        }
    }
}

/// The texts that a list of strings stands for.
pub open spec fn string_views(items: Seq<String>) -> Seq<Seq<char>> {
    items.map_values(|s: String| s@)
}

impl Default for Config {
    fn default() -> (r: Self)
        ensures
            r@ == model::default_settings(),
    {
        Config {
            addr: String::from_str("127.0.0.1:8080"),
            connections: 50,
            requests_per_connection: 1000,
            command: CommandType::Mixed,
            value_size: 256,
            csv: false,
        }
    }
}

/// Which commands are sent, given the lower-case text of the argument.
pub fn parse_command_type(lower: &str) -> (r: Result<CommandType, String>)
    ensures
        match model::command_type(lower@) {
            Ok(c) => r == Ok::<CommandType, String>(c),
            Err(message) => r matches Err(m) && m@ == message,
        },
{
    if text::text_equal(lower, "set") {
        Ok(CommandType::Sets)
    } else if text::text_equal(lower, "get") {
        Ok(CommandType::Gets)
    } else if text::text_equal(lower, "mixed") {
        Ok(CommandType::Mixed)
    } else {
        Err(
            String::from_str("unknown command type: ").concat(lower).concat(
                " (use set/get/mixed)",
            ),
        )
    }
}

/// Is this an argument that is followed by a value?
fn takes_value(flag: &str) -> (r: bool)
    ensures
        r == model::takes_value(flag@),
{
    text::text_equal(flag, "--addr") || text::text_equal(flag, "--connections")
        || text::text_equal(flag, "--requests") || text::text_equal(flag, "--command")
        || text::text_equal(flag, "--value-size")
}

/// The settings with one of them changed, or why they cannot be.
fn with_value(config: Config, flag: &str, value: &str) -> (r: Result<Config, String>)
    ensures
        match model::with_value(config@, flag@, value@) {
            Ok(changed) => r matches Ok(c) && c@ == changed,
            Err(message) => r matches Err(m) && m@ == message,
        },
{
    let mut c: Config = config;
    if text::text_equal(flag, "--addr") {
        c.addr = String::from_str(value);
        return Ok(c);
    }
    if text::text_equal(flag, "--command") {
        let lower: String = text::lowercase(value);
        match parse_command_type(lower.as_str()) {
            Ok(command) => {
                c.command = command;
                return Ok(c);
            },
            Err(message) => {
                return Err(message);
            },
        }
    }
    match text::parse_unsigned(value.as_bytes(), usize::MAX as u64) {
        None => Err(String::from_str(flag).concat(" must be integer")),
        Some(n) => {
            if text::text_equal(flag, "--connections") {
                c.connections = n as usize;
            } else if text::text_equal(flag, "--requests") {
                c.requests_per_connection = n as usize;
            } else {
                c.value_size = n as usize;
            }
            Ok(c)
        },
    }
}

impl Config {
    /// Reads the arguments of the program, the first of which is its own name.
    /// Arguments that are not known are ignored, and given beside.
    pub fn from_args(args: &Vec<String>) -> (r: (Start, Vec<String>))
        ensures
            (r.0@, string_views(r.1@)) == model::asked(
                string_views(args@),
                1,
                model::default_settings(),
                Seq::empty(),
            ),
    {
        let ghost all = string_views(args@);
        let ghost whole = model::asked(all, 1, model::default_settings(), Seq::empty());
        let mut config: Config = Config::default();
        let mut ignored: Vec<String> = Vec::new();
        let mut i: usize = 1;
        assert(string_views(ignored@) =~= Seq::<Seq<char>>::empty());
        while i < args.len()
            invariant
                1 <= i,
                all == string_views(args@),
                whole == model::asked(all, 1, model::default_settings(), Seq::empty()),
                whole == model::asked(all, i as int, config@, string_views(ignored@)),
            decreases args@.len() - i,
        {
            let arg: &str = args[i].as_str();
            assert(all[i as int] == arg@);
            let ghost before = string_views(ignored@);
            if takes_value(arg) {
                if args.len() - i < 2 {
                    return (
                        Start::Invalid(String::from_str("missing value for ").concat(arg)),
                        ignored,
                    );
                }
                assert(all[i + 1] == args@[i + 1]@);
                match with_value(config, arg, args[i + 1].as_str()) {
                    Ok(changed) => {
                        config = changed;
                        i = i + 2;
                    },
                    Err(message) => {
                        return (Start::Invalid(message), ignored);
                    },
                }
            } else if text::text_equal(arg, "--csv") {
                config.csv = true;
                i = i + 1;
            } else if text::text_equal(arg, "--microbench") {
                return (Start::Microbench { value_size: config.value_size }, ignored);
            } else if text::text_equal(arg, "--help") || text::text_equal(arg, "-h") {
                return (Start::Help, ignored);
            } else {
                ignored.push(String::from_str(arg));
                assert(string_views(ignored@) =~= before.push(arg@));
                i = i + 1;
            }
        }
        (Start::Run(config), ignored)
    }
}

/// Is the request with the given number a SET?
pub fn is_set(command: CommandType, request: usize) -> (r: bool)
    ensures
        r == model::is_set(command, request as nat),
{
    match command {
        CommandType::Sets => true,
        CommandType::Gets => false,
        CommandType::Mixed => request % 2 == 0,
    }
}

/// A value for SET, of random lower-case letters.
pub fn random_value(seed: u64, size: usize) -> (r: Vec<u8>)
    ensures
        r@.len() == size,
        forall|i: int| 0 <= i < r@.len() ==> 97 <= #[trigger] r@[i] <= 122,
{
    let mut rng: SmallRng = random::seeded(seed);
    let mut value: Vec<u8> = Vec::new();
    let mut i: usize = 0;
    while i < size
        invariant
            i <= size,
            value@.len() == i,
            forall|j: int| 0 <= j < i ==> 97 <= #[trigger] value@[j] <= 122,
        decreases size - i,
    {
        value.push(random::random_letter(&mut rng));
        i = i + 1;
    }
    value
}

/// The key of a request.
pub fn request_key(worker: usize, request: usize) -> (r: Vec<u8>)
    ensures
        r@ == model::request_key(worker as nat, request as nat),
{
    let mut key: Vec<u8> = slice_to_vec("bench:".as_bytes());
    let worker_digits: Vec<u8> = text::decimal_bytes(worker as u64);
    let request_digits: Vec<u8> = text::decimal_bytes((request / 10) as u64);
    key.extend_from_slice(worker_digits.as_slice());
    key.push(58);
    key.extend_from_slice(request_digits.as_slice());
    assert(key@ =~= model::request_key(worker as nat, request as nat));
    key
}

/// The bytes of a request.
pub fn request_bytes(command: CommandType, worker: usize, request: usize, value: &[u8]) -> (r: Vec<
    u8,
>)
    ensures
        r@ == resp::model::encoded(
            model::request(command, worker as nat, request as nat, value@),
        ),
{
    let set: bool = is_set(command, request);
    let name: &str = if set {
        "SET"
    } else {
        "GET"
    };
    let mut items: Vec<RespValue> = Vec::new();
    items.push(RespValue::BulkString(Some(slice_to_vec(name.as_bytes()))));
    items.push(RespValue::BulkString(Some(request_key(worker, request))));
    if set {
        items.push(RespValue::BulkString(Some(slice_to_vec(value))));
    }
    let frame: RespValue = RespValue::Array(Some(items));
    proof {
        let expected = model::request(command, worker as nat, request as nat, value@);
        assert(parser::views(items@) =~= expected->Array_0->0);
    }
    frame.encode()
}

/// Does a byte string begin with another?
fn starts_with(s: &[u8], prefix: &[u8]) -> (r: bool)
    ensures
        r == prefix@.is_prefix_of(s@),
{
    if s.len() < prefix.len() {
        return false;
    }
    let head: &[u8] = slice_subrange(s, 0, prefix.len());
    text::bytes_equal(prefix, head)
}

/// Does a reply report success?
pub fn verify_ok(reply: &[u8]) -> (r: bool)
    ensures
        r == model::is_ok(reply@),
{
    starts_with(reply, "+OK\r\n".as_bytes()) || starts_with(reply, "+PONG\r\n".as_bytes())
}

/// Is a reply a bulk string other than the null one?
pub fn verify_bulk(reply: &[u8]) -> (r: bool)
    ensures
        r == model::is_bulk(reply@),
{
    if reply.len() < 4 || reply[0] != 36 {
        return false;
    }
    match parser::find_line_end(reply, 1) {
        None => false,
        Some(end) => match text::parse_signed(slice_subrange(reply, 1, end)) {
            None => false,
            Some(n) => n >= 0,
        },
    }
}

/// Is a reply the one that is expected for a request?
pub fn verify(set: bool, reply: &[u8]) -> (r: bool)
    ensures
        r == if set {
            model::is_ok(reply@)
        } else {
            model::is_bulk(reply@)
        },
{
    if set {
        verify_ok(reply)
    } else {
        verify_bulk(reply)
    }
}

/// How many requests went well, and how many did not.
#[derive(Clone, Copy, Debug, PartialEq, Eq, Structural)]
pub struct Tally {
    pub success: usize,
    pub errors: usize,
}

impl View for Tally {
    type V = Counts;

    open spec fn view(&self) -> Counts {
        Counts { success: self.success as nat, errors: self.errors as nat }
    }
}

impl Tally {
    /// No requests yet.
    pub fn new() -> (r: Self)
        ensures
            r@ == model::counts_of(Seq::empty()),
    {
        Tally { success: 0, errors: 0 }
    }

    /// Counts one more request: whether there was a reply, and whether it was the
    /// expected one.
    pub fn record(self, replied: bool, good: bool) -> (r: Self)
        requires
            self.success < usize::MAX,
            self.errors < usize::MAX,
        ensures
            r@ == model::counted(self@, replied, good),
    {
        if replied && good {
            Tally { success: self.success + 1, errors: self.errors }
        } else {
            Tally { success: self.success, errors: self.errors + 1 }
        }
    }

    /// Adds the requests of another connection.
    pub fn plus(self, other: Tally) -> (r: Self)
        requires
            self.success + other.success <= usize::MAX,
            self.errors + other.errors <= usize::MAX,
        ensures
            r.success == self.success + other.success,
            r.errors == self.errors + other.errors,
    {
        Tally {
            success: self.success + other.success,
            errors: self.errors + other.errors,
        }
    }
}

/// How many bytes the RESP2 frame at the front of `input` takes: a minimal
/// parser for the small benchmarks.
pub fn simple_resp_parse(input: &[u8]) -> (r: Option<usize>)
    ensures
        match model::measure(input@) {
            Some(n) => r matches Some(used) && used == n && n <= input@.len(),
            None => r is None,
        },
    decreases input@.len(),
{
    if input.len() == 0 {
        return None;
    }
    let kind: u8 = input[0];
    if kind != 43 && kind != 45 && kind != 58 && kind != 36 && kind != 42 {
        return None;
    }
    let end: usize = match parser::find_line_end(input, 1) {
        None => {
            return None;
        },
        Some(e) => e,
    };
    assert(end + 2 <= input.len());
    let start: usize = end + 2;
    if kind == 43 || kind == 45 || kind == 58 {
        return Some(start);
    }
    let n: i64 = match text::parse_signed(slice_subrange(input, 1, end)) {
        None => {
            return None;
        },
        Some(v) => v,
    };
    if n == -1 {
        return Some(start);
    }
    if kind == 36 {
        if n < 0 || input.len() - start < 2 || n as u64 > (input.len() - start - 2) as u64 {
            return None;
        }
        return Some(start + n as usize + 2);
    }
    if n <= 0 {
        return Some(start);
    }
    let ghost body = input@.skip(start as int);
    let mut used: usize = 0;
    let mut i: i64 = 0;
    assert(body.skip(0) =~= body);
    while i < n
        invariant
            0 <= i <= n,
            match model::measure_all(body, n as nat) {
                Some(m) => model::measure(input@) == Some(start as nat + m),
                None => model::measure(input@) is None,
            },
            3 <= start <= input@.len(),
            body == input@.skip(start as int),
            start + used <= input@.len(),
            match model::measure_all(body.skip(used as int), (n - i) as nat) {
                Some(m) => model::measure_all(body, n as nat) == Some(used as nat + m),
                None => model::measure_all(body, n as nat) is None,
            },
        decreases n - i,
    {
        assert(start + used <= input.len());
        let rest: &[u8] = slice_subrange(input, start + used, input.len());
        assert(rest@ =~= body.skip(used as int));
        match simple_resp_parse(rest) {
            None => {
                return None;
            },
            Some(m) => {
                assert(rest@.skip(m as int) =~= body.skip(used + m));
                used = used + m;
            },
        }
        i = i + 1;
    }
    Some(start + used)
}

} // verus!
