//! The logic of the load generator.
use distributed_cache::benchmark::{
    is_set, parse_command_type, random_value, request_bytes, request_key, simple_resp_parse,
    verify, verify_bulk, verify_ok, CommandType, Config, Start, Tally,
};
use distributed_cache::cmd::{parse_command, Command};
use distributed_cache::resp::parser::{parse_frame, RespValue};

fn start(args: &[&str]) -> (Start, Vec<String>) {
    let mut all = vec!["benchmark".to_string()];
    all.extend(args.iter().map(|a| a.to_string()));
    Config::from_args(&all)
}

fn config(args: &[&str]) -> Config {
    match start(args) {
        (Start::Run(config), _) => config,
        (other, _) => panic!("unexpected start {:?}", other),
    }
}

fn invalid(args: &[&str]) -> String {
    match start(args) {
        (Start::Invalid(message), _) => message,
        (other, _) => panic!("unexpected start {:?}", other),
    }
}

#[test]
fn default_arguments() {
    let c = config(&[]);
    assert_eq!(c.addr, "127.0.0.1:8080");
    assert_eq!(c.connections, 50);
    assert_eq!(c.requests_per_connection, 1000);
    assert_eq!(c.command, CommandType::Mixed);
    assert_eq!(c.value_size, 256);
    assert!(!c.csv);
    match Config::from_args(&vec![]) {
        (Start::Run(c), ignored) => {
            assert_eq!(c.connections, 50);
            assert!(ignored.is_empty());
        }
        other => panic!("unexpected start {:?}", other),
    }
}

#[test]
fn all_arguments() {
    let c = config(&[
        "--addr", "h:1", "--connections", "2", "--requests", "3", "--command", "SET",
        "--value-size", "+4", "--csv",
    ]);
    assert_eq!(c.addr, "h:1");
    assert_eq!(c.connections, 2);
    assert_eq!(c.requests_per_connection, 3);
    assert_eq!(c.command, CommandType::Sets);
    assert_eq!(c.value_size, 4);
    assert!(c.csv);
    assert_eq!(config(&["--command", "Get"]).command, CommandType::Gets);
    assert_eq!(config(&["--command", "get", "--command", "mixed"]).command, CommandType::Mixed);
}

#[test]
fn other_starts() {
    assert!(matches!(start(&["-h"]).0, Start::Help));
    assert!(matches!(start(&["--csv", "--help", "--connections"]).0, Start::Help));
    assert!(matches!(
        start(&["--value-size", "9", "--microbench", "--value-size", "x"]).0,
        Start::Microbench { value_size: 9 }
    ));
    let (s, ignored) = start(&["a", "--csv", "--b"]);
    assert!(matches!(s, Start::Run(c) if c.csv));
    assert_eq!(ignored, vec!["a".to_string(), "--b".to_string()]);
}

#[test]
fn arguments_that_make_no_sense() {
    assert_eq!(invalid(&["--connections", "x"]), "--connections must be integer");
    assert_eq!(invalid(&["--requests", "-1"]), "--requests must be integer");
    assert_eq!(invalid(&["--value-size", ""]), "--value-size must be integer");
    assert_eq!(
        invalid(&["--connections", "99999999999999999999"]),
        "--connections must be integer"
    );
    assert_eq!(
        invalid(&["--command", "PUT"]),
        "unknown command type: put (use set/get/mixed)"
    );
    assert_eq!(
        invalid(&["--command", "É"]),
        "unknown command type: é (use set/get/mixed)"
    );
    assert_eq!(invalid(&["--addr"]), "missing value for --addr");
    assert_eq!(parse_command_type("set"), Ok(CommandType::Sets));
    assert!(parse_command_type("SET").is_err());
}

#[test]
fn labels() {
    assert_eq!(CommandType::Sets.label(), "Set");
    assert_eq!(CommandType::Gets.label(), "Get");
    assert_eq!(CommandType::Mixed.label(), "Mixed");
}

#[test]
fn requests() {
    assert!(is_set(CommandType::Sets, 1));
    assert!(!is_set(CommandType::Gets, 0));
    assert!(is_set(CommandType::Mixed, 4));
    assert!(!is_set(CommandType::Mixed, 5));
    assert_eq!(request_key(3, 129), b"bench:3:12");
    assert_eq!(
        request_bytes(CommandType::Mixed, 0, 0, b"abc"),
        b"*3\r\n$3\r\nSET\r\n$9\r\nbench:0:0\r\n$3\r\nabc\r\n"
    );
    assert_eq!(
        request_bytes(CommandType::Mixed, 10, 21, b"abc"),
        b"*2\r\n$3\r\nGET\r\n$10\r\nbench:10:2\r\n"
    );
    let bytes = request_bytes(CommandType::Sets, 1, 2, b"v");
    match parse_frame(&bytes).unwrap().1 {
        RespValue::Array(Some(items)) => assert_eq!(
            parse_command(&items).unwrap(),
            Command::SetKey { key: b"bench:1:0".to_vec(), value: b"v".to_vec(), ttl_secs: None }
        ),
        other => panic!("unexpected frame {:?}", other),
    }
}

#[test]
fn random_values_are_letters() {
    let value = random_value(42, 500);
    assert_eq!(value.len(), 500);
    assert!(value.iter().all(|b| b.is_ascii_lowercase()));
    assert!(value.iter().any(|b| *b != value[0]));
    assert_eq!(value, random_value(42, 500));
    assert_ne!(value, random_value(43, 500));
    assert!(random_value(1, 0).is_empty());
}

#[test]
fn replies_that_report_success() {
    assert!(verify_ok(b"+OK\r\n"));
    assert!(verify_ok(b"+OK\r\n$1"));
    assert!(verify_ok(b"+PONG\r\n"));
    assert!(!verify_ok(b"+OK\r"));
    assert!(!verify_ok(b"-ERR\r\n"));
    assert!(!verify_ok(b""));
    assert!(verify(true, b"+OK\r\n"));
    assert!(!verify(true, b"$1\r\na\r\n"));
}

#[test]
fn replies_that_hold_a_value() {
    assert!(verify_bulk(b"$5\r\nhello\r\n"));
    assert!(verify_bulk(b"$0\r\n\r\n"));
    assert!(verify_bulk(b"$9\r\nhel"));
    assert!(!verify_bulk(b"$-1\r\n"));
    assert!(!verify_bulk(b"$\r\n"));
    assert!(!verify_bulk(b"$x\r\n"));
    assert!(!verify_bulk(b"$555"));
    assert!(!verify_bulk(b"+OK\r\n"));
    assert!(verify(false, b"$1\r\na\r\n"));
    assert!(!verify(false, b"+OK\r\n"));
}

#[test]
fn the_minimal_parser_measures_frames() {
    let frames: [&[u8]; 9] = [
        b"+OK\r\n",
        b"-ERR\r\n",
        b":12\r\n",
        b"$5\r\nhello\r\n",
        b"$-1\r\n",
        b"*-1\r\n",
        b"*0\r\n",
        b"*1\r\n$4\r\nPING\r\n",
        b"*2\r\n*1\r\n+a\r\n$0\r\n\r\n",
    ];
    for frame in frames {
        assert_eq!(simple_resp_parse(frame), Some(frame.len()));
        let mut more = frame.to_vec();
        more.extend_from_slice(b"+x\r\n");
        assert_eq!(simple_resp_parse(&more), Some(frame.len()));
        assert_eq!(simple_resp_parse(&frame[..frame.len() - 1]), None);
    }
    assert_eq!(simple_resp_parse(b""), None);
    assert_eq!(simple_resp_parse(b"?x\r\n"), None);
    assert_eq!(simple_resp_parse(b"$-2\r\n"), None);
    assert_eq!(simple_resp_parse(b"$x\r\n"), None);
    assert_eq!(simple_resp_parse(b"*2\r\n+a\r\n"), None);
    assert_eq!(simple_resp_parse(b"*-2\r\n"), Some(5));
    assert_eq!(simple_resp_parse(b"$9223372036854775807\r\n"), None);
}

#[test]
fn counts_add_up() {
    let mut tally = Tally::new();
    assert_eq!(tally, Tally { success: 0, errors: 0 });
    let outcomes = [(true, true), (true, false), (false, false), (false, true), (true, true)];
    for (replied, good) in outcomes {
        tally = tally.record(replied, good);
    }
    assert_eq!(tally, Tally { success: 2, errors: 3 });
    assert_eq!(tally.success + tally.errors, outcomes.len());
    let both = tally.plus(Tally { success: 5, errors: 7 });
    assert_eq!(both, Tally { success: 7, errors: 10 });
}
