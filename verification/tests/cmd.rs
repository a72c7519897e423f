//! Commands: how requests are understood, and what they do.
use distributed_cache::cmd::{
    execute_command, execute_command_at, parse_command, parse_named_command, parse_set_option,
    Command,
};
use distributed_cache::resp::parser::{parse_frame, RespValue};
use distributed_cache::store::Store;


fn bs(data: &[u8]) -> RespValue {
    RespValue::BulkString(Some(data.to_vec()))
}

// -- parse_command -------------------------------------------------------

#[test]
fn parse_ping_no_args() {
    let cmd = parse_command(&[bs(b"PING")]).unwrap();
    assert_eq!(cmd, Command::Ping(None));
}

#[test]
fn parse_ping_with_msg() {
    let cmd = parse_command(&[bs(b"PING"), bs(b"hello")]).unwrap();
    assert_eq!(cmd, Command::Ping(Some(b"hello".to_vec())));
}

#[test]
fn parse_echo() {
    let cmd = parse_command(&[bs(b"ECHO"), bs(b"hello")]).unwrap();
    assert_eq!(cmd, Command::Echo(b"hello".to_vec()));
}

#[test]
fn parse_set_no_ttl() {
    let cmd = parse_command(&[bs(b"SET"), bs(b"key"), bs(b"value")]).unwrap();
    assert_eq!(
        cmd,
        Command::SetKey {
            key: b"key".to_vec(),
            value: b"value".to_vec(),
            ttl_secs: None
        }
    );
}

#[test]
fn parse_set_with_ttl() {
    let cmd = parse_command(&[bs(b"SET"), bs(b"k"), bs(b"v"), bs(b"EX"), bs(b"10")])
        .unwrap();
    assert_eq!(
        cmd,
        Command::SetKey {
            key: b"k".to_vec(),
            value: b"v".to_vec(),
            ttl_secs: Some(10)
        }
    );
}

#[test]
fn parse_get() {
    let cmd = parse_command(&[bs(b"GET"), bs(b"mykey")]).unwrap();
    assert_eq!(cmd, Command::Get(b"mykey".to_vec()));
}

#[test]
fn parse_del_one() {
    let cmd = parse_command(&[bs(b"DEL"), bs(b"k1")]).unwrap();
    assert_eq!(cmd, Command::Del(vec![b"k1".to_vec()]));
}

#[test]
fn parse_del_multi() {
    let cmd = parse_command(&[bs(b"DEL"), bs(b"a"), bs(b"b"), bs(b"c")]).unwrap();
    assert_eq!(
        cmd,
        Command::Del(vec![b"a".to_vec(), b"b".to_vec(), b"c".to_vec()])
    );
}

#[test]
fn parse_exists() {
    let cmd = parse_command(&[bs(b"EXISTS"), bs(b"k")]).unwrap();
    assert_eq!(cmd, Command::Exists(vec![b"k".to_vec()]));
}

#[test]
fn parse_unknown_command() {
    let result = parse_command(&[bs(b"UNKNOWN")]);
    assert!(result.is_err());
}

#[test]
fn parse_empty() {
    let result = parse_command(&[]);
    assert!(result.is_err());
}

#[test]
fn parse_set_missing_args() {
    let result = parse_command(&[bs(b"SET")]);
    assert!(result.is_err());
}

#[test]
fn parse_bgsave() {
    let cmd = parse_command(&[bs(b"BGSAVE")]).unwrap();
    assert_eq!(cmd, Command::Bgsave);
}

#[test]
fn parse_bgsave_with_args_fails() {
    let result = parse_command(&[bs(b"BGSAVE"), bs(b"extra")]);
    assert!(result.is_err());
}

// -- execute_command -----------------------------------------------------

#[test]
fn exec_ping() {
    let mut store = Store::new();
    let resp = execute_command(&Command::Ping(None), &mut store);
    assert_eq!(resp, b"+PONG\r\n");
}

#[test]
fn exec_ping_with_msg() {
    let mut store = Store::new();
    let resp = execute_command(&Command::Ping(Some(b"hi".to_vec())), &mut store);
    assert_eq!(resp, b"$2\r\nhi\r\n");
}

#[test]
fn exec_echo() {
    let mut store = Store::new();
    let resp = execute_command(&Command::Echo(b"hello".to_vec()), &mut store);
    assert_eq!(resp, b"$5\r\nhello\r\n");
}

#[test]
fn exec_set_get() {
    let mut store = Store::new();
    let set_resp = execute_command(
        &Command::SetKey {
            key: b"k".to_vec(),
            value: b"v".to_vec(),
            ttl_secs: None,
        },
        &mut store,
    );
    assert_eq!(set_resp, b"+OK\r\n");

    let get_resp = execute_command(&Command::Get(b"k".to_vec()), &mut store);
    assert_eq!(get_resp, b"$1\r\nv\r\n");
}

#[test]
fn exec_del() {
    let mut store = Store::new();
    store.set(b"k", b"v", None);
    let resp = execute_command(&Command::Del(vec![b"k".to_vec()]), &mut store);
    assert_eq!(resp, b":1\r\n");
}

#[test]
fn exec_exists() {
    let mut store = Store::new();
    store.set(b"x", b"1", None);
    let resp = execute_command(&Command::Exists(vec![b"x".to_vec()]), &mut store);
    assert_eq!(resp, b":1\r\n");
}

// -- errors -------------------------------------------------------------------

fn error_of(args: &[RespValue]) -> String {
    match parse_command(args) {
        Err(RespValue::Error(message)) => message,
        other => panic!("expected an error, got {:?}", other),
    }
}

#[test]
fn every_error_has_its_message() {
    assert_eq!(error_of(&[]), "ERR empty command");
    assert_eq!(
        error_of(&[RespValue::Integer(5)]),
        "ERR expected command name, got Integer(5)"
    );
    assert_eq!(
        error_of(&[RespValue::BulkString(None)]),
        "ERR expected command name, got BulkString(None)"
    );
    assert_eq!(error_of(&[bs(b"nope")]), "ERR unknown command 'NOPE'");
    assert_eq!(
        error_of(&[bs(b"ECHO")]),
        "ERR wrong number of arguments for 'ECHO' command"
    );
    assert_eq!(
        error_of(&[bs(b"SET"), bs(b"k")]),
        "ERR wrong number of arguments for 'SET' command"
    );
    assert_eq!(
        error_of(&[bs(b"SET"), bs(b"k"), RespValue::Integer(1)]),
        "ERR expected bulk string, got Integer(1)"
    );
    assert_eq!(
        error_of(&[bs(b"SET"), bs(b"k"), bs(b"v"), bs(b"ex")]),
        "ERR wrong number of arguments for 'SET' command"
    );
    assert_eq!(
        error_of(&[bs(b"SET"), bs(b"k"), bs(b"v"), bs(b"px"), bs(b"1")]),
        "ERR unknown option 'PX' for 'SET' command"
    );
    assert_eq!(
        error_of(&[bs(b"SET"), bs(b"k"), bs(b"v"), bs(b"EX"), bs(b"-1")]),
        "ERR value is not an integer or out of range"
    );
    assert_eq!(
        error_of(&[bs(b"SET"), bs(b"k"), bs(b"v"), bs(b"EX"), bs(b"18446744073709551616")]),
        "ERR value is not an integer or out of range"
    );
    assert_eq!(
        error_of(&[bs(b"GET")]),
        "ERR wrong number of arguments for 'GET' command"
    );
    assert_eq!(
        error_of(&[bs(b"GET"), RespValue::SimpleString("k".into())]),
        "ERR wrong number of arguments for 'GET' command"
    );
    assert_eq!(
        error_of(&[bs(b"DEL")]),
        "ERR wrong number of arguments for 'DEL' command"
    );
    assert_eq!(
        error_of(&[bs(b"DEL"), bs(b"a"), RespValue::SimpleString("q\"".into()), RespValue::Integer(2)]),
        "ERR expected bulk string, got SimpleString(\"q\\\"\")"
    );
    assert_eq!(
        error_of(&[bs(b"EXISTS")]),
        "ERR wrong number of arguments for 'EXISTS' command"
    );
    assert_eq!(
        error_of(&[bs(b"BGSAVE"), bs(b"x")]),
        "ERR BGSAVE does not accept arguments"
    );
}

#[test]
fn names_ignore_case() {
    for name in [&b"get"[..], b"GET", b"gEt"] {
        assert_eq!(
            parse_command(&[bs(name), bs(b"k")]).unwrap(),
            Command::Get(b"k".to_vec())
        );
    }
    assert_eq!(
        parse_command(&[RespValue::SimpleString("ping".into())]).unwrap(),
        Command::Ping(None)
    );
    assert_eq!(error_of(&[bs("straße".as_bytes())]), "ERR unknown command 'STRASSE'");
    assert_eq!(error_of(&[bs(b"a\xff")]), "ERR unknown command 'A\u{fffd}'");
    assert_eq!(
        parse_named_command("ECHO", &[bs(b"whatever"), bs(b"m")]).unwrap(),
        Command::Echo(b"m".to_vec())
    );
    assert!(parse_named_command("echo", &[bs(b"whatever"), bs(b"m")]).is_err());
}

#[test]
fn set_options() {
    let args = [bs(b"SET"), bs(b"k"), bs(b"v"), bs(b"eX"), bs(b"+18446744073709551615"), bs(b"more")];
    assert_eq!(
        parse_command(&args).unwrap(),
        Command::SetKey { key: b"k".to_vec(), value: b"v".to_vec(), ttl_secs: Some(u64::MAX) }
    );
    assert_eq!(parse_set_option("EX", &args), Ok(Some(u64::MAX)));
    assert!(parse_set_option("ex", &args).is_err());
}

#[test]
fn ping_takes_only_a_bulk_string() {
    assert_eq!(
        parse_command(&[bs(b"PING"), RespValue::Integer(1)]).unwrap(),
        Command::Ping(None)
    );
}

#[test]
fn modifying_and_routing() {
    let set = Command::SetKey { key: b"s".to_vec(), value: b"v".to_vec(), ttl_secs: None };
    let del = Command::Del(vec![b"d".to_vec(), b"e".to_vec()]);
    let exists = Command::Exists(vec![b"x".to_vec()]);
    assert!(set.is_modifying());
    assert!(del.is_modifying());
    assert!(!exists.is_modifying());
    assert!(!Command::Get(b"g".to_vec()).is_modifying());
    assert!(!Command::Bgsave.is_modifying());
    assert_eq!(set.routing_key(), Some(&b"s"[..]));
    assert_eq!(del.routing_key(), Some(&b"d"[..]));
    assert_eq!(exists.routing_key(), Some(&b"x"[..]));
    assert_eq!(Command::Get(b"g".to_vec()).routing_key(), Some(&b"g"[..]));
    assert_eq!(Command::Del(vec![]).routing_key(), None);
    assert_eq!(Command::Ping(None).routing_key(), None);
    assert_eq!(Command::Bgsave.routing_key(), None);
}

#[test]
fn exec_at_a_time() {
    let mut store = Store::new();
    let set = Command::SetKey { key: b"k".to_vec(), value: b"v".to_vec(), ttl_secs: Some(2) };
    assert_eq!(execute_command_at(&set, &mut store, 5), b"+OK\r\n");
    let get = Command::Get(b"k".to_vec());
    assert_eq!(execute_command_at(&get, &mut store, 2_000_000_004), b"$1\r\nv\r\n");
    let exists = Command::Exists(vec![b"k".to_vec(), b"k".to_vec()]);
    assert_eq!(execute_command_at(&exists, &mut store, 2_000_000_004), b":2\r\n");
    assert_eq!(execute_command_at(&exists, &mut store, 2_000_000_005), b":0\r\n");
    assert_eq!(execute_command_at(&get, &mut store, 2_000_000_005), b"$-1\r\n");
    assert_eq!(store.len(), 0);
    assert_eq!(execute_command_at(&Command::Bgsave, &mut store, 0), b"+OK\r\n");
}

#[test]
fn errors_are_one_whole_frame() {
    let requests = [
        vec![],
        vec![bs(b"A\r\nB")],
        vec![bs(b"\r\n+OK\r\n")],
        vec![bs(b"\n\r")],
        vec![bs(b"\r\r\n\n")],
        vec![RespValue::Error("x\r\ny".into())],
        vec![bs(b"SET"), bs(b"k"), bs(b"v"), bs(b"p\r\nx"), bs(b"1")],
        vec![bs(b"DEL"), RespValue::SimpleString("a\r\nb".into())],
    ];
    for args in requests {
        let e = parse_command(&args).unwrap_err();
        assert!(matches!(&e, RespValue::Error(m) if m.starts_with("ERR ")));
        assert_eq!(parse_frame(&e.encode()), Ok((&b""[..], e.clone())));
    }
    assert_eq!(error_of(&[bs(b"A\r\nB")]), "ERR unknown command 'A  B'");
    assert_eq!(
        error_of(&[bs(b"SET"), bs(b"k"), bs(b"v"), bs(b"p\r\nx")]),
        "ERR unknown option 'P  X' for 'SET' command"
    );
    // A carriage return or a line feed on its own stays.
    assert_eq!(error_of(&[bs(b"A\nB")]), "ERR unknown command 'A\nB'");
    assert_eq!(error_of(&[bs("é\r".as_bytes())]), "ERR unknown command 'É\r'");
    assert_eq!(error_of(&[bs(b"\r\r\n\n")]), "ERR unknown command '\r  \n'");
    assert!(matches!(
        parse_named_command("X\r\nY", &[]),
        Err(RespValue::Error(m)) if m == "ERR unknown command 'X  Y'"
    ));
}
