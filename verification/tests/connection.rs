//! What is done about requests.
use distributed_cache::cluster::{ClusterConfig, ClusterNodeConfig, ClusterState};
use distributed_cache::cmd::Command;
use distributed_cache::connection::{
    carry_out_at, handle_command_at, handle_frame, handle_frame_at, is_sync_name, next_frame, Action,
};
use distributed_cache::resp::parser::{RespBuffer, RespValue};
use distributed_cache::store::Store;

fn request(items: &[&[u8]]) -> RespValue {
    RespValue::Array(Some(
        items.iter().map(|i| RespValue::BulkString(Some(i.to_vec()))).collect(),
    ))
}

fn reply_of(action: Action) -> Vec<u8> {
    match action {
        Action::Reply(reply) => reply,
        Action::ReplyAndRecord { reply, .. } => reply,
        other => panic!("no reply: {:?}", other),
    }
}

#[test]
fn integration_set_get() {
    let mut store = Store::new();
    let cluster = ClusterState::disabled();
    let mut buf = RespBuffer::new();
    let mut ask = |bytes: &[u8]| {
        buf.feed(bytes);
        let frame = next_frame(&mut buf).expect("a whole request");
        reply_of(handle_frame(&frame, &mut store, &cluster, false))
    };
    assert_eq!(ask(b"*1\r\n$4\r\nPING\r\n"), b"+PONG\r\n");
    assert_eq!(ask(b"*3\r\n$3\r\nSET\r\n$3\r\nkey\r\n$5\r\nhello\r\n"), b"+OK\r\n");
    assert_eq!(ask(b"*2\r\n$3\r\nGET\r\n$3\r\nkey\r\n"), b"$5\r\nhello\r\n");
    assert_eq!(ask(b"*2\r\n$3\r\nDEL\r\n$3\r\nkey\r\n"), b":1\r\n");
    assert_eq!(ask(b"*2\r\n$3\r\nGET\r\n$3\r\nkey\r\n"), b"$-1\r\n");
    assert_eq!(ask(b"*2\r\n$6\r\nEXISTS\r\n$3\r\nkey\r\n"), b":0\r\n");
}

#[test]
fn only_what_changes_data_is_recorded() {
    let mut store = Store::new();
    let cluster = ClusterState::disabled();
    let set = request(&[b"set", b"k", b"v"]);
    match handle_frame_at(&set, &mut store, &cluster, false, 0) {
        Action::ReplyAndRecord { reply, record } => {
            assert_eq!(reply, b"+OK\r\n");
            assert_eq!(record, set.encode());
        }
        other => panic!("unexpected action {:?}", other),
    }
    let get = request(&[b"GET", b"k"]);
    assert!(matches!(
        handle_frame_at(&get, &mut store, &cluster, false, 0),
        Action::Reply(reply) if reply == b"$1\r\nv\r\n"
    ));
    let get = Command::Get(b"k".to_vec());
    assert!(matches!(
        handle_command_at(&get, &request(&[]), &mut store, &cluster, 0),
        Action::Reply(reply) if reply == b"$1\r\nv\r\n"
    ));
}

#[test]
fn sync_is_for_masters() {
    let mut store = Store::new();
    let cluster = ClusterState::disabled();
    for name in [&b"SYNC"[..], b"sync"] {
        let frame = request(&[name]);
        assert!(matches!(handle_frame(&frame, &mut store, &cluster, true), Action::Sync));
        assert_eq!(
            reply_of(handle_frame(&frame, &mut store, &cluster, false)),
            b"-ERR SYNC not allowed: node is not a master\r\n"
        );
    }
    let simple = RespValue::Array(Some(vec![RespValue::SimpleString("Sync".into())]));
    assert!(matches!(handle_frame(&simple, &mut store, &cluster, true), Action::Sync));
    assert!(is_sync_name("SYNC"));
    assert!(!is_sync_name("sync"));
}

#[test]
fn bgsave_saves() {
    let mut store = Store::new();
    let cluster = ClusterState::disabled();
    let frame = request(&[b"BGSAVE"]);
    assert!(matches!(handle_frame(&frame, &mut store, &cluster, false), Action::Save));
}

#[test]
fn what_is_no_request_is_refused() {
    let mut store = Store::new();
    let cluster = ClusterState::disabled();
    let mut refuse = |frame: RespValue| reply_of(handle_frame(&frame, &mut store, &cluster, true));
    assert_eq!(
        refuse(RespValue::SimpleString("hi".into())),
        b"-ERR expected array, got SimpleString(\"hi\")\r\n"
    );
    assert_eq!(refuse(RespValue::Array(None)), b"-ERR expected array, got Array(None)\r\n");
    assert_eq!(refuse(request(&[b"a\r\nb"])), b"-ERR unknown command 'A  B'\r\n");
    assert_eq!(
        refuse(RespValue::Error("a\r\nb".into())),
        b"-ERR expected array, got Error(\"a\\r\\nb\")\r\n"
    );
    assert_eq!(refuse(request(&[])), b"-ERR empty command\r\n");
    assert_eq!(refuse(request(&[b"nope"])), b"-ERR unknown command 'NOPE'\r\n");
    assert_eq!(
        refuse(RespValue::Array(Some(vec![RespValue::Integer(1)]))),
        b"-ERR expected command name, got Integer(1)\r\n"
    );
}

#[test]
fn requests_for_other_nodes_are_passed_on() {
    let node = |a: &str| ClusterNodeConfig { address: a.to_string(), vnodes: 32 };
    let state = |current: &str| {
        ClusterState::from_config(&ClusterConfig {
            nodes: vec![node("a:1"), node("b:2")],
            current_addr: current.to_string(),
            default_vnodes: 256,
        })
    };
    let here = state("a:1");
    let there = state("b:2");
    let mut passed = 0;
    for i in 0..50 {
        let key = format!("key{}", i);
        let frame = request(&[b"SET", key.as_bytes(), b"v"]);
        let mut store = Store::new();
        match handle_frame_at(&frame, &mut store, &here, false, 0) {
            Action::Forward { target, request } => {
                passed += 1;
                assert_eq!(target, "b:2");
                assert_eq!(request, frame.encode());
                assert_eq!(store.len(), 0);
                // The node that gets it executes it.
                let action = handle_frame_at(&frame, &mut store, &there, false, 0);
                assert_eq!(reply_of(action), b"+OK\r\n");
                assert_eq!(store.len(), 1);
            }
            other => {
                assert_eq!(reply_of(other), b"+OK\r\n");
                assert_eq!(store.len(), 1);
            }
        }
    }
    assert!(0 < passed && passed < 50);
    // A command without a key is executed here.
    let mut store = Store::new();
    assert_eq!(reply_of(handle_frame(&request(&[b"PING"]), &mut store, &here, false)), b"+PONG\r\n");
}

#[test]
fn bytes_between_requests_are_skipped() {
    let mut buf = RespBuffer::new();
    buf.feed(b"??\r\n+A\r\n!");
    assert_eq!(next_frame(&mut buf), Some(RespValue::SimpleString("A".into())));
    assert_eq!(next_frame(&mut buf), None);
    assert!(buf.pending().is_empty());
    buf.feed(b"+B\r");
    assert_eq!(next_frame(&mut buf), None);
    assert_eq!(buf.pending(), b"+B\r");
    buf.feed(b"\n");
    assert_eq!(next_frame(&mut buf), Some(RespValue::SimpleString("B".into())));
}

#[test]
fn commands_are_carried_out_where_they_belong() {
    let mut store = Store::new();
    let frame = request(&[b"SET", b"k", b"v"]);
    let set = Command::SetKey { key: b"k".to_vec(), value: b"v".to_vec(), ttl_secs: None };
    match carry_out_at(&set, &frame, &mut store, Some("n:1".into()), 0) {
        Action::Forward { target, request } => {
            assert_eq!(target, "n:1");
            assert_eq!(request, frame.encode());
        }
        other => panic!("unexpected action {:?}", other),
    }
    assert_eq!(store.len(), 0);
    match carry_out_at(&set, &frame, &mut store, None, 0) {
        Action::ReplyAndRecord { reply, record } => {
            assert_eq!(reply, b"+OK\r\n");
            assert_eq!(record, frame.encode());
        }
        other => panic!("unexpected action {:?}", other),
    }
    assert_eq!(store.len(), 1);
    assert!(matches!(
        carry_out_at(&Command::Bgsave, &frame, &mut store, None, 0),
        Action::Save
    ));
}
