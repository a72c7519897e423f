//! Masters and replicas.
use distributed_cache::cluster::ClusterState;
use distributed_cache::connection::{handle_frame, Action};
use distributed_cache::replication::{
    apply_stream, apply_stream_at, sync_request, sync_stream, Progress, ReplicationConfig,
    ReplicationRole,
};
use distributed_cache::resp::parser::{parse_frame, RespBuffer, RespValue};
use distributed_cache::store::Store;

fn bs(data: &[u8]) -> RespValue {
    RespValue::BulkString(Some(data.to_vec()))
}

fn request(items: &[&[u8]]) -> RespValue {
    RespValue::Array(Some(items.iter().map(|i| bs(i)).collect()))
}

fn settings(role: &str, master: Option<&str>) -> Option<ReplicationRole> {
    ReplicationConfig::from_settings(Some(role.to_string()), master.map(|m| m.to_string()))
        .map(|c| c.role)
}

#[test]
fn roles_are_read_from_settings() {
    assert!(ReplicationConfig::from_settings(None, Some("x:1".into())).is_none());
    assert_eq!(settings("MASTER", None), Some(ReplicationRole::Master));
    assert_eq!(settings("master", Some("x:1")), Some(ReplicationRole::Master));
    assert_eq!(
        settings("Replica", Some("x:1")),
        Some(ReplicationRole::Replica { master_addr: "x:1".into() })
    );
    assert_eq!(
        settings("replica", None),
        Some(ReplicationRole::Replica { master_addr: "127.0.0.1:8080".into() })
    );
    assert_eq!(settings("slave", None), None);
    // The Kelvin sign has a lower case, but that makes no role of it.
    assert_eq!(settings("\u{212a}", None), None);
    assert!(ReplicationConfig::from_role("MASTER", None).is_none());
    assert!(ReplicationConfig::from_role("master", None).is_some());
}

#[test]
fn the_request_for_data() {
    assert_eq!(sync_request(), b"*1\r\n$4\r\nSYNC\r\n");
}

#[test]
fn integration_replica_gets_snapshot() {
    let mut master_store = Store::new();
    master_store.set(b"k1", b"v1", None);
    master_store.set(b"k2", b"v2", Some(3600));
    let stream = sync_stream(&master_store.snapshot_entries());
    assert!(stream.ends_with(b"+SYNC_DONE\r\n"));

    let mut replica_store = Store::new();
    let mut buf = RespBuffer::new();
    buf.feed(&stream);
    assert_eq!(
        apply_stream(&mut buf, &mut replica_store),
        Progress { applied: 2, errors: 0, snapshot_done: true }
    );
    assert!(buf.pending().is_empty());
    assert_eq!(replica_store.get(b"k1"), bs(b"v1").encode());
    assert_eq!(replica_store.get(b"k2"), bs(b"v2").encode());
}

#[test]
fn integration_master_replica_sync() {
    let mut master_store = Store::new();
    let mut replica_store = Store::new();
    let cluster = ClusterState::disabled();
    let mut buf = RespBuffer::new();
    buf.feed(&sync_stream(&master_store.snapshot_entries()));
    assert!(apply_stream(&mut buf, &mut replica_store).snapshot_done);

    // SET on the master.
    let (_, set) = parse_frame(b"*3\r\n$3\r\nSET\r\n$3\r\nkey\r\n$5\r\nvalue\r\n").unwrap();
    match handle_frame(&set, &mut master_store, &cluster, true) {
        Action::ReplyAndRecord { reply, record } => {
            assert_eq!(reply, b"+OK\r\n");
            buf.feed(&record);
        }
        other => panic!("unexpected action {:?}", other),
    }
    apply_stream(&mut buf, &mut replica_store);
    assert_eq!(replica_store.get(b"key"), bs(b"value").encode());

    // DEL on the master.
    let (_, del) = parse_frame(b"*2\r\n$3\r\nDEL\r\n$3\r\nkey\r\n").unwrap();
    match handle_frame(&del, &mut master_store, &cluster, true) {
        Action::ReplyAndRecord { reply, record } => {
            assert_eq!(reply, b":1\r\n");
            buf.feed(&record);
        }
        other => panic!("unexpected action {:?}", other),
    }
    apply_stream(&mut buf, &mut replica_store);
    assert_eq!(replica_store.get(b"key"), RespValue::BulkString(None).encode());
}

#[test]
fn a_replica_applies_only_what_changes_data() {
    let mut store = Store::new();
    let mut buf = RespBuffer::new();
    buf.feed(b"+OK\r\n~");
    buf.feed(&request(&[b"GET", b"a"]).encode());
    buf.feed(&request(&[b"SET", b"a", b"1"]).encode());
    buf.feed(&request(&[b"NOPE"]).encode());
    buf.feed(b"*3\r\n$3\r\nSET");
    assert_eq!(
        apply_stream_at(&mut buf, &mut store, 0),
        Progress { applied: 1, errors: 1, snapshot_done: false }
    );
    assert_eq!(buf.pending(), b"*3\r\n$3\r\nSET");
    assert_eq!(store.get_at(b"a", 0), bs(b"1").encode());
}

#[test]
fn pieces_of_the_stream_do_not_matter() {
    let mut stream = sync_stream(&vec![
        (b"a".to_vec(), b"1".to_vec(), None),
        (b"b".to_vec(), b"2".to_vec(), Some(5)),
    ]);
    stream.extend(request(&[b"DEL", b"a"]).encode());
    for size in 1..7 {
        let mut store = Store::new();
        let mut buf = RespBuffer::new();
        let mut applied = 0;
        for piece in stream.chunks(size) {
            buf.feed(piece);
            applied += apply_stream_at(&mut buf, &mut store, 3).applied;
        }
        assert_eq!(applied, 3);
        assert_eq!(store.get_at(b"a", 3), RespValue::BulkString(None).encode());
        assert_eq!(store.get_at(b"b", 3), bs(b"2").encode());
    }
}
