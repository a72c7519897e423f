//! Snapshots and the log.
use distributed_cache::persistence::{
    encode_snapshot, load_rdb, load_rdb_at, replay_aof, replay_aof_at, save_reply, set_frame,
    LoadSource, PersistenceConfig, SaveOutcome,
};
use distributed_cache::resp::parser::RespValue;
use distributed_cache::store::{Store, StoreConfig};

const SECOND: u128 = 1_000_000_000;

fn bs(data: &[u8]) -> RespValue {
    RespValue::BulkString(Some(data.to_vec()))
}

fn request(items: &[&[u8]]) -> RespValue {
    RespValue::Array(Some(items.iter().map(|i| bs(i)).collect()))
}

#[test]
fn rdb_save_and_load() {
    let mut store = Store::with_config(StoreConfig { max_memory_mb: 100 });
    store.set(b"key1", b"value1", None);
    store.set(b"key2", b"value2", Some(3600));

    let snapshot = encode_snapshot(&store.snapshot_entries());

    let mut store2 = Store::with_config(StoreConfig { max_memory_mb: 100 });
    assert_eq!(load_rdb(&snapshot, &mut store2), Ok(2));
    assert_eq!(store2.get(b"key1"), bs(b"value1").encode());
    assert_eq!(store2.get(b"key2"), bs(b"value2").encode());
}

#[test]
fn rdb_skips_expired_keys() {
    let mut store = Store::with_config(StoreConfig { max_memory_mb: 100 });
    store.set_at(b"permanent", b"stay", None, 0);
    store.set_at(b"gone", b"away", Some(0), 0);
    assert_eq!(store.clean_expired_at(50_000_000), 1);

    let snapshot = encode_snapshot(&store.snapshot_entries_at(50_000_000));
    let mut store2 = Store::with_config(StoreConfig { max_memory_mb: 100 });
    assert_eq!(load_rdb_at(&snapshot, &mut store2, 0), Ok(1));
    assert_eq!(store2.get_at(b"permanent", 0), bs(b"stay").encode());
    assert_eq!(store2.get_at(b"gone", 0), RespValue::BulkString(None).encode());
}

#[test]
fn aof_append_and_replay() {
    let config = PersistenceConfig::default();
    let set1 = request(&[b"SET", b"a", b"1"]);
    let set2 = request(&[b"SET", b"b", b"2", b"EX", b"100"]);
    let del = request(&[b"DEL", b"a"]);
    let mut log = Vec::new();
    for frame in [&set1, &set2, &del] {
        log.extend(config.log_record(frame).unwrap());
    }

    let mut store2 = Store::with_config(StoreConfig { max_memory_mb: 100 });
    assert_eq!(replay_aof(&log, &mut store2), Ok(3));
    assert_eq!(store2.get(b"a"), RespValue::BulkString(None).encode());
    assert_eq!(store2.get(b"b"), bs(b"2").encode());
}

#[test]
fn load_empty_files() {
    let config = PersistenceConfig::default();
    assert_eq!(config.load_source(false, false), LoadSource::Nothing);
    let mut store = Store::new();
    assert_eq!(replay_aof(b"", &mut store), Ok(0));
    assert_eq!(load_rdb(b"", &mut store), Ok(0));
    assert_eq!(store.len(), 0);
}

#[test]
fn save_snapshot_returns_err_on_missing_dir() {
    let resp = save_reply(&SaveOutcome::WriteFailed("No such file or directory".into()));
    assert!(resp.starts_with(b"-ERR"));
    assert_eq!(resp, b"-ERR saving snapshot: No such file or directory\r\n");
    assert_eq!(
        save_reply(&SaveOutcome::RenameFailed("denied".into())),
        b"-ERR renaming snapshot: denied\r\n"
    );
    assert_eq!(
        save_reply(&SaveOutcome::WriteFailed("no\r\nspace\n".into())),
        b"-ERR saving snapshot: no  space\n\r\n"
    );
    assert_eq!(save_reply(&SaveOutcome::Saved), b"+OK\r\n");
}

#[test]
fn load_handles_corrupted_rdb() {
    let mut store = Store::new();
    assert_eq!(
        load_rdb(b"\xff\xfe\xfd\xfc\x00GARBAGE\x01\x02\x03", &mut store),
        Err("RDB parse error: RESP parse error: Char".to_string())
    );
    assert_eq!(store.len(), 0);
}

#[test]
fn load_handles_corrupted_aof() {
    let mut store = Store::new();
    assert_eq!(
        replay_aof(b"\x00CORRUPTED\xff\xfeAOF\x01", &mut store),
        Err("AOF parse error: RESP parse error: Char".to_string())
    );
    assert_eq!(store.len(), 0);
}

#[test]
fn append_command_noop_when_aof_disabled() {
    let config = PersistenceConfig { aof_enabled: false, ..Default::default() };
    assert_eq!(config.log_record(&request(&[b"SET", b"k", b"v"])), None);
}

#[test]
fn default_configuration() {
    let config = PersistenceConfig::default();
    assert_eq!(config.data_dir, "./data");
    assert_eq!(config.rdb_filename, "dump.rdb");
    assert_eq!(config.aof_filename, "appendonly.aof");
    assert_eq!(config.snapshot_interval_secs, 60);
    assert!(config.aof_enabled);
    assert!(config.snapshots_enabled());
    let off = PersistenceConfig { snapshot_interval_secs: 0, ..Default::default() };
    assert!(!off.snapshots_enabled());
}

#[test]
fn only_the_log_is_loaded_where_it_is_in_use() {
    let log = PersistenceConfig::default();
    assert_eq!(log.load_source(true, true), LoadSource::Aof);
    assert_eq!(log.load_source(false, true), LoadSource::Nothing);
    let snapshot = PersistenceConfig { aof_enabled: false, ..Default::default() };
    assert_eq!(snapshot.load_source(true, true), LoadSource::Rdb);
    assert_eq!(snapshot.load_source(true, false), LoadSource::Nothing);
}

#[test]
fn a_snapshot_is_made_of_set_requests() {
    assert_eq!(
        set_frame(b"foo", b"bar", None).encode(),
        b"*3\r\n$3\r\nSET\r\n$3\r\nfoo\r\n$3\r\nbar\r\n"
    );
    assert_eq!(
        set_frame(b"foo", b"bar", Some(10)).encode(),
        b"*5\r\n$3\r\nSET\r\n$3\r\nfoo\r\n$3\r\nbar\r\n$2\r\nEX\r\n$2\r\n10\r\n"
    );
    let entries = vec![(b"a".to_vec(), b"1".to_vec(), None), (b"b".to_vec(), vec![], Some(7))];
    let mut expected = set_frame(b"a", b"1", None).encode();
    expected.extend(set_frame(b"b", b"", Some(7)).encode());
    assert_eq!(encode_snapshot(&entries), expected);
    assert!(encode_snapshot(&vec![]).is_empty());
}

#[test]
fn a_snapshot_keeps_the_time_that_is_left() {
    let mut store = Store::new();
    store.set_at(b"k", b"v", Some(10), 0);
    let snapshot = encode_snapshot(&store.snapshot_entries_at(4 * SECOND + 1));
    let mut copy = Store::new();
    assert_eq!(load_rdb_at(&snapshot, &mut copy, 100 * SECOND), Ok(1));
    assert_eq!(copy.get_at(b"k", 106 * SECOND - 1), bs(b"v").encode());
    assert_eq!(copy.get_at(b"k", 106 * SECOND), RespValue::BulkString(None).encode());
}

#[test]
fn a_cut_off_log_loses_only_its_end() {
    let mut log = request(&[b"SET", b"a", b"1"]).encode();
    let whole = log.len();
    log.extend(request(&[b"SET", b"b", b"2"]).encode());
    for n in whole..log.len() {
        let mut store = Store::new();
        assert_eq!(replay_aof_at(&log[..n], &mut store, 0), Ok(1));
        assert_eq!(store.get_at(b"a", 0), bs(b"1").encode());
        assert_eq!(store.len(), 1);
    }
}

#[test]
fn garbage_stops_reading_but_keeps_what_was_read() {
    let mut log = request(&[b"SET", b"a", b"1"]).encode();
    log.extend_from_slice(b"?");
    log.extend(request(&[b"SET", b"b", b"2"]).encode());
    let mut store = Store::new();
    assert!(replay_aof_at(&log, &mut store, 0).is_err());
    assert_eq!(store.get_at(b"a", 0), bs(b"1").encode());
    assert_eq!(store.get_at(b"b", 0), RespValue::BulkString(None).encode());
}

#[test]
fn what_is_no_command_is_passed_over() {
    let mut log = b"+OK\r\n:5\r\n".to_vec();
    log.extend(request(&[b"NOPE"]).encode());
    log.extend(request(&[b"GET", b"a"]).encode());
    log.extend(request(&[b"SET", b"a", b"1"]).encode());
    let mut store = Store::new();
    assert_eq!(replay_aof_at(&log, &mut store, 0), Ok(2));
    assert_eq!(store.len(), 1);
}

#[test]
fn a_length_below_minus_one_stops_reading() {
    let mut log = request(&[b"SET", b"a", b"1"]).encode();
    log.extend_from_slice(b"*-2\r\n");
    let mut store = Store::new();
    assert_eq!(
        replay_aof_at(&log, &mut store, 0),
        Err("AOF parse error: RESP parse error: MapRes".to_string())
    );
    assert_eq!(store.len(), 1);
}
