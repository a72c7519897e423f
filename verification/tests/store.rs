//! The store: values, expiry, snapshots and eviction.
use distributed_cache::resp::parser::RespValue;
use distributed_cache::store::dash::StoredValue;
use distributed_cache::store::evict::least_recently_used;
use distributed_cache::store::{Store, StoreConfig};


#[test]
fn set_and_get() {
    let mut store = Store::new();
    store.set(b"key1", b"val1", None);
    let resp = store.get(b"key1");
    assert_eq!(resp, RespValue::BulkString(Some(b"val1".to_vec())).encode());
}

#[test]
fn get_missing() {
    let mut store = Store::new();
    let resp = store.get(b"nokey");
    assert_eq!(resp, RespValue::BulkString(None).encode());
}

#[test]
fn del_single() {
    let mut store = Store::new();
    store.set(b"k", b"v", None);
    let resp = store.del(&[b"k"]);
    assert_eq!(resp, RespValue::Integer(1).encode());
    assert!(store.get(b"k") == RespValue::BulkString(None).encode());
}

#[test]
fn del_missing() {
    let mut store = Store::new();
    let resp = store.del(&[b"absent"]);
    assert_eq!(resp, RespValue::Integer(0).encode());
}

#[test]
fn del_multiple() {
    let mut store = Store::new();
    store.set(b"a", b"1", None);
    store.set(b"b", b"2", None);
    let resp = store.del(&[b"a", b"b", b"c"]);
    assert_eq!(resp, RespValue::Integer(2).encode());
}

#[test]
fn exists_returns_count() {
    let mut store = Store::new();
    store.set(b"x", b"1", None);
    let resp = store.count_existing(&[b"x", b"y"]);
    assert_eq!(resp, RespValue::Integer(1).encode());
}

#[test]
fn ttl_expires_key() {
    let mut store = Store::new();
    // TTL = 1 second.
    store.set_at(b"ephemeral", b"value", Some(1), 0);
    assert_eq!(
        store.get_at(b"ephemeral", 0),
        RespValue::BulkString(Some(b"value".to_vec())).encode()
    );
    // Should be gone a second later.
    assert_eq!(
        store.get_at(b"ephemeral", 1_000_000_000),
        RespValue::BulkString(None).encode()
    );
}

#[test]
fn set_overwrites() {
    let mut store = Store::new();
    store.set(b"k", b"v1", None);
    store.set(b"k", b"v2", None);
    assert_eq!(
        store.get(b"k"),
        RespValue::BulkString(Some(b"v2".to_vec())).encode()
    );
}

#[test]
fn exists_with_expired_key() {
    let mut store = Store::new();
    store.set_at(b"tmp", b"x", Some(0), 0); // 0 seconds: expired at once
    // It counts as nonexistent 50 milliseconds later.
    let resp = store.count_existing_at(&[b"tmp"], 50_000_000);
    assert_eq!(resp, RespValue::Integer(0).encode());
}

const SECOND: u128 = 1_000_000_000;

fn nil() -> Vec<u8> {
    RespValue::BulkString(None).encode()
}

fn bulk(data: &[u8]) -> Vec<u8> {
    RespValue::BulkString(Some(data.to_vec())).encode()
}

#[test]
fn ping_and_echo() {
    let store = Store::default();
    assert_eq!(store.ping(), b"+PONG\r\n");
    assert_eq!(store.echo(b"hello"), b"$5\r\nhello\r\n");
}

#[test]
fn a_key_lives_until_its_deadline() {
    let mut store = Store::new();
    assert_eq!(store.set_at(b"k", b"v", Some(3), 7), b"+OK\r\n");
    assert_eq!(store.get_at(b"k", 7 + 3 * SECOND - 1), bulk(b"v"));
    assert_eq!(store.count_existing_at(&[b"k"], 7 + 3 * SECOND - 1), b":1\r\n");
    assert_eq!(store.count_existing_at(&[b"k"], 7 + 3 * SECOND), b":0\r\n");
    assert_eq!(store.len(), 1);
    assert_eq!(store.get_at(b"k", 7 + 3 * SECOND), nil());
    assert_eq!(store.len(), 0);
}

#[test]
fn the_longest_time_to_live() {
    let mut store = Store::new();
    store.set_at(b"k", b"v", Some(u64::MAX), 1);
    assert_eq!(store.get_at(b"k", u64::MAX as u128 * SECOND), bulk(b"v"));
    assert_eq!(store.get_at(b"k", u64::MAX as u128 * SECOND + 1), nil());
    store.set_at(b"k", b"v", Some(u64::MAX), u128::MAX - 1);
    assert_eq!(store.get_at(b"k", u128::MAX - 1), bulk(b"v"));
    assert_eq!(store.get_at(b"k", u128::MAX), nil());
}

#[test]
fn setting_a_key_leaves_others_alone() {
    let mut store = Store::new();
    store.set_at(b"a", b"1", None, 0);
    store.set_at(b"b", b"2", Some(5), 0);
    store.set_at(b"b", b"3", None, 1);
    assert_eq!(store.get_at(b"a", 9 * SECOND), bulk(b"1"));
    assert_eq!(store.get_at(b"b", 9 * SECOND), bulk(b"3"));
}

#[test]
fn deleting_counts_each_key_once() {
    let mut store = Store::new();
    store.set_at(b"a", b"1", None, 0);
    store.set_at(b"b", b"2", Some(0), 0);
    store.set_at(b"c", b"3", None, 0);
    assert_eq!(store.del(&[b"a", b"a", b"b", b"x"]), b":2\r\n");
    assert_eq!(store.del(&[b"a", b"b"]), b":0\r\n");
    assert_eq!(store.get_at(b"c", 0), bulk(b"3"));
    assert_eq!(store.del(&[]), b":0\r\n");
}

#[test]
fn existing_keys_count_as_often_as_named() {
    let mut store = Store::new();
    store.set(b"a", b"1", None);
    assert_eq!(store.count_existing(&[b"a", b"b", b"a"]), b":2\r\n");
}

#[test]
fn cleaning_removes_what_is_expired() {
    let mut store = Store::new();
    store.set_at(b"a", b"1", Some(1), 0);
    store.set_at(b"b", b"2", Some(2), 0);
    store.set_at(b"c", b"3", None, 0);
    assert_eq!(store.clean_expired_at(SECOND), 1);
    assert_eq!(store.len(), 2);
    assert_eq!(store.clean_expired_at(SECOND), 0);
    assert_eq!(store.clean_expired_at(9 * SECOND), 1);
    assert_eq!(store.get_at(b"c", 9 * SECOND), bulk(b"3"));
    store.set(b"gone", b"x", Some(0));
    assert_eq!(store.clean_expired(), 1);
    assert_eq!(store.len(), 1);
}

#[test]
fn a_snapshot_holds_what_is_live() {
    let mut store = Store::new();
    store.set_at(b"a", b"1", None, 0);
    store.set_at(b"b", b"2", Some(10), 0);
    store.set_at(b"c", b"3", Some(1), 0);
    let mut entries = store.snapshot_entries_at(SECOND + 1);
    entries.sort();
    assert_eq!(
        entries,
        vec![
            (b"a".to_vec(), b"1".to_vec(), None),
            // A part of a second counts as a whole one.
            (b"b".to_vec(), b"2".to_vec(), Some(9)),
        ]
    );
    store.set(b"d", b"4", Some(3600));
    assert!(store.snapshot_entries().contains(&(b"d".to_vec(), b"4".to_vec(), Some(3600))));
}

#[test]
fn nothing_is_evicted_without_need() {
    let mut store = Store::new();
    store.set(b"a", &[7; 3_000_000], None);
    assert!(store.evict(1).is_empty());
    let mut store = Store::with_config(StoreConfig { max_memory_mb: 1 });
    store.set(b"a", &[7; 1_048_575], None);
    assert!(store.evict(1).is_empty());
    assert_eq!(store.len(), 1);
}

#[test]
fn the_least_recently_used_keys_are_evicted() {
    let mut store = Store::with_config(StoreConfig { max_memory_mb: 1 });
    let value = [7u8; 400_000];
    store.set_at(b"a", &value, None, 1);
    store.set_at(b"b", &value, None, 2);
    store.set_at(b"c", &value, None, 3);
    // Reading a key is a use of it.
    store.get_at(b"a", 4);
    assert_eq!(store.evict(42), vec![b"b".to_vec()]);
    assert_eq!(store.len(), 2);
    assert_eq!(store.get_at(b"b", 5), nil());
    assert_eq!(store.get_at(b"a", 5), bulk(&value));
    assert_eq!(store.get_at(b"c", 5), bulk(&value));
    assert!(store.evict(42).is_empty());
}

#[test]
fn eviction_goes_down_to_the_limit() {
    for seed in 0..20 {
        let mut store = Store::with_config(StoreConfig { max_memory_mb: 0 });
        for i in 0..12u8 {
            store.set_at(&[i], b"x", None, i as u128);
        }
        let gone = store.evict(seed);
        assert_eq!(gone.len(), 12);
        assert_eq!(store.len(), 0);
        // The least recently used of five out of twelve is among the oldest eight.
        assert!(gone[0][0] <= 7);
        let mut sorted = gone.clone();
        sorted.sort();
        sorted.dedup();
        assert_eq!(sorted.len(), 12);
    }
}

#[test]
fn the_oldest_of_a_sample() {
    let entry = |n: u8, used: u128| {
        (vec![n], StoredValue { data: vec![], expires_at: None, last_used: used })
    };
    let entries = vec![entry(0, 5), entry(1, 3), entry(2, 9), entry(3, 1)];
    assert_eq!(least_recently_used(&entries, &vec![0, 1, 2]), 1);
    assert_eq!(least_recently_used(&entries, &vec![2, 3]), 3);
    assert_eq!(least_recently_used(&entries, &vec![2]), 2);
}
