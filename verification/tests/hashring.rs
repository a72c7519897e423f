//! The hash ring.
use distributed_cache::cluster::hashring::{hash_key, hash_vnode, low_bits, HashRing};


#[test]
fn empty_ring_returns_none() {
    let ring = HashRing::new();
    assert!(ring.get_node(b"anything").is_none());
}

#[test]
fn single_node_all_keys_map_to_it() {
    let mut ring = HashRing::new();
    ring.add_node("127.0.0.1:8080", 256);

    let keys: &[&[u8]] = &[b"a", b"b", b"c", b"hello", b"world", b"test_key_123"];
    for key in keys {
        assert_eq!(ring.get_node(key), Some("127.0.0.1:8080"));
    }
}

#[test]
fn two_nodes_distribute_keys() {
    let mut ring = HashRing::new();
    ring.add_node("node1:8080", 256);
    ring.add_node("node2:8080", 256);

    // Both nodes are used.
    let mut node1_count = 0;
    let mut node2_count = 0;
    let keys: Vec<Vec<u8>> = (0..1000)
        .map(|i| format!("key{}", i).into_bytes())
        .collect();

    for key in &keys {
        match ring.get_node(key) {
            Some("node1:8080") => node1_count += 1,
            Some("node2:8080") => node2_count += 1,
            other => panic!("unknown node: {:?}", other),
        }
    }

    // Each node gets at least 20% of the keys.
    assert!(
        node1_count > 200,
        "node1 got only {} keys",
        node1_count
    );
    assert!(
        node2_count > 200,
        "node2 got only {} keys",
        node2_count
    );

    // All keys are distributed.
    assert_eq!(node1_count + node2_count, 1000);
}

#[test]
fn remove_node_redirects_keys() {
    let mut ring = HashRing::new();
    ring.add_node("node1:8080", 256);
    ring.add_node("node2:8080", 256);

    let key = b"mykey";
    let before = ring.get_node(key).unwrap().to_string();

    ring.remove_node(&before);
    let after = ring.get_node(key).unwrap();

    assert_ne!(
        before, after,
        "the key must move when its node is removed"
    );
}

#[test]
fn reinsert_node_is_stable() {
    let mut ring = HashRing::new();
    ring.add_node("a:8080", 256);
    ring.add_node("b:8080", 256);

    let keys: Vec<Vec<u8>> = (0..500).map(|i| format!("k{}", i).into_bytes()).collect();

    // Remember the distribution.
    let mapping: Vec<String> = keys
        .iter()
        .map(|k| ring.get_node(k).unwrap().to_string())
        .collect();

    // Remove a node and add it again.
    ring.remove_node("a:8080");
    ring.add_node("a:8080", 256);

    // The distribution is the same.
    for (i, k) in keys.iter().enumerate() {
        assert_eq!(
            ring.get_node(k).unwrap(),
            mapping[i],
            "the distribution must be stable for key k{}",
            i
        );
    }
}

#[test]
fn different_key_hashes_differ() {
    let h1 = hash_key(b"key1");
    let h2 = hash_key(b"key2");
    assert_ne!(h1, h2, "different keys must have different hashes");
}

#[test]
fn same_key_always_same_hash() {
    let h1 = hash_key(b"deterministic");
    let h2 = hash_key(b"deterministic");
    assert_eq!(h1, h2);
}

#[test]
fn ring_len_and_addresses() {
    let mut ring = HashRing::new();
    assert_eq!(ring.len(), 0);
    assert!(ring.is_empty());

    ring.add_node("x:8080", 256);
    ring.add_node("y:8080", 256);
    assert_eq!(ring.len(), 2);
    assert!(!ring.is_empty());

    let mut addrs: Vec<&str> = ring.addresses();
    addrs.sort();
    assert_eq!(addrs, vec!["x:8080", "y:8080"]);
}

#[test]
fn remove_non_existent_node() {
    let mut ring = HashRing::new();
    ring.add_node("a:8080", 256);
    // Removing a node that is not there does nothing.
    ring.remove_node("non-existent");
    assert_eq!(ring.len(), 1);
}

#[test]
fn add_twice_is_idempotent() {
    let mut ring = HashRing::new();
    ring.add_node("x:8080", 256);

    // Add the same node again.
    ring.add_node("x:8080", 256);

    // Keys still map to it.
    let keys: &[&[u8]] = &[b"a", b"b", b"c"];
    for key in keys {
        assert_eq!(ring.get_node(key), Some("x:8080"));
    }
}

#[test]
fn hash_range_is_uniform() {
    let mut ring = HashRing::new();
    ring.add_node("a:8080", 256);
    ring.add_node("b:8080", 256);
    ring.add_node("c:8080", 256);

    let total = 3000;
    let mut dist = std::collections::HashMap::new();
    for i in 0..total {
        let key = format!("uniform_key_{}", i);
        let node = ring.get_node(key.as_bytes()).unwrap().to_string();
        *dist.entry(node).or_insert(0) += 1;
    }

    // Each node gets 33%, give or take 10%.
    for (node, count) in &dist {
        let pct = *count as f64 / total as f64;
        assert!(
            (pct - 0.333).abs() < 0.1,
            "node {} got {:.1}% (expected about 33%)",
            node,
            pct * 100.0
        );
    }
}

#[test]
fn places_are_the_low_bits_of_the_digest() {
    assert_eq!(hash_key(b"abc"), 0xb410_ff61_f200_15ad);
    assert_eq!(hash_key(b""), 0xa495_991b_7852_b855);
    assert_eq!(hash_vnode("node1:8080", 0), 0xc73ee8f8e5c198a8);
    assert_eq!(hash_vnode("node1:8080", 0x0102_0304), 0x34ec3d080a655b00);
    let mut digest = [0u8; 32];
    digest[24..32].copy_from_slice(&[1, 2, 3, 4, 5, 6, 7, 8]);
    assert_eq!(low_bits(&digest), 0x0102_0304_0506_0708);
    digest[24..32].copy_from_slice(&[255; 8]);
    assert_eq!(low_bits(&digest), u64::MAX);
}

#[test]
fn a_key_goes_to_the_next_virtual_node() {
    let mut ring = HashRing::new();
    let mut points = Vec::new();
    for node in ["a:1", "b:2", "c:3"] {
        ring.add_node(node, 7);
        for i in 0..7 {
            points.push((hash_vnode(node, i), node));
        }
    }
    points.sort();
    for i in 0..200 {
        let key = format!("key{}", i);
        let place = hash_key(key.as_bytes());
        let next = points.iter().find(|p| p.0 >= place).unwrap_or(&points[0]);
        assert_eq!(ring.get_node(key.as_bytes()), Some(next.1));
    }
}

#[test]
fn removing_a_node_moves_only_its_keys() {
    let mut ring = HashRing::new();
    for node in ["a:1", "b:2", "c:3"] {
        ring.add_node(node, 64);
    }
    let before = ring.clone();
    ring.remove_node("b:2");
    assert_eq!(ring.len(), 2);
    for i in 0..300 {
        let key = format!("key{}", i);
        let owner = before.get_node(key.as_bytes()).unwrap();
        let now = ring.get_node(key.as_bytes()).unwrap();
        assert_ne!(now, "b:2");
        if owner != "b:2" {
            assert_eq!(now, owner);
        }
    }
}

#[test]
fn adding_a_node_moves_keys_only_to_it() {
    let mut ring = HashRing::new();
    ring.add_node("a:1", 64);
    ring.add_node("b:2", 64);
    let before = ring.clone();
    ring.add_node("c:3", 64);
    for i in 0..300 {
        let key = format!("key{}", i);
        let now = ring.get_node(key.as_bytes());
        assert!(now == Some("c:3") || now == before.get_node(key.as_bytes()));
    }
}

#[test]
fn removing_a_node_removes_all_its_virtual_nodes() {
    let mut ring = HashRing::new();
    ring.add_node("a:1", 100);
    ring.add_node("a:1", 10);
    ring.remove_node("a:1");
    assert!(ring.is_empty());
    assert_eq!(ring.get_node(b"k"), None);
    ring.add_node("b:2", 1);
    assert_eq!(ring.get_node(b"k"), Some("b:2"));
}

#[test]
fn the_order_of_adding_does_not_matter() {
    let mut x = HashRing::default();
    x.add_node("a:1", 32);
    x.add_node("b:2", 32);
    let mut y = HashRing::default();
    y.add_node("b:2", 32);
    y.add_node("a:1", 32);
    for i in 0..200 {
        let key = format!("key{}", i);
        assert_eq!(x.get_node(key.as_bytes()), y.get_node(key.as_bytes()));
    }
}

#[test]
fn a_node_without_virtual_nodes_owns_nothing() {
    let mut ring = HashRing::new();
    ring.add_node("a:1", 0);
    assert_eq!(ring.len(), 1);
    assert!(!ring.is_empty());
    assert_eq!(ring.addresses(), vec!["a:1"]);
    assert_eq!(ring.get_node(b"k"), None);
}

#[test]
fn places_and_their_owners() {
    let mut ring = HashRing::new();
    assert_eq!(ring.node_at(0), None);
    ring.add_node_at("a:1", &[30, 10]);
    ring.add_node_at("b:2", &[20, u64::MAX]);
    assert_eq!(ring.node_at(0), Some("a:1"));
    assert_eq!(ring.node_at(10), Some("a:1"));
    assert_eq!(ring.node_at(11), Some("b:2"));
    assert_eq!(ring.node_at(20), Some("b:2"));
    assert_eq!(ring.node_at(21), Some("a:1"));
    assert_eq!(ring.node_at(31), Some("b:2"));
    assert_eq!(ring.node_at(u64::MAX), Some("b:2"));
    // A place that is taken changes hands.
    ring.add_node_at("c:3", &[10]);
    assert_eq!(ring.node_at(0), Some("c:3"));
    assert_eq!(ring.node_at(25), Some("a:1"));
    ring.remove_node("b:2");
    // Behind the last place comes the first.
    assert_eq!(ring.node_at(31), Some("c:3"));
    assert_eq!(ring.node_at(11), Some("a:1"));
    assert_eq!(ring.len(), 2);
}
