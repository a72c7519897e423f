//! Routing in a cluster.
use distributed_cache::cluster::{
    proxy_error_reply, reply_length, ClusterConfig, ClusterNodeConfig, ClusterState, ProxyFailure,
};

fn node(address: &str, vnodes: u32) -> ClusterNodeConfig {
    ClusterNodeConfig { address: address.to_string(), vnodes }
}

fn config(current: &str) -> ClusterConfig {
    ClusterConfig {
        nodes: vec![node("a:1", 0), node("b:2", 50), node("c:3", 0)],
        current_addr: current.to_string(),
        default_vnodes: 64,
    }
}

#[test]
fn default_cluster_configuration() {
    let config = ClusterConfig::default();
    assert!(config.nodes.is_empty());
    assert_eq!(config.current_addr, "127.0.0.1:8080");
    assert_eq!(config.default_vnodes, 256);
    let state = ClusterState::from_config(&config);
    assert!(!state.enabled);
    assert_eq!(state.current_addr, "127.0.0.1:8080");
    assert_eq!(state.route_key(b"k"), None);
}

#[test]
fn a_node_on_its_own_routes_nothing() {
    let state = ClusterState::disabled();
    assert!(!state.enabled);
    assert_eq!(state.current_addr, "");
    assert!(state.ring.is_empty());
    assert_eq!(state.route_key(b"k"), None);
}

#[test]
fn every_key_is_served_by_one_node() {
    let states: Vec<ClusterState> =
        ["a:1", "b:2", "c:3"].iter().map(|a| ClusterState::from_config(&config(a))).collect();
    let mut served = [0; 3];
    for i in 0..300 {
        let key = format!("key{}", i);
        let owner = states[0].ring.get_node(key.as_bytes()).unwrap().to_string();
        for (n, state) in states.iter().enumerate() {
            match state.route_key(key.as_bytes()) {
                None => {
                    assert_eq!(state.current_addr, owner);
                    served[n] += 1;
                }
                Some(target) => assert_eq!(target, owner),
            }
        }
    }
    assert_eq!(served.iter().sum::<i32>(), 300);
    assert!(served.iter().all(|n| *n > 0));
}

#[test]
fn default_virtual_nodes_are_used_where_none_are_given() {
    let state = ClusterState::from_config(&config("a:1"));
    let mut ring = distributed_cache::cluster::hashring::HashRing::new();
    ring.add_node("a:1", 64);
    ring.add_node("b:2", 50);
    ring.add_node("c:3", 64);
    assert_eq!(state.ring.len(), 3);
    assert!(state.enabled);
    for i in 0..100 {
        let key = format!("key{}", i);
        assert_eq!(state.ring.get_node(key.as_bytes()), ring.get_node(key.as_bytes()));
    }
}

#[test]
fn failures_to_pass_a_request_on() {
    let reply = |f: ProxyFailure| String::from_utf8(proxy_error_reply(&f, "n:1")).unwrap();
    assert_eq!(reply(ProxyFailure::ConnectTimeout), "-ERR connect timeout to n:1\r\n");
    assert_eq!(
        reply(ProxyFailure::ConnectError("refused".into())),
        "-ERR cannot connect to n:1: refused\r\n"
    );
    assert_eq!(
        reply(ProxyFailure::WriteTimeout("late".into())),
        "-ERR proxy write timeout to n:1: late\r\n"
    );
    assert_eq!(
        reply(ProxyFailure::FlushTimeout("late".into())),
        "-ERR proxy flush timeout to n:1: late\r\n"
    );
    assert_eq!(reply(ProxyFailure::ReadTimeout), "-ERR proxy read timeout from n:1\r\n");
    assert_eq!(
        reply(ProxyFailure::ReadError("reset".into())),
        "-ERR proxy read error from n:1: reset\r\n"
    );
    assert_eq!(
        reply(ProxyFailure::ReadError("two\r\nlines".into())),
        "-ERR proxy read error from n:1: two  lines\r\n"
    );
}

#[test]
fn places_are_routed_to_their_owners() {
    let mut state = ClusterState::disabled();
    state.ring.add_node_at("a:1", &[10]);
    state.ring.add_node_at("b:2", &[20]);
    state.current_addr = "a:1".to_string();
    assert_eq!(state.route_place(15), None);
    state.enabled = true;
    assert_eq!(state.route_place(15), Some("b:2".to_string()));
    assert_eq!(state.route_place(10), None);
    assert_eq!(state.route_place(21), None);
}

#[test]
fn a_reply_is_one_whole_frame() {
    assert_eq!(reply_length(b""), None);
    assert_eq!(reply_length(b"$10\r\nhello"), None);
    assert_eq!(reply_length(b"$5\r\nhello\r\n"), Some(11));
    assert_eq!(reply_length(b"+OK\r\n+MORE"), Some(5));
    assert_eq!(reply_length(b"?what"), Some(5));
}

#[test]
fn a_clone_routes_alike() {
    let state = ClusterState::from_config(&config("a:1"));
    let copy = state.clone();
    assert_eq!(copy.enabled, state.enabled);
    assert_eq!(copy.current_addr, state.current_addr);
    assert_eq!(copy.ring.addresses(), state.ring.addresses());
    for i in 0..100 {
        let key = format!("key{}", i);
        assert_eq!(copy.route_key(key.as_bytes()), state.route_key(key.as_bytes()));
    }
}
