//! A cluster of nodes, each of which owns a part of the keys.
use crate::cluster::hashring::HashRing;
use crate::cluster::model::Ring;
use crate::cmd;
use crate::resp;
use crate::resp::model::{Outcome, Resp};
use crate::resp::parser;
use crate::resp::parser::{FrameError, RespValue};
use crate::text;
use vstd::prelude::*;
use vstd::string::*;

pub mod hashring;
pub mod laws;
pub mod model;
pub mod places;

verus! {

/// A node of the cluster.
#[derive(Debug, Clone)]
pub struct ClusterNodeConfig {
    pub address: String,
    /// How many virtual nodes it has; 0 for the default.
    pub vnodes: u32,
}

/// The nodes of a cluster, as one of them sees it.
#[derive(Debug, Clone)]
pub struct ClusterConfig {
    /// All nodes.
    pub nodes: Vec<ClusterNodeConfig>,
    /// The address of this node, which is one of `nodes`.
    pub current_addr: String,
    /// How many virtual nodes a node has that does not say.
    pub default_vnodes: u32,
}

impl Default for ClusterConfig {
    fn default() -> (r: Self)
        ensures
            r.nodes@.len() == 0,
            r.current_addr@ == "127.0.0.1:8080"@,
            r.default_vnodes == 256,
    {
        ClusterConfig {
            nodes: Vec::new(),
            current_addr: String::from_str("127.0.0.1:8080"),
            default_vnodes: 256,
        }
    }
}

/// How many virtual nodes a node has.
pub open spec fn vnodes_of(node: ClusterNodeConfig, default_vnodes: u32) -> u32 {
    if node.vnodes > 0 {
        node.vnodes
    } else {
        default_vnodes
    }
}

/// The ring of the given nodes.
pub open spec fn ring_of(nodes: Seq<ClusterNodeConfig>, default_vnodes: u32) -> Ring
    decreases nodes.len(),
{
    if nodes.len() == 0 {
        Ring { points: Map::empty(), nodes: Set::empty() }
    } else {
        model::after_add(
            ring_of(nodes.drop_last(), default_vnodes),
            nodes.last().address@,
            vnodes_of(nodes.last(), default_vnodes),
        )
    }
}

/// What one node knows of the cluster.
#[derive(Debug)]
pub struct ClusterState {
    /// The address of this node.
    pub current_addr: String,
    /// Which node owns which keys.
    pub ring: HashRing,
    /// Is this node part of a cluster?
    pub enabled: bool,
}

impl Clone for ClusterState {
    fn clone(&self) -> (r: Self)
        ensures
            r.current_addr@ == self.current_addr@,
            r.ring@ == self.ring@,
            r.enabled == self.enabled,
            self.wf() ==> r.wf(),
    {
        ClusterState {
            current_addr: self.current_addr.clone(),
            ring: self.ring.clone(),
            enabled: self.enabled,
        }
    }
}

impl ClusterState {
    /// The ring is well-formed.
    pub open spec fn wf(&self) -> bool {
        self.ring.wf()
    }

    /// Builds the ring of the nodes that are configured. Without any, this node
    /// is on its own.
    pub fn from_config(config: &ClusterConfig) -> (r: Self)
        ensures
            r.wf(),
            r.current_addr@ == config.current_addr@,
            r.ring@ == ring_of(config.nodes@, config.default_vnodes),
            r.enabled == (config.nodes@.len() > 0),
    {
        let mut ring: HashRing = HashRing::new();
        let mut i: usize = 0;
        assert(config.nodes@.take(0) =~= Seq::<ClusterNodeConfig>::empty());
        while i < config.nodes.len()
            invariant
                i <= config.nodes@.len(),
                ring.wf(),
                ring@ == ring_of(config.nodes@.take(i as int), config.default_vnodes),
            decreases config.nodes@.len() - i,
        {
            let node: &ClusterNodeConfig = &config.nodes[i];
            let vnodes: u32 = if node.vnodes > 0 {
                node.vnodes
            } else {
                config.default_vnodes
            };
            ring.add_node(node.address.as_str(), vnodes);
            assert(config.nodes@.take(i as int + 1).drop_last() =~= config.nodes@.take(i as int));
            i = i + 1;
        }
        assert(config.nodes@.take(config.nodes@.len() as int) =~= config.nodes@);
        ClusterState {
            current_addr: config.current_addr.clone(),
            ring,
            enabled: config.nodes.len() > 0,
        }
    }

    /// A node on its own.
    pub fn disabled() -> (r: Self)
        ensures
            r.wf(),
            r.current_addr@ == Seq::<char>::empty(),
            r.ring@ == ring_of(Seq::empty(), 0),
            !r.enabled,
    {
        ClusterState { current_addr: String::new(), ring: HashRing::new(), enabled: false }
    }

    /// The address of the node that a request for a place must be passed on to;
    /// `None` if this node owns the place, or is on its own.
    pub fn route_place(&self, place: u64) -> (r: Option<String>)
        requires
            self.wf(),
        ensures
            match model::route(self.enabled, self.ring@.points, self.current_addr@, place) {
                Some(address) => r matches Some(a) && a@ == address,
                None => r is None,
            },
    {
        if !self.enabled {
            return None;
        }
        match self.ring.node_at(place) {
            Some(address) => if text::text_equal(address, self.current_addr.as_str()) {
                None
            } else {
                Some(String::from_str(address))
            },
            None => None,
        }
    }

    /// The address of the node that a key must be passed on to; `None` if this
    /// node owns the key, or is on its own.
    pub fn route_key(&self, key: &[u8]) -> (r: Option<String>)
        requires
            self.wf(),
        ensures
            match model::route(
                self.enabled,
                self.ring@.points,
                self.current_addr@,
                model::place(key@),
            ) {
                Some(address) => r matches Some(a) && a@ == address,
                None => r is None,
            },
    {
        if !self.enabled {
            return None;
        }
        self.route_place(hashring::hash_key(key))
    }
}

/// Why a request could not be passed on to another node.
#[derive(Debug, Clone, PartialEq)]
pub enum ProxyFailure {
    ConnectTimeout,
    ConnectError(String),
    WriteTimeout(String),
    FlushTimeout(String),
    ReadTimeout,
    ReadError(String),
}

/// The fixed part of the message for a request that could not be passed on.
pub open spec fn failure_text(failure: ProxyFailure) -> Seq<char> {
    match failure {
        ProxyFailure::ConnectTimeout => "ERR connect timeout to "@,
        ProxyFailure::ConnectError(_) => "ERR cannot connect to "@,
        ProxyFailure::WriteTimeout(_) => "ERR proxy write timeout to "@,
        ProxyFailure::FlushTimeout(_) => "ERR proxy flush timeout to "@,
        ProxyFailure::ReadTimeout => "ERR proxy read timeout from "@,
        ProxyFailure::ReadError(_) => "ERR proxy read error from "@,
    }
}

/// The detail of the message, if there is one.
pub open spec fn failure_detail(failure: ProxyFailure) -> Option<Seq<char>> {
    match failure {
        ProxyFailure::ConnectTimeout => None,
        ProxyFailure::ConnectError(e) => Some(e@),
        ProxyFailure::WriteTimeout(e) => Some(e@),
        ProxyFailure::FlushTimeout(e) => Some(e@),
        ProxyFailure::ReadTimeout => None,
        ProxyFailure::ReadError(e) => Some(e@),
    }
}

/// The message for a request that could not be passed on to the node at
/// `target`, on a single line.
pub open spec fn proxy_message(failure: ProxyFailure, target: Seq<char>) -> Seq<char> {
    failure_text(failure) + text::unbroken(
        match failure_detail(failure) {
            Some(detail) => target + ": "@ + detail,
            None => target,
        },
    )
}

/// The fixed parts are those of error messages.
proof fn lemma_failure_text(failure: ProxyFailure)
    ensures
        cmd::model::is_message_head(failure_text(failure)),
{
    reveal_strlit("ERR ");
    reveal_strlit("ERR connect timeout to ");
    reveal_strlit("ERR cannot connect to ");
    reveal_strlit("ERR proxy write timeout to ");
    reveal_strlit("ERR proxy flush timeout to ");
    reveal_strlit("ERR proxy read timeout from ");
    reveal_strlit("ERR proxy read error from ");
}

/// A node and a detail about it.
fn with_detail(target: &str, detail: &str) -> (r: String)
    ensures
        r@ == target@ + ": "@ + detail@,
{
    String::from_str(target).concat(": ").concat(detail)
}

/// The reply to a request that could not be passed on to the node at `target`:
/// one whole error frame.
pub fn proxy_error_reply(failure: &ProxyFailure, target: &str) -> (r: Vec<u8>)
    ensures
        r@ == resp::model::encoded(Resp::Error(proxy_message(*failure, target@))),
        cmd::model::is_whole_error(Resp::Error(proxy_message(*failure, target@))),
{
    let (head, about): (&str, String) = match failure {
        ProxyFailure::ConnectTimeout => ("ERR connect timeout to ", String::from_str(target)),
        ProxyFailure::ConnectError(e) => (
            "ERR cannot connect to ",
            with_detail(target, e.as_str()),
        ),
        ProxyFailure::WriteTimeout(e) => (
            "ERR proxy write timeout to ",
            with_detail(target, e.as_str()),
        ),
        ProxyFailure::FlushTimeout(e) => (
            "ERR proxy flush timeout to ",
            with_detail(target, e.as_str()),
        ),
        ProxyFailure::ReadTimeout => ("ERR proxy read timeout from ", String::from_str(target)),
        ProxyFailure::ReadError(e) => (
            "ERR proxy read error from ",
            with_detail(target, e.as_str()),
        ),
    };
    let shown: String = text::unbreak(about.as_str());
    proof {
        lemma_failure_text(*failure);
        resp::laws::lemma_unbroken(about@);
        cmd::laws::lemma_longer_message(head@, shown@);
        cmd::laws::law_error_frame(head@ + shown@);
    }
    RespValue::Error(String::from_str(head).concat(shown.as_str())).encode()
}

/// How much of what another node has sent is its reply: one whole frame. `None`
/// if more is to come. Bytes that are no RESP2 are passed on as they are.
pub fn reply_length(received: &[u8]) -> (r: Option<usize>)
    ensures
        match resp::model::frame(received@) {
            Outcome::Done { value, used } => r matches Some(n) && n == used,
            Outcome::Incomplete => r is None,
            Outcome::Invalid { .. } => r == Some(received@.len() as usize),
        },
{
    match parser::parse_frame(received) {
        Ok((rest, _)) => Some(received.len() - rest.len()),
        Err(FrameError::Incomplete) => None,
        Err(FrameError::Error { .. }) => Some(received.len()),
    }
}

} // verus!
