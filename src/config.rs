//! The node configuration, and what is derived from it at startup.

use crate::keys::{decimal, decimal_string};
use crate::metadata::{BrokerNode, RaftGroupMetadata};
use vstd::prelude::*;
use vstd::string::{StrSliceExecFns, StringExecFns};

verus! {

/// Where the logger is configured and writes.
pub struct PlacementCenterLog {
    pub log_config: String,
    pub log_path: String,
}

/// The configuration of one placement-center node.
pub struct PlacementCenterConfig {
    pub cluster_name: String,
    pub node_id: u64,
    pub addr: String,
    pub grpc_port: u64,
    pub http_port: u64,
    pub data_path: String,
    /// The members of the group: id and `host:port` address.
    pub nodes: Vec<(u64, String)>,
    pub log: PlacementCenterLog,
}

/// The node id used where the configuration names none.
pub fn default_node_id() -> (r: u32)
    ensures
        r == 1,
{
    1
}

/// The gRPC port used where the configuration names none.
pub fn default_grpc_port() -> (r: usize)
    ensures
        r == 9982,
{
    9982
}

/// A member of the consensus group as the consensus engine knows it.
pub struct Node {
    pub node_id: u64,
    pub rpc_addr: String,
}

/// The node that initializes the group: the one with the smallest id.
pub fn calc_init_node(nodes: &Vec<Node>) -> (r: u64)
    requires
        nodes@.len() > 0,
    ensures
        exists|i: int| 0 <= i < nodes@.len() && nodes@[i].node_id == r,
        forall|i: int| 0 <= i < nodes@.len() ==> r <= #[trigger] nodes@[i].node_id,
{
    let mut best = nodes[0].node_id;
    let mut i: usize = 1;
    while i < nodes.len()
        invariant
            1 <= i <= nodes@.len(),
            exists|j: int| 0 <= j < i && nodes@[j].node_id == best,
            forall|j: int| 0 <= j < i ==> best <= #[trigger] nodes@[j].node_id,
        decreases nodes@.len() - i,
    {
        if nodes[i].node_id < best {
            best = nodes[i].node_id;
        }
        i = i + 1;
    }
    best
}

/// The host part of `s`: what comes before its first `:`, or all of it.
pub open spec fn host_part(s: Seq<char>) -> Seq<char> {
    if exists|i: int| 0 <= i < s.len() && s[i] == ':' {
        s.subrange(0, choose|i: int| 0 <= i < s.len() && s[i] == ':' && forall|j: int| 0 <= j < i ==> s[j] != ':')
    } else {
        s
    }
}

/// The host part of a `host:port` address.
pub fn host_of(addr: &String) -> (r: String)
    ensures
        r@ == host_part(addr@),
{
    let s = addr.as_str();
    let n = s.unicode_len();
    let mut i: usize = 0;
    while i < n
        invariant
            n == addr@.len(),
            s@ == addr@,
            i <= n,
            forall|j: int| 0 <= j < i ==> addr@[j] != ':',
        decreases n - i,
    {
        if s.get_char(i) == ':' {
            proof {
                let c = choose|c: int| 0 <= c < addr@.len() && addr@[c] == ':' && forall|j: int| 0 <= j < c ==> addr@[j] != ':';
                assert(addr@[i as int] == ':');
                if c < i {
                    assert(addr@[c] != ':');
                }
                if c > i {
                    assert(addr@[i as int] != ':');
                }
            }
            return s.substring_char(0, i).to_owned();
        }
        i = i + 1;
    }
    proof {
        assert(!exists|j: int| 0 <= j < addr@.len() && addr@[j] == ':');
    }
    addr.clone()
}

/// The local node as the configuration describes it.
pub fn local_node(config: &PlacementCenterConfig) -> (r: BrokerNode)
    ensures
        r.cluster_type@ == "PlacementCenter"@,
        r.cluster_name@ == config.cluster_name@,
        r.node_inner_addr@ == config.addr@ + ":"@ + decimal(config.grpc_port as nat),
        r.node_ip@ == config.addr@,
        r.node_id == config.node_id,
{
    let port = decimal_string(config.grpc_port);
    let mut inner = config.addr.clone();
    inner.append(":");
    inner.append(port.as_str());
    BrokerNode {
        cluster_name: config.cluster_name.clone(),
        cluster_type: String::from_str("PlacementCenter"),
        node_id: config.node_id,
        node_ip: config.addr.clone(),
        node_inner_addr: inner,
        extend: String::new(),
        create_time: 0,
    }
}

/// The membership cache at startup: the local node and every configured
/// member as a peer, with no leader known yet.
pub fn metadata_from_config(config: &PlacementCenterConfig) -> (r: RaftGroupMetadata)
    ensures
        r.wf(),
        r.leader is None,
        forall|id: u64| #[trigger] r.peers().contains_key(id) <==> exists|j: int| 0 <= j < config.nodes@.len() && config.nodes@[j].0 == id,
        forall|j: int| 0 <= j < config.nodes@.len() && (forall|k: int| j < k < config.nodes@.len() ==> config.nodes@[k].0 != config.nodes@[j].0)
            ==> #[trigger] r.peers()[config.nodes@[j].0].node_inner_addr@ == config.nodes@[j].1@,
{
    let mut md = RaftGroupMetadata::new(local_node(config));
    let mut k: usize = 0;
    while k < config.nodes.len()
        invariant
            md.wf(),
            md.leader is None,
            k <= config.nodes@.len(),
            forall|id: u64| #[trigger] md.peers().contains_key(id) <==> exists|j: int| 0 <= j < k && config.nodes@[j].0 == id,
            forall|j: int| 0 <= j < k && (forall|q: int| j < q < k ==> config.nodes@[q].0 != config.nodes@[j].0)
                ==> #[trigger] md.peers()[config.nodes@[j].0].node_inner_addr@ == config.nodes@[j].1@,
        decreases config.nodes@.len() - k,
    {
        let id = config.nodes[k].0;
        let addr = &config.nodes[k].1;
        let node = BrokerNode {
            cluster_name: config.cluster_name.clone(),
            cluster_type: String::from_str("PlacementCenter"),
            node_id: id,
            node_ip: host_of(addr),
            node_inner_addr: addr.clone(),
            extend: String::new(),
            create_time: 0,
        };
        let ghost before = md.peers();
        md.add_peer(id, node);
        proof {
            assert forall|q: u64| #[trigger] md.peers().contains_key(q) <==> exists|j: int| 0 <= j < k + 1 && config.nodes@[j].0 == q by {
                if q == id {
                    assert(config.nodes@[k as int].0 == q);
                }
                if exists|j: int| 0 <= j < k + 1 && config.nodes@[j].0 == q {
                    let j = choose|j: int| 0 <= j < k + 1 && config.nodes@[j].0 == q;
                    if j < k {
                        assert(before.contains_key(q));
                    }
                }
            }
            assert forall|j: int| 0 <= j < k + 1 && (forall|q: int| j < q < k + 1 ==> config.nodes@[q].0 != config.nodes@[j].0)
                implies #[trigger] md.peers()[config.nodes@[j].0].node_inner_addr@ == config.nodes@[j].1@ by {
                if j < k {
                    assert(config.nodes@[k as int].0 != config.nodes@[j].0);
                }
            }
        }
        k = k + 1;
    }
    md
}

} // verus!
