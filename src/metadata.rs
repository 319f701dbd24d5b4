//! The cluster membership cache: the local node, the known leader, the
//! local role and the peers.

use crate::errors::RobustMQError;
use vstd::prelude::*;
use vstd::string::{StrSliceExecFns, StringExecFns};

verus! {

/// The kinds of cluster that the platform runs.
#[derive(Clone, Copy, PartialEq, Eq, Structural, Debug)]
pub enum ClusterType {
    PlacementCenter,
    JournalServer,
    MqttBrokerServer,
    AmqpBrokerServer,
}

pub open spec fn cluster_type_name(t: ClusterType) -> Seq<char> {
    match t {
        ClusterType::PlacementCenter => "PlacementCenter"@,
        ClusterType::JournalServer => "JournalServer"@,
        ClusterType::MqttBrokerServer => "MQTTBrokerServer"@,
        ClusterType::AmqpBrokerServer => "AMQPBrokerServer"@,
    }
}

impl ClusterType {
    /// The name of the kind, as the wire protocol spells it.
    pub fn as_str_name(&self) -> (r: &'static str)
        ensures
            r@ == cluster_type_name(*self),
    {
        match self {
            ClusterType::PlacementCenter => "PlacementCenter",
            ClusterType::JournalServer => "JournalServer",
            ClusterType::MqttBrokerServer => "MQTTBrokerServer",
            ClusterType::AmqpBrokerServer => "AMQPBrokerServer",
        }
    }

    /// The kind that `value` names, if any.
    pub fn from_st_name(value: &str) -> (r: Option<ClusterType>)
        ensures
            match r {
                Some(t) => cluster_type_name(t) == value@,
                None => forall|t: ClusterType| cluster_type_name(t) != value@,
            },
    {
        let v = value.to_owned();
        if v == String::from_str("PlacementCenter") {
            Some(ClusterType::PlacementCenter)
        } else if v == String::from_str("JournalServer") {
            Some(ClusterType::JournalServer)
        } else if v == String::from_str("MQTTBrokerServer") {
            Some(ClusterType::MqttBrokerServer)
        } else if v == String::from_str("AMQPBrokerServer") {
            Some(ClusterType::AmqpBrokerServer)
        } else {
            proof {
                assert forall|t: ClusterType| cluster_type_name(t) != value@ by {
                    match t {
                        ClusterType::PlacementCenter => {},
                        ClusterType::JournalServer => {},
                        ClusterType::MqttBrokerServer => {},
                        ClusterType::AmqpBrokerServer => {},
                    }
                }
            }
            None
        }
    }
}

/// The lifecycle state of the local node.
#[derive(Clone, Copy, PartialEq, Eq, Structural, Debug)]
pub enum NodeState {
    Running,
    Starting,
    Stopping,
    Stop,
}

/// The role of the local node in the consensus group.
#[derive(Clone, Copy, PartialEq, Eq, Structural, Debug)]
pub enum StateRole {
    Follower,
    Candidate,
    Leader,
    PreCandidate,
}

/// One member of a cluster.
pub struct BrokerNode {
    pub cluster_name: String,
    pub cluster_type: String,
    pub node_id: u64,
    pub node_ip: String,
    pub node_inner_addr: String,
    pub extend: String,
    pub create_time: u64,
}

impl BrokerNode {
    pub fn clone(&self) -> (r: BrokerNode)
        ensures
            r.cluster_name@ == self.cluster_name@,
            r.cluster_type@ == self.cluster_type@,
            r.node_id == self.node_id,
            r.node_ip@ == self.node_ip@,
            r.node_inner_addr@ == self.node_inner_addr@,
            r.extend@ == self.extend@,
            r.create_time == self.create_time,
    {
        BrokerNode {
            cluster_name: self.cluster_name.clone(),
            cluster_type: self.cluster_type.clone(),
            node_id: self.node_id,
            node_ip: self.node_ip.clone(),
            node_inner_addr: self.node_inner_addr.clone(),
            extend: self.extend.clone(),
            create_time: self.create_time,
        }
    }
}

/// Where a write request goes.
pub enum WriteRoute {
    /// This node leads: propose the write here.
    Local,
    /// Forward the write, as it is, to the leader at this address.
    Forward(String),
    /// No leader is known.
    NoLeader,
}

/// The membership cache.
pub struct RaftGroupMetadata {
    pub local: BrokerNode,
    pub leader: Option<BrokerNode>,
    pub state: NodeState,
    pub raft_role: StateRole,
    pub peers: Vec<(u64, BrokerNode)>,
}

impl RaftGroupMetadata {
    /// The peers, by id.
    pub closed spec fn peers(&self) -> Map<u64, BrokerNode> {
        Map::new(
            |id: u64| exists|i: int| 0 <= i < self.peers@.len() && self.peers@[i].0 == id,
            |id: u64| self.peers@[choose|i: int| 0 <= i < self.peers@.len() && self.peers@[i].0 == id].1,
        )
    }

    /// Peer ids are unique.
    pub closed spec fn wf(&self) -> bool {
        forall|i: int, j: int|
            0 <= i < self.peers@.len() && 0 <= j < self.peers@.len() && i != j ==> self.peers@[i].0 != self.peers@[j].0
    }

    proof fn lemma_peer_at(&self, i: int)
        requires
            self.wf(),
            0 <= i < self.peers@.len(),
        ensures
            self.peers().contains_key(self.peers@[i].0),
            self.peers()[self.peers@[i].0] == self.peers@[i].1,
    {
        let id = self.peers@[i].0;
        assert(self.peers().dom().contains(id));
        let j = choose|j: int| 0 <= j < self.peers@.len() && self.peers@[j].0 == id;
        assert(j == i);
    }

    /// A cache for `local`, with no peer and no leader known yet; the node
    /// is starting, as a follower.
    pub fn new(local: BrokerNode) -> (r: Self)
        ensures
            r.wf(),
            r.peers() == Map::<u64, BrokerNode>::empty(),
            r.leader is None,
            r.raft_role == StateRole::Follower,
            r.state == NodeState::Starting,
            r.local == local,
    {
        let r = RaftGroupMetadata {
            local,
            leader: None,
            state: NodeState::Starting,
            raft_role: StateRole::Follower,
            peers: Vec::new(),
        };
        assert(r.peers() =~= Map::<u64, BrokerNode>::empty());
        r
    }

    fn find(&self, id: u64) -> (r: Option<usize>)
        requires
            self.wf(),
        ensures
            match r {
                Some(i) => i < self.peers@.len() && self.peers@[i as int].0 == id,
                None => !self.peers().contains_key(id),
            },
    {
        let mut i: usize = 0;
        while i < self.peers.len()
            invariant
                i <= self.peers@.len(),
                forall|j: int| 0 <= j < i ==> self.peers@[j].0 != id,
            decreases self.peers@.len() - i,
        {
            if self.peers[i].0 == id {
                return Some(i);
            }
            i = i + 1;
        }
        None
    }

    /// The peer `id`, if known.
    pub fn get_node_by_id(&self, id: u64) -> (r: Option<&BrokerNode>)
        requires
            self.wf(),
        ensures
            match r {
                Some(n) => self.peers().contains_key(id) && *n == self.peers()[id],
                None => !self.peers().contains_key(id),
            },
    {
        match self.find(id) {
            Some(i) => {
                proof {
                    self.lemma_peer_at(i as int);
                }
                Some(&self.peers[i].1)
            },
            None => None,
        }
    }

    /// Records `node` as peer `id`, replacing what was known of it.
    pub fn add_peer(&mut self, id: u64, node: BrokerNode)
        requires
            old(self).wf(),
        ensures
            final(self).wf(),
            final(self).peers() == old(self).peers().insert(id, node),
            final(self).leader == old(self).leader,
            final(self).raft_role == old(self).raft_role,
    {
        let ghost before = self.peers();
        let ghost o = self.peers@;
        match self.find(id) {
            Some(i) => {
                self.peers.set(i, (id, node));
                proof {
                    assert forall|a: int| 0 <= a < self.peers@.len() && a != i implies self.peers@[a] == o[a] by {}
                    assert forall|a: int, b: int|
                        0 <= a < self.peers@.len() && 0 <= b < self.peers@.len() && a != b implies self.peers@[a].0 != self.peers@[b].0 by {}
                    assert forall|q: u64| #[trigger] before.insert(id, node).contains_key(q) implies self.peers().contains_key(q) by {
                        if q == id {
                            assert(self.peers@[i as int].0 == q);
                        } else {
                            let j = choose|j: int| 0 <= j < o.len() && o[j].0 == q;
                            assert(self.peers@[j].0 == q);
                        }
                    }
                    assert forall|q: u64| #[trigger] self.peers().contains_key(q) implies before.insert(id, node).contains_key(q) by {
                        let j = choose|j: int| 0 <= j < self.peers@.len() && self.peers@[j].0 == q;
                        if j != i {
                            assert(o[j].0 == q);
                        }
                    }
                    assert forall|q: u64| #[trigger] self.peers().contains_key(q) implies self.peers()[q] == before.insert(id, node)[q] by {
                        let j = choose|j: int| 0 <= j < self.peers@.len() && self.peers@[j].0 == q;
                        self.lemma_peer_at(j);
                        if j != i {
                            old(self).lemma_peer_at(j);
                        }
                    }
                    assert(self.peers() =~= before.insert(id, node));
                }
            },
            None => {
                self.peers.push((id, node));
                proof {
                    let n = o.len() as int;
                    assert forall|a: int| 0 <= a < n implies self.peers@[a] == o[a] by {}
                    assert forall|a: int, b: int|
                        0 <= a < self.peers@.len() && 0 <= b < self.peers@.len() && a != b implies self.peers@[a].0 != self.peers@[b].0 by {
                        if a == n {
                            assert(old(self).peers().contains_key(o[b].0));
                        } else if b == n {
                            assert(old(self).peers().contains_key(o[a].0));
                        }
                    }
                    assert forall|q: u64| #[trigger] before.insert(id, node).contains_key(q) implies self.peers().contains_key(q) by {
                        if q == id {
                            assert(self.peers@[n].0 == q);
                        } else {
                            let j = choose|j: int| 0 <= j < o.len() && o[j].0 == q;
                            assert(self.peers@[j].0 == q);
                        }
                    }
                    assert forall|q: u64| #[trigger] self.peers().contains_key(q) implies before.insert(id, node).contains_key(q) by {
                        let j = choose|j: int| 0 <= j < self.peers@.len() && self.peers@[j].0 == q;
                        if j < n {
                            assert(o[j].0 == q);
                        }
                    }
                    assert forall|q: u64| #[trigger] self.peers().contains_key(q) implies self.peers()[q] == before.insert(id, node)[q] by {
                        let j = choose|j: int| 0 <= j < self.peers@.len() && self.peers@[j].0 == q;
                        self.lemma_peer_at(j);
                        if j != n {
                            old(self).lemma_peer_at(j);
                        }
                    }
                    assert(self.peers() =~= before.insert(id, node));
                }
            },
        }
    }

    /// Forgets peer `id`.
    pub fn remove_peer(&mut self, id: u64)
        requires
            old(self).wf(),
        ensures
            final(self).wf(),
            final(self).peers() == old(self).peers().remove(id),
            final(self).leader == old(self).leader,
            final(self).raft_role == old(self).raft_role,
    {
        let ghost before = self.peers();
        match self.find(id) {
            Some(i) => {
                let ghost o = self.peers@;
                self.peers.remove(i);
                proof {
                    assert forall|a: int| 0 <= a < self.peers@.len() implies #[trigger] self.peers@[a]
                        == o[if a < i { a } else { a + 1 }] by {}
                    assert forall|a: int, b: int|
                        0 <= a < self.peers@.len() && 0 <= b < self.peers@.len() && a != b implies self.peers@[a].0 != self.peers@[b].0 by {
                        assert(self.peers@[a] == o[if a < i { a } else { a + 1 }]);
                        assert(self.peers@[b] == o[if b < i { b } else { b + 1 }]);
                    }
                    assert forall|q: u64| #[trigger] before.remove(id).contains_key(q) implies self.peers().contains_key(q) by {
                        let j = choose|j: int| 0 <= j < o.len() && o[j].0 == q;
                        assert(j != i);
                        let a = if j < i { j } else { j - 1 };
                        assert(self.peers@[a] == o[if a < i { a } else { a + 1 }]);
                        assert(self.peers@[a].0 == q);
                    }
                    assert forall|q: u64| #[trigger] self.peers().contains_key(q) implies before.remove(id).contains_key(q) by {
                        let a = choose|a: int| 0 <= a < self.peers@.len() && self.peers@[a].0 == q;
                        let j = if a < i { a } else { a + 1 };
                        assert(self.peers@[a] == o[j]);
                        assert(o[j].0 == q);
                        assert(j != i);
                    }
                    assert forall|q: u64| #[trigger] self.peers().contains_key(q) implies self.peers()[q] == before.remove(id)[q] by {
                        let a = choose|a: int| 0 <= a < self.peers@.len() && self.peers@[a].0 == q;
                        let j = if a < i { a } else { a + 1 };
                        assert(self.peers@[a] == o[j]);
                        self.lemma_peer_at(a);
                        old(self).lemma_peer_at(j);
                    }
                    assert(self.peers() =~= before.remove(id));
                }
            },
            None => {
                assert(self.peers() =~= before.remove(id));
            },
        }
    }

    /// Whether the local node leads the group.
    pub fn is_leader(&self) -> (r: bool)
        ensures
            r == (self.raft_role == StateRole::Leader),
    {
        self.raft_role == StateRole::Leader
    }

    /// Sets the local role.
    pub fn set_role(&mut self, role: StateRole)
        ensures
            final(self).raft_role == role,
            final(self).peers() == old(self).peers(),
            final(self).leader == old(self).leader,
            final(self).wf() == old(self).wf(),
    {
        self.raft_role = role;
    }

    /// Records the current leader.
    pub fn set_leader(&mut self, leader: Option<BrokerNode>)
        ensures
            final(self).leader == leader,
            final(self).raft_role == old(self).raft_role,
            final(self).peers() == old(self).peers(),
            final(self).wf() == old(self).wf(),
    {
        self.leader = leader;
    }

    /// The ids of the peers, each once.
    pub fn node_ids(&self) -> (r: Vec<u64>)
        requires
            self.wf(),
        ensures
            r@.no_duplicates(),
            forall|id: u64| #[trigger] r@.contains(id) <==> self.peers().contains_key(id),
    {
        let mut voters: Vec<u64> = Vec::new();
        let mut i: usize = 0;
        while i < self.peers.len()
            invariant
                self.wf(),
                i <= self.peers@.len(),
                voters@.len() == i,
                forall|a: int| 0 <= a < i ==> #[trigger] voters@[a] == self.peers@[a].0,
            decreases self.peers@.len() - i,
        {
            voters.push(self.peers[i].0);
            i = i + 1;
        }
        proof {
            assert forall|id: u64| #[trigger] voters@.contains(id) <==> self.peers().contains_key(id) by {
                if voters@.contains(id) {
                    let a = choose|a: int| 0 <= a < voters@.len() && voters@[a] == id;
                    assert(self.peers@[a].0 == id);
                }
                if self.peers().contains_key(id) {
                    let a = choose|a: int| 0 <= a < self.peers@.len() && self.peers@[a].0 == id;
                    assert(voters@[a] == id);
                }
            }
        }
        voters
    }

    /// The inner address of the leader, empty where none is known.
    pub fn leader_addr(&self) -> (r: String)
        ensures
            match self.leader {
                Some(l) => r@ == l.node_inner_addr@,
                None => r@ == Seq::<char>::empty(),
            },
    {
        match &self.leader {
            Some(leader) => leader.node_inner_addr.clone(),
            None => {
                let r = String::new();
                r
            },
        }
    }

    /// Whether a leader is known.
    pub fn leader_alive(&self) -> (r: bool)
        ensures
            r == self.leader is Some,
    {
        self.leader.is_some()
    }

    /// Where a write request received here goes: proposed here on the
    /// leader, forwarded to the known leader otherwise.
    pub fn write_route(&self) -> (r: WriteRoute)
        ensures
            self.raft_role == StateRole::Leader ==> r is Local,
            self.raft_role != StateRole::Leader ==> match self.leader {
                Some(l) => r matches WriteRoute::Forward(a) && a@ == l.node_inner_addr@,
                None => r is NoLeader,
            },
    {
        if self.is_leader() {
            WriteRoute::Local
        } else if self.leader_alive() {
            WriteRoute::Forward(self.leader_addr())
        } else {
            WriteRoute::NoLeader
        }
    }
}

/// Refuses a set request with an empty key or value.
pub fn check_set_request(key: &String, value: &String) -> (r: Result<(), RobustMQError>)
    ensures
        r is Ok <==> key@.len() > 0 && value@.len() > 0,
        r matches Err(e) ==> e is ParameterCannotBeNull,
{
    if key.as_str().unicode_len() == 0 || value.as_str().unicode_len() == 0 {
        return Err(RobustMQError::ParameterCannotBeNull(String::from_str("key or value")));
    }
    Ok(())
}

/// Refuses a request with an empty key.
pub fn check_key(key: &String) -> (r: Result<(), RobustMQError>)
    ensures
        r is Ok <==> key@.len() > 0,
        r matches Err(e) ==> e is ParameterCannotBeNull,
{
    if key.as_str().unicode_len() == 0 {
        return Err(RobustMQError::ParameterCannotBeNull(String::from_str("key")));
    }
    Ok(())
}

/// A consensus message on its way to the peer at `to`.
pub struct PeerMessage {
    pub to: String,
    pub data: Vec<u8>,
}

} // verus!
