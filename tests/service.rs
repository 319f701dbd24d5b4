use placement_center::engine::RocksDBEngine;
use placement_center::errors::RobustMQError;
use placement_center::kv::KvStorage;
use placement_center::metadata::{BrokerNode, RaftGroupMetadata, StateRole};
use placement_center::route::{encode_storage_data, DataRoute, StorageDataType};
use placement_center::service::{plan_delete, plan_set, serve_exists, serve_get, WritePlan};

fn node(id: u64, addr: &str) -> BrokerNode {
    BrokerNode {
        cluster_name: "pc".to_string(),
        cluster_type: "PlacementCenter".to_string(),
        node_id: id,
        node_ip: String::new(),
        node_inner_addr: addr.to_string(),
        extend: String::new(),
        create_time: 0,
    }
}

fn leader_and_follower() -> (RaftGroupMetadata, RaftGroupMetadata) {
    let mut leader = RaftGroupMetadata::new(node(1, "10.0.0.1:1228"));
    leader.set_role(StateRole::Leader);
    leader.set_leader(Some(node(1, "10.0.0.1:1228")));
    let mut follower = RaftGroupMetadata::new(node(2, "10.0.0.2:1228"));
    follower.set_leader(Some(node(1, "10.0.0.1:1228")));
    (leader, follower)
}

#[test]
fn set_on_leader_is_proposed_and_then_readable() {
    let (leader, _) = leader_and_follower();
    let plan = plan_set(&leader, "a".to_string(), "1".to_string()).unwrap();
    let data = match plan {
        WritePlan::Propose(d) => d,
        WritePlan::Forward(_) => panic!("the leader proposes"),
    };
    assert_eq!(data.data_type, StorageDataType::KvSet);
    let mut engine = RocksDBEngine::new();
    assert!(DataRoute::new().route(&mut engine, encode_storage_data(&data)).is_ok());
    assert_eq!(serve_get(&engine, "a".to_string()).unwrap(), Some("1".to_string()));
    assert!(serve_exists(&engine, "a".to_string()).unwrap());
}

#[test]
fn set_on_follower_is_forwarded_to_leader() {
    let (leader, follower) = leader_and_follower();
    match plan_set(&follower, "a".to_string(), "1".to_string()).unwrap() {
        WritePlan::Forward(addr) => assert_eq!(addr, "10.0.0.1:1228"),
        WritePlan::Propose(_) => panic!("a follower forwards"),
    }
    // The leader then serves the forwarded request as its own.
    let mut engine = RocksDBEngine::new();
    if let WritePlan::Propose(d) = plan_set(&leader, "a".to_string(), "1".to_string()).unwrap() {
        assert!(DataRoute::new().route(&mut engine, encode_storage_data(&d)).is_ok());
    }
    assert_eq!(KvStorage::new().get(&engine, "a".to_string()).unwrap(), Some("1".to_string()));
}

#[test]
fn delete_plans() {
    let (leader, follower) = leader_and_follower();
    match plan_delete(&leader, "a".to_string()).unwrap() {
        WritePlan::Propose(d) => assert_eq!(d.data_type, StorageDataType::KvDelete),
        WritePlan::Forward(_) => panic!("the leader proposes"),
    }
    assert!(matches!(plan_delete(&follower, "a".to_string()), Ok(WritePlan::Forward(_))));
}

#[test]
fn empty_parameters_are_refused() {
    let (leader, _) = leader_and_follower();
    assert!(matches!(
        plan_set(&leader, "".to_string(), "1".to_string()),
        Err(RobustMQError::ParameterCannotBeNull(_))
    ));
    assert!(matches!(
        plan_set(&leader, "a".to_string(), "".to_string()),
        Err(RobustMQError::ParameterCannotBeNull(_))
    ));
    assert!(matches!(plan_delete(&leader, "".to_string()), Err(RobustMQError::ParameterCannotBeNull(_))));
    let engine = RocksDBEngine::new();
    assert!(matches!(serve_get(&engine, "".to_string()), Err(RobustMQError::ParameterCannotBeNull(_))));
    assert!(matches!(serve_exists(&engine, "".to_string()), Err(RobustMQError::ParameterCannotBeNull(_))));
}

#[test]
fn writes_without_a_known_leader_are_refused() {
    let md = RaftGroupMetadata::new(node(3, "10.0.0.3:1228"));
    assert!(matches!(
        plan_set(&md, "a".to_string(), "1".to_string()),
        Err(RobustMQError::ClusterNoAvailableNode)
    ));
}
