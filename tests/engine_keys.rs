use placement_center::config::{
    calc_init_node, default_grpc_port, default_node_id, host_of, local_node, metadata_from_config,
    Node, PlacementCenterConfig, PlacementCenterLog,
};
use placement_center::engine::{column_family_list, starts_with, RocksDBEngine};
use placement_center::http::{error_response, path_create, path_delete, path_list, path_update, v1_path};
use placement_center::keys::{
    key_cluster, key_name_by_entry, key_name_by_first_index, key_name_snapshot, key_node,
    key_resource_idempotent, key_segment, storage_key_mqtt_acl, storage_key_mqtt_blacklist_prefix,
};
use placement_center::metadata::{
    check_key, check_set_request, BrokerNode, ClusterType, RaftGroupMetadata, StateRole, WriteRoute,
};
use placement_center::retry::{
    endpoint_uri, retry_sleep_time, retry_times, service_offers, PlacementCenterInterface,
    PlacementCenterService, RetryCall, RetryStep,
};

#[test]
fn read_prefix_counts() {
    let mut rs = RocksDBEngine::new();
    rs.write_str("/v1/v1", "v11".to_string());
    rs.write_str("/v1/v2", "v12".to_string());
    rs.write_str("/v1/v3", "v13".to_string());
    rs.write_str("/v2/tmp_test/s1", "1".to_string());
    rs.write_str("/v2/tmp_test/s3", "2".to_string());
    rs.write_str("/v2/tmp_test/s2", "3".to_string());
    rs.write_str("/v3/tmp_test/s1", "1".to_string());
    rs.write_str("/v3/tmp_test/s3", "2".to_string());
    rs.write_str("/v4/tmp_test/s2", "3".to_string());
    assert_eq!(rs.read_prefix("/v1").len(), 3);
    assert_eq!(rs.read_prefix("/v2").len(), 3);
    assert_eq!(rs.read_prefix("/v3").len(), 2);
    assert_eq!(rs.read_prefix("/v4").len(), 1);
    assert_eq!(rs.read_prefix("/v5").len(), 0);
    assert_eq!(rs.read_all().len(), 9);
}

#[test]
fn write_read_delete() {
    let mut rs = RocksDBEngine::new();
    assert!(rs.read("name2").is_none());
    rs.write("name2", vec![1, 2]);
    rs.write("name2", vec![3]);
    assert_eq!(rs.read("name2"), Some(vec![3]));
    assert!(rs.exist("name2"));
    rs.delete("name2");
    assert!(!rs.exist("name2"));
    assert_eq!(rs.read_all_by_cf().len(), 0);
}

#[test]
fn prefix_test_on_strings() {
    assert!(starts_with("/clusters/a", "/clusters/"));
    assert!(!starts_with("/c", "/clusters/"));
    assert!(starts_with("abc", ""));
    assert_eq!(column_family_list(), vec!["cluster".to_string()]);
}

#[test]
fn key_layout() {
    assert_eq!(key_name_by_entry(42), "/raft/entry/42");
    assert_eq!(key_name_by_entry(0), "/raft/entry/0");
    assert_eq!(key_name_by_first_index(), "/raft/first_index");
    assert_eq!(key_name_snapshot(), "/raft/snapshot");
    let a = "mqtt".to_string();
    let b = "c1".to_string();
    assert_eq!(key_cluster(&a, &b), "/clusters/mqtt/c1");
    assert_eq!(key_node(&b, 18446744073709551615), "/clusters/node/c1/18446744073709551615");
    assert_eq!(key_resource_idempotent(&b, &"p".to_string(), 7), "/idempotent/c1/p/7");
    assert_eq!(key_segment(&b, &"s".to_string(), 10), "/journal/segment/c1/s/10");
    assert_eq!(storage_key_mqtt_acl(&b, &"user".to_string(), &"u1".to_string()), "/mqtt/acl/c1/user/u1");
    assert_eq!(storage_key_mqtt_blacklist_prefix(&b), "/mqtt/blacklist/c1");
}

#[test]
fn cluster_type_names() {
    assert_eq!(ClusterType::MqttBrokerServer.as_str_name(), "MQTTBrokerServer");
    assert_eq!(ClusterType::from_st_name("JournalServer"), Some(ClusterType::JournalServer));
    assert_eq!(ClusterType::from_st_name("journalserver"), None);
}

fn node(id: u64, addr: &str) -> BrokerNode {
    BrokerNode {
        cluster_name: "pc".to_string(),
        cluster_type: "PlacementCenter".to_string(),
        node_id: id,
        node_ip: host_of(&addr.to_string()),
        node_inner_addr: addr.to_string(),
        extend: String::new(),
        create_time: 0,
    }
}

#[test]
fn writes_on_a_follower_go_to_the_leader() {
    let mut md = RaftGroupMetadata::new(node(2, "10.0.0.2:1228"));
    md.add_peer(1, node(1, "10.0.0.1:1228"));
    md.add_peer(2, node(2, "10.0.0.2:1228"));
    md.set_leader(Some(node(1, "10.0.0.1:1228")));
    assert!(!md.is_leader());
    match md.write_route() {
        WriteRoute::Forward(addr) => assert_eq!(addr, "10.0.0.1:1228"),
        _ => panic!("expected a forward"),
    }
    md.set_role(StateRole::Leader);
    assert!(matches!(md.write_route(), WriteRoute::Local));
    md.set_role(StateRole::Follower);
    md.set_leader(None);
    assert!(matches!(md.write_route(), WriteRoute::NoLeader));
    assert_eq!(md.leader_addr(), "");
    assert!(!md.leader_alive());
}

#[test]
fn peers_are_added_replaced_and_removed() {
    let mut md = RaftGroupMetadata::new(node(1, "a:1"));
    md.add_peer(1, node(1, "a:1"));
    md.add_peer(3, node(3, "c:1"));
    md.add_peer(3, node(3, "c:2"));
    let mut ids = md.node_ids();
    ids.sort();
    assert_eq!(ids, vec![1, 3]);
    assert_eq!(md.get_node_by_id(3).unwrap().node_inner_addr, "c:2");
    md.remove_peer(1);
    md.remove_peer(8);
    assert_eq!(md.node_ids(), vec![3]);
    assert!(md.get_node_by_id(1).is_none());
}

#[test]
fn validation_of_requests() {
    assert!(check_set_request(&"k".to_string(), &"v".to_string()).is_ok());
    assert!(check_set_request(&"".to_string(), &"v".to_string()).is_err());
    assert!(check_set_request(&"k".to_string(), &"".to_string()).is_err());
    assert!(check_key(&"k".to_string()).is_ok());
    assert!(check_key(&"".to_string()).is_err());
}

#[test]
fn retry_reaches_third_address() {
    let addrs = ["a:1", "b:1", "c:1"];
    let outcomes = [false, false, true];
    let mut call = RetryCall::new(addrs.len()).unwrap();
    let mut attempts = 0;
    let mut sleeps = Vec::new();
    let winner = loop {
        let i = call.next_address();
        attempts += 1;
        if outcomes[i] {
            break addrs[i];
        }
        match call.on_failure() {
            RetryStep::Retry(secs) => sleeps.push(secs),
            RetryStep::GiveUp => panic!("gave up too early"),
        }
    };
    assert_eq!(winner, "c:1");
    assert_eq!(attempts, 3);
    assert!(attempts <= retry_times() + 1);
    assert_eq!(sleeps, vec![2, 4]);
}

#[test]
fn retry_gives_up_after_the_bound() {
    let mut call = RetryCall::new(2).unwrap();
    let mut visited = vec![call.next_address()];
    assert_eq!(call.on_failure(), RetryStep::Retry(2));
    visited.push(call.next_address());
    assert_eq!(call.on_failure(), RetryStep::Retry(4));
    visited.push(call.next_address());
    assert_eq!(call.on_failure(), RetryStep::Retry(6));
    visited.push(call.next_address());
    assert_eq!(call.on_failure(), RetryStep::GiveUp);
    assert_eq!(visited, vec![0, 1, 0, 1]);
    assert!(RetryCall::new(0).is_none());
    assert_eq!(retry_sleep_time(3), 6);
}

#[test]
fn services_and_their_interfaces() {
    assert!(service_offers(PlacementCenterService::Kv, PlacementCenterInterface::KvGet));
    assert!(!service_offers(PlacementCenterService::Kv, PlacementCenterInterface::Vote));
    assert!(service_offers(PlacementCenterService::OpenRaft, PlacementCenterInterface::Snapshot));
    assert!(!service_offers(PlacementCenterService::OpenRaft, PlacementCenterInterface::KvSet));
    assert_eq!(endpoint_uri(&"127.0.0.1:1228".to_string()), "http://127.0.0.1:1228");
}

fn config() -> PlacementCenterConfig {
    PlacementCenterConfig {
        cluster_name: "pc".to_string(),
        node_id: 2,
        addr: "10.0.0.2".to_string(),
        grpc_port: 1228,
        http_port: 1227,
        data_path: "/tmp/pc".to_string(),
        nodes: vec![(1, "10.0.0.1:1228".to_string()), (2, "10.0.0.2:1228".to_string())],
        log: PlacementCenterLog { log_config: String::new(), log_path: String::new() },
    }
}

#[test]
fn startup_membership_from_config() {
    let c = config();
    let local = local_node(&c);
    assert_eq!(local.node_inner_addr, "10.0.0.2:1228");
    assert_eq!(local.cluster_type, "PlacementCenter");
    let md = metadata_from_config(&c);
    let mut ids = md.node_ids();
    ids.sort();
    assert_eq!(ids, vec![1, 2]);
    assert_eq!(md.get_node_by_id(1).unwrap().node_ip, "10.0.0.1");
    assert!(md.leader.is_none());
}

#[test]
fn defaults_and_init_node() {
    assert_eq!(default_node_id(), 1);
    assert_eq!(default_grpc_port(), 9982);
    let nodes = vec![
        Node { node_id: 3, rpc_addr: "c".to_string() },
        Node { node_id: 1, rpc_addr: "a".to_string() },
        Node { node_id: 2, rpc_addr: "b".to_string() },
    ];
    assert_eq!(calc_init_node(&nodes), 1);
    assert_eq!(host_of(&"nohost".to_string()), "nohost");
}

#[test]
fn http_paths() {
    assert_eq!(v1_path(&path_list("/index")), "/v1/index/list");
    assert_eq!(path_create("/a"), "/a/create");
    assert_eq!(path_update("/a"), "/a/update");
    assert_eq!(path_delete("/a"), "/a/delete");
    assert_eq!(error_response(), "");
}
