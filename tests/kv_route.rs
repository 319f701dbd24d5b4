use placement_center::engine::RocksDBEngine;
use placement_center::errors::RobustMQError;
use placement_center::kv::KvStorage;
use placement_center::route::{
    decode_storage_data, encode_delete_request, encode_set_request, encode_storage_data, wait_result,
    DataRoute, DeleteRequest, ProposalWait, RaftResponseMessage, SetRequest, StorageData,
    StorageDataType, PROPOSAL_TIMEOUT_SECS,
};

fn set_command(key: &str, value: &str) -> Vec<u8> {
    let req = SetRequest { key: key.to_string(), value: value.to_string() };
    encode_storage_data(&StorageData::new(StorageDataType::KvSet, encode_set_request(&req)))
}

fn delete_command(key: &str) -> Vec<u8> {
    let req = DeleteRequest { key: key.to_string() };
    encode_storage_data(&StorageData::new(StorageDataType::KvDelete, encode_delete_request(&req)))
}

#[test]
fn committed_set_is_visible_to_get() {
    let mut engine = RocksDBEngine::new();
    let route = DataRoute::new();
    assert!(route.route(&mut engine, set_command("a", "1")).is_ok());
    let kv = KvStorage::new();
    assert_eq!(kv.get(&engine, "a".to_string()).unwrap(), Some("1".to_string()));
    assert!(kv.exist(&engine, "a".to_string()));
}

#[test]
fn set_replaces_and_delete_removes() {
    let mut engine = RocksDBEngine::new();
    let route = DataRoute::new();
    let kv = KvStorage::new();
    assert!(route.route(&mut engine, set_command("k", "old")).is_ok());
    assert!(route.route(&mut engine, set_command("k", "new \"quoted\"")).is_ok());
    assert_eq!(kv.get(&engine, "k".to_string()).unwrap(), Some("new \"quoted\"".to_string()));
    assert!(route.route(&mut engine, delete_command("k")).is_ok());
    assert_eq!(kv.get(&engine, "k".to_string()).unwrap(), None);
    assert!(!kv.exist(&engine, "k".to_string()));
}

#[test]
fn get_twice_gives_the_same_result() {
    let mut engine = RocksDBEngine::new();
    let kv = KvStorage::new();
    kv.set(&mut engine, "x".to_string(), "y".to_string());
    let first = kv.get(&engine, "x".to_string()).unwrap();
    let second = kv.get(&engine, "x".to_string()).unwrap();
    assert_eq!(first, second);
    assert_eq!(kv.get(&engine, "none".to_string()).unwrap(), None);
    assert_eq!(kv.get(&engine, "none".to_string()).unwrap(), None);
}

#[test]
fn values_are_stored_as_json_text() {
    let mut engine = RocksDBEngine::new();
    let kv = KvStorage::new();
    kv.set(&mut engine, "x".to_string(), "y".to_string());
    assert_eq!(engine.read("x").unwrap(), b"\"y\"".to_vec());
}

#[test]
fn undecodable_value_is_an_error() {
    let mut engine = RocksDBEngine::new();
    engine.write("raw", vec![0xff, 0x00]);
    let kv = KvStorage::new();
    assert!(matches!(kv.get(&engine, "raw".to_string()), Err(RobustMQError::ValueDecodeFailed)));
}

#[test]
fn undecodable_command_is_refused_and_changes_nothing() {
    let mut engine = RocksDBEngine::new();
    let route = DataRoute::new();
    assert!(matches!(route.route(&mut engine, vec![7, 1, 2]), Err(RobustMQError::CommandDecodeFailed)));
    assert!(matches!(route.route(&mut engine, vec![]), Err(RobustMQError::CommandDecodeFailed)));
    assert!(matches!(route.route(&mut engine, vec![0, 1]), Err(RobustMQError::CommandDecodeFailed)));
    assert!(engine.read_all().is_empty());
}

#[test]
fn envelope_round_trip() {
    let bytes = encode_storage_data(&StorageData::new(StorageDataType::KvDelete, vec![9, 8]));
    assert_eq!(bytes, vec![1, 9, 8]);
    let back = decode_storage_data(&bytes).unwrap();
    assert_eq!(back.data_type, StorageDataType::KvDelete);
    assert_eq!(back.value, vec![9, 8]);
}

#[test]
fn proposal_outcomes() {
    assert!(wait_result("set".to_string(), ProposalWait::Replied(RaftResponseMessage::Success)).is_ok());
    match wait_result("set".to_string(), ProposalWait::TimedOut) {
        Err(RobustMQError::RaftLogCommitTimeout(a)) => assert_eq!(a, "set"),
        _ => panic!("expected a commit timeout"),
    }
    assert!(matches!(
        wait_result("delete".to_string(), ProposalWait::Dropped),
        Err(RobustMQError::RaftLogCommitFailed(_))
    ));
    assert!(matches!(
        wait_result("delete".to_string(), ProposalWait::Replied(RaftResponseMessage::Fail)),
        Err(RobustMQError::RaftLogCommitFailed(_))
    ));
    assert_eq!(PROPOSAL_TIMEOUT_SECS, 30);
}

#[test]
fn error_descriptions_name_their_subject() {
    let e = RobustMQError::RaftLogCommitTimeout("set".to_string());
    assert!(e.to_string().contains("set"));
    let e = RobustMQError::ParameterCannotBeNull("key".to_string());
    assert_eq!(e.to_string(), "key cannot be empty");
}
