//! The key-value service: what each request turns into on this node.

use crate::engine::RocksDBEngine;
use crate::errors::RobustMQError;
use crate::kv::{get_result_view, json_of_text, kv_get_in, text_of_json, KvStorage};
use crate::metadata::{check_key, check_set_request, RaftGroupMetadata, StateRole, WriteRoute};
use crate::route::{
    encode_delete_request, encode_set_request, set_request_bytes, DeleteRequest,
    SetRequest, StorageData, StorageDataType,
};
use vstd::prelude::*;

verus! {

/// What a write request turns into.
pub enum WritePlan {
    /// Propose this command through the consensus pipeline.
    Propose(StorageData),
    /// Send the request, as it is, to the leader at this address.
    Forward(String),
}

/// The plan for a set request: refused with an empty key or value; on the
/// leader, a set command to propose; elsewhere, a forward to the known
/// leader, or a refusal where none is known.
pub fn plan_set(md: &RaftGroupMetadata, key: String, value: String) -> (r: Result<WritePlan, RobustMQError>)
    ensures
        (key@.len() == 0 || value@.len() == 0) ==> (r matches Err(e) && e is ParameterCannotBeNull),
        (key@.len() > 0 && value@.len() > 0) ==> {
            if md.raft_role == StateRole::Leader {
                &&& r matches Ok(WritePlan::Propose(d))
                &&& d.data_type == StorageDataType::KvSet
                &&& d.value@ == set_request_bytes(key@, value@)
                &&& text_of_json(json_of_text(key@)) == Some(key@)
                &&& text_of_json(json_of_text(value@)) == Some(value@)
                &&& json_of_text(key@).len() <= u64::MAX
            } else {
                match md.leader {
                    Some(l) => r matches Ok(WritePlan::Forward(a)) && a@ == l.node_inner_addr@,
                    None => r matches Err(e) && e is ClusterNoAvailableNode,
                }
            }
        },
{
    check_set_request(&key, &value)?;
    match md.write_route() {
        WriteRoute::Local => {
            let req = SetRequest { key, value };
            Ok(WritePlan::Propose(StorageData::new(StorageDataType::KvSet, encode_set_request(&req))))
        },
        WriteRoute::Forward(addr) => Ok(WritePlan::Forward(addr)),
        WriteRoute::NoLeader => Err(RobustMQError::ClusterNoAvailableNode),
    }
}

/// The plan for a delete request, as for a set request.
pub fn plan_delete(md: &RaftGroupMetadata, key: String) -> (r: Result<WritePlan, RobustMQError>)
    ensures
        key@.len() == 0 ==> (r matches Err(e) && e is ParameterCannotBeNull),
        key@.len() > 0 ==> {
            if md.raft_role == StateRole::Leader {
                &&& r matches Ok(WritePlan::Propose(d))
                &&& d.data_type == StorageDataType::KvDelete
                &&& d.value@ == json_of_text(key@)
                &&& text_of_json(d.value@) == Some(key@)
            } else {
                match md.leader {
                    Some(l) => r matches Ok(WritePlan::Forward(a)) && a@ == l.node_inner_addr@,
                    None => r matches Err(e) && e is ClusterNoAvailableNode,
                }
            }
        },
{
    check_key(&key)?;
    match md.write_route() {
        WriteRoute::Local => {
            let req = DeleteRequest { key };
            Ok(WritePlan::Propose(StorageData::new(StorageDataType::KvDelete, encode_delete_request(&req))))
        },
        WriteRoute::Forward(addr) => Ok(WritePlan::Forward(addr)),
        WriteRoute::NoLeader => Err(RobustMQError::ClusterNoAvailableNode),
    }
}

/// Serves a read locally: refused with an empty key, otherwise what the
/// namespace holds under it.
pub fn serve_get(engine: &RocksDBEngine, key: String) -> (r: Result<Option<String>, RobustMQError>)
    requires
        engine.wf(),
    ensures
        key@.len() == 0 ==> (r matches Err(e) && e is ParameterCannotBeNull),
        key@.len() > 0 ==> get_result_view(r) == kv_get_in(engine.view(), key@),
{
    check_key(&key)?;
    KvStorage::new().get(engine, key)
}

/// Serves an existence check locally: refused with an empty key.
pub fn serve_exists(engine: &RocksDBEngine, key: String) -> (r: Result<bool, RobustMQError>)
    requires
        engine.wf(),
    ensures
        key@.len() == 0 ==> (r matches Err(e) && e is ParameterCannotBeNull),
        key@.len() > 0 ==> r == Ok::<bool, RobustMQError>(engine.view().contains_key(key@)),
{
    check_key(&key)?;
    Ok(KvStorage::new().exist(engine, key))
}

} // verus!
