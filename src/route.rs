//! Committed commands: their envelope, and how they are applied to the
//! key-value namespace in commit order.

use crate::codec::{append_bytes, be_bytes, be_bytes_of, lemma_be_round_trip};
use crate::engine::{RocksDBEngine, Store};
use crate::errors::RobustMQError;
use crate::kv::{json_bytes, json_of_text, json_text, kv_get_in, text_of_json, KvStorage};
use crate::records::word;
use vstd::prelude::*;

verus! {

/// The kind of a command.
#[derive(Clone, Copy, PartialEq, Eq, Structural, Debug)]
pub enum StorageDataType {
    KvSet,
    KvDelete,
}

/// A command as it is proposed and committed: its kind and its encoded
/// request.
pub struct StorageData {
    pub data_type: StorageDataType,
    pub value: Vec<u8>,
}

impl StorageData {
    pub fn new(data_type: StorageDataType, value: Vec<u8>) -> (r: StorageData)
        ensures
            r.data_type == data_type,
            r.value@ == value@,
    {
        StorageData { data_type, value }
    }
}

/// A request to store `value` under `key`.
pub struct SetRequest {
    pub key: String,
    pub value: String,
}

/// A request to remove the record under `key`.
pub struct DeleteRequest {
    pub key: String,
}

pub open spec fn type_tag(t: StorageDataType) -> u8 {
    match t {
        StorageDataType::KvSet => 0,
        StorageDataType::KvDelete => 1,
    }
}

/// The envelope: one tag byte for the kind, then the request.
pub open spec fn storage_data_bytes(t: StorageDataType, v: Seq<u8>) -> Seq<u8> {
    seq![type_tag(t)] + v
}

pub open spec fn storage_data_of(b: Seq<u8>) -> Option<(StorageDataType, Seq<u8>)> {
    if b.len() >= 1 && b[0] == 0 {
        Some((StorageDataType::KvSet, b.subrange(1, b.len() as int)))
    } else if b.len() >= 1 && b[0] == 1 {
        Some((StorageDataType::KvDelete, b.subrange(1, b.len() as int)))
    } else {
        None
    }
}

pub fn encode_storage_data(d: &StorageData) -> (r: Vec<u8>)
    ensures
        r@ == storage_data_bytes(d.data_type, d.value@),
{
    let mut out: Vec<u8> = Vec::new();
    match d.data_type {
        StorageDataType::KvSet => out.push(0),
        StorageDataType::KvDelete => out.push(1),
    }
    append_bytes(&mut out, &d.value);
    out
}

pub fn decode_storage_data(b: &Vec<u8>) -> (r: Option<StorageData>)
    ensures
        match r {
            Some(d) => storage_data_of(b@) == Some((d.data_type, d.value@)),
            None => storage_data_of(b@) is None,
        },
{
    if b.len() == 0 {
        return None;
    }
    let data_type = if b[0] == 0 {
        StorageDataType::KvSet
    } else if b[0] == 1 {
        StorageDataType::KvDelete
    } else {
        return None;
    };
    Some(StorageData { data_type, value: crate::codec::bytes_from(b, 1) })
}

/// A set request: the length of the key's JSON text, that text, then the
/// value's JSON text.
pub open spec fn set_request_bytes(key: Seq<char>, value: Seq<char>) -> Seq<u8> {
    be_bytes(json_of_text(key).len() as u64) + json_of_text(key) + json_of_text(value)
}

pub open spec fn set_request_of(b: Seq<u8>) -> Option<(Seq<char>, Seq<char>)> {
    if b.len() >= 8 && 8 + word(b, 0) <= b.len() {
        let n = word(b, 0) as int;
        match (text_of_json(b.subrange(8, 8 + n)), text_of_json(b.subrange(8 + n, b.len() as int))) {
            (Some(k), Some(v)) => Some((k, v)),
            _ => None,
        }
    } else {
        None
    }
}

pub fn encode_set_request(req: &SetRequest) -> (r: Vec<u8>)
    ensures
        r@ == set_request_bytes(req.key@, req.value@),
        text_of_json(json_of_text(req.key@)) == Some(req.key@),
        text_of_json(json_of_text(req.value@)) == Some(req.value@),
        json_of_text(req.key@).len() <= u64::MAX,
{
    let kb = json_bytes(&req.key);
    let vb = json_bytes(&req.value);
    let mut out = be_bytes_of(kb.len() as u64);
    append_bytes(&mut out, &kb);
    append_bytes(&mut out, &vb);
    out
}

pub fn decode_set_request(b: &Vec<u8>) -> (r: Option<SetRequest>)
    ensures
        match r {
            Some(q) => set_request_of(b@) == Some((q.key@, q.value@)),
            None => set_request_of(b@) is None,
        },
{
    let len = b.len();
    if len < 8 {
        return None;
    }
    let n = crate::codec::read_u64_at(b, 0);
    if n > (len - 8) as u64 {
        return None;
    }
    let n = n as usize;
    let key = json_text(vstd::slice::slice_subrange(b.as_slice(), 8, 8 + n));
    let value = json_text(vstd::slice::slice_subrange(b.as_slice(), 8 + n, len));
    match (key, value) {
        (Some(key), Some(value)) => Some(SetRequest { key, value }),
        _ => None,
    }
}

pub fn encode_delete_request(req: &DeleteRequest) -> (r: Vec<u8>)
    ensures
        r@ == json_of_text(req.key@),
        text_of_json(r@) == Some(req.key@),
{
    json_bytes(&req.key)
}

pub fn decode_delete_request(b: &Vec<u8>) -> (r: Option<DeleteRequest>)
    ensures
        match r {
            Some(q) => text_of_json(b@) == Some(q.key@),
            None => text_of_json(b@) is None,
        },
{
    match json_text(b.as_slice()) {
        Some(key) => Some(DeleteRequest { key }),
        None => None,
    }
}

/// The store after applying the committed command `data`, or nothing where
/// it cannot be decoded.
pub open spec fn routed_in(m: Store, data: Seq<u8>) -> Option<Store> {
    match storage_data_of(data) {
        Some((StorageDataType::KvSet, v)) => match set_request_of(v) {
            Some((k, val)) => Some(m.insert(k, json_of_text(val))),
            None => None,
        },
        Some((StorageDataType::KvDelete, v)) => match text_of_json(v) {
            Some(k) => Some(m.remove(k)),
            None => None,
        },
        None => None,
    }
}

/// Applies key-value requests.
pub struct DataRouteKv {
    kv_storage: KvStorage,
}

impl DataRouteKv {
    pub fn new() -> Self {
        DataRouteKv { kv_storage: KvStorage::new() }
    }

    /// Applies an encoded set request.
    pub fn set(&self, engine: &mut RocksDBEngine, value: Vec<u8>) -> (r: Result<(), RobustMQError>)
        requires
            old(engine).wf(),
        ensures
            final(engine).wf(),
            match set_request_of(value@) {
                Some((k, v)) => r is Ok && final(engine).view() == old(engine).view().insert(k, json_of_text(v)),
                None => (r matches Err(e) && e is CommandDecodeFailed) && final(engine).view() == old(engine).view(),
            },
    {
        match decode_set_request(&value) {
            Some(req) => {
                self.kv_storage.set(engine, req.key, req.value);
                Ok(())
            },
            None => Err(RobustMQError::CommandDecodeFailed),
        }
    }

    /// Applies an encoded delete request.
    pub fn delete(&self, engine: &mut RocksDBEngine, value: Vec<u8>) -> (r: Result<(), RobustMQError>)
        requires
            old(engine).wf(),
        ensures
            final(engine).wf(),
            match text_of_json(value@) {
                Some(k) => r is Ok && final(engine).view() == old(engine).view().remove(k),
                None => (r matches Err(e) && e is CommandDecodeFailed) && final(engine).view() == old(engine).view(),
            },
    {
        match decode_delete_request(&value) {
            Some(req) => {
                self.kv_storage.delete(engine, req.key);
                Ok(())
            },
            None => Err(RobustMQError::CommandDecodeFailed),
        }
    }
}

/// Applies committed commands to the namespace.
pub struct DataRoute {
    route_kv: DataRouteKv,
}

impl DataRoute {
    pub fn new() -> Self {
        DataRoute { route_kv: DataRouteKv::new() }
    }

    /// Applies the committed command `data`; one that cannot be decoded is
    /// refused and changes nothing.
    pub fn route(&self, engine: &mut RocksDBEngine, data: Vec<u8>) -> (r: Result<(), RobustMQError>)
        requires
            old(engine).wf(),
        ensures
            final(engine).wf(),
            match routed_in(old(engine).view(), data@) {
                Some(m) => r is Ok && final(engine).view() == m,
                None => (r matches Err(e) && e is CommandDecodeFailed) && final(engine).view() == old(engine).view(),
            },
    {
        match decode_storage_data(&data) {
            Some(storage_data) => match storage_data.data_type {
                StorageDataType::KvSet => self.route_kv.set(engine, storage_data.value),
                StorageDataType::KvDelete => self.route_kv.delete(engine, storage_data.value),
            },
            None => Err(RobustMQError::CommandDecodeFailed),
        }
    }
}

/// Once a committed set command has been applied, a read of its key gives
/// its value.
pub proof fn lemma_set_then_get(m: Store, key: Seq<char>, value: Seq<char>)
    requires
        text_of_json(json_of_text(key)) == Some(key),
        text_of_json(json_of_text(value)) == Some(value),
        json_of_text(key).len() <= u64::MAX,
    ensures
        routed_in(m, storage_data_bytes(StorageDataType::KvSet, set_request_bytes(key, value)))
            == Some(m.insert(key, json_of_text(value))),
        kv_get_in(m.insert(key, json_of_text(value)), key) == Ok::<Option<Seq<char>>, ()>(Some(value)),
{
    let kb = json_of_text(key);
    let vb = json_of_text(value);
    let v = set_request_bytes(key, value);
    let b = storage_data_bytes(StorageDataType::KvSet, v);
    assert(b.subrange(1, b.len() as int) =~= v);
    lemma_be_round_trip(kb.len() as u64);
    assert(v.subrange(0, 8) =~= be_bytes(kb.len() as u64));
    assert(word(v, 0) == kb.len());
    assert(v.subrange(8, 8 + kb.len() as int) =~= kb);
    assert(v.subrange(8 + kb.len() as int, v.len() as int) =~= vb);
}

/// The driver's reply to a proposal.
#[derive(Clone, Copy, PartialEq, Eq, Structural, Debug)]
pub enum RaftResponseMessage {
    Success,
    Fail,
}

/// How the wait for a proposal's completion ended.
#[derive(Clone, Copy, PartialEq, Eq, Structural, Debug)]
pub enum ProposalWait {
    /// The driver replied.
    Replied(RaftResponseMessage),
    /// The completion channel closed without a reply.
    Dropped,
    /// No reply came within the timeout.
    TimedOut,
}

/// How long a proposer waits for its proposal to commit, in seconds.
pub const PROPOSAL_TIMEOUT_SECS: u64 = 30;

/// What the proposer of `action` reports once its wait has ended: success
/// on a success reply, a commit timeout when the wait timed out, a failure
/// otherwise.
pub fn wait_result(action: String, wait: ProposalWait) -> (r: Result<(), RobustMQError>)
    ensures
        wait == ProposalWait::Replied(RaftResponseMessage::Success) <==> r is Ok,
        wait == ProposalWait::TimedOut ==> (r matches Err(RobustMQError::RaftLogCommitTimeout(a)) && a@ == action@),
        (wait == ProposalWait::Dropped || wait == ProposalWait::Replied(RaftResponseMessage::Fail))
            ==> (r matches Err(RobustMQError::RaftLogCommitFailed(a)) && a@ == action@),
{
    match wait {
        ProposalWait::Replied(RaftResponseMessage::Success) => Ok(()),
        ProposalWait::TimedOut => Err(RobustMQError::RaftLogCommitTimeout(action)),
        _ => Err(RobustMQError::RaftLogCommitFailed(action)),
    }
}

/// The empty reply of a write request.
pub struct CommonReplay {}

} // verus!
