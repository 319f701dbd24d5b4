//! The application key-value namespace: string values stored as JSON text.

use crate::engine::RocksDBEngine;
use crate::errors::RobustMQError;
use vstd::prelude::*;

verus! {

/// The JSON text that serde_json writes for the string `s`.
pub uninterp spec fn json_of_text(s: Seq<char>) -> Seq<u8>;

/// The string that serde_json reads from `b`, if `b` holds JSON text of one.
pub uninterp spec fn text_of_json(b: Seq<u8>) -> Option<Seq<char>>;

/// Relies on `serde_json::to_vec` for a `String`: it cannot fail on a string,
/// and `serde_json::from_slice` reads the same string back from what it wrote.
#[verifier::external_body]
pub(crate) fn json_bytes(s: &String) -> (r: Vec<u8>)
    ensures
        r@ == json_of_text(s@),
        text_of_json(r@) == Some(s@),
{
    serde_json::to_vec(s).unwrap_or_default()
}

/// Relies on `serde_json::from_slice::<String>`; its error becomes `None`.
#[verifier::external_body]
pub(crate) fn json_text(b: &[u8]) -> (r: Option<String>)
    ensures
        match r {
            Some(s) => text_of_json(b@) == Some(s@),
            None => text_of_json(b@) is None,
        },
{
    serde_json::from_slice::<String>(b).ok()
}

/// What a read of `key` gives on store `m`: nothing where no record is
/// stored, the string held where it decodes, an error where it does not.
pub open spec fn kv_get_in(m: Map<Seq<char>, Seq<u8>>, key: Seq<char>) -> Result<Option<Seq<char>>, ()> {
    if !m.contains_key(key) {
        Ok(None)
    } else {
        match text_of_json(m[key]) {
            Some(s) => Ok(Some(s)),
            None => Err(()),
        }
    }
}

/// A read result as plain values.
pub open spec fn get_result_view(r: Result<Option<String>, RobustMQError>) -> Result<Option<Seq<char>>, ()> {
    match r {
        Ok(Some(s)) => Ok(Some(s@)),
        Ok(None) => Ok(None),
        Err(_) => Err(()),
    }
}

/// Reads and writes of the key-value namespace.
pub struct KvStorage {}

impl KvStorage {
    pub fn new() -> Self {
        KvStorage {  }
    }

    /// Stores `value` under `key`, replacing what was there.
    pub fn set(&self, engine: &mut RocksDBEngine, key: String, value: String)
        requires
            old(engine).wf(),
        ensures
            final(engine).wf(),
            final(engine).view() == old(engine).view().insert(key@, json_of_text(value@)),
            text_of_json(json_of_text(value@)) == Some(value@),
    {
        let data = json_bytes(&value);
        engine.write(key.as_str(), data);
    }

    /// The string stored under `key`.
    pub fn get(&self, engine: &RocksDBEngine, key: String) -> (r: Result<Option<String>, RobustMQError>)
        requires
            engine.wf(),
        ensures
            get_result_view(r) == kv_get_in(engine.view(), key@),
            r matches Err(e) ==> e is ValueDecodeFailed,
    {
        match engine.read(key.as_str()) {
            Some(data) => match json_text(data.as_slice()) {
                Some(s) => Ok(Some(s)),
                None => Err(RobustMQError::ValueDecodeFailed),
            },
            None => Ok(None),
        }
    }

    /// Removes the record under `key`, if any.
    pub fn delete(&self, engine: &mut RocksDBEngine, key: String)
        requires
            old(engine).wf(),
        ensures
            final(engine).wf(),
            final(engine).view() == old(engine).view().remove(key@),
    {
        engine.delete(key.as_str());
    }

    /// Whether a record is stored under `key`.
    pub fn exist(&self, engine: &RocksDBEngine, key: String) -> (r: bool)
        requires
            engine.wf(),
        ensures
            r == engine.view().contains_key(key@),
    {
        engine.exist(key.as_str())
    }
}

/// Two reads of one key with no write between them give the same result.
pub proof fn lemma_get_repeatable(
    m: Map<Seq<char>, Seq<u8>>,
    key: Seq<char>,
    r1: Result<Option<String>, RobustMQError>,
    r2: Result<Option<String>, RobustMQError>,
)
    requires
        get_result_view(r1) == kv_get_in(m, key),
        get_result_view(r2) == kv_get_in(m, key),
    ensures
        get_result_view(r1) == get_result_view(r2),
{
}

/// A stored value with the second it was created at.
pub struct StorageDataWrap {
    pub data: Vec<u8>,
    pub create_time: u64,
}

impl StorageDataWrap {
    pub fn new(data: Vec<u8>, create_time: u64) -> (r: Self)
        ensures
            r.data@ == data@,
            r.create_time == create_time,
    {
        StorageDataWrap { data, create_time }
    }
}

} // verus!
