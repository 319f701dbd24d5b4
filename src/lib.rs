//! Replicated persistence layer of the placement center: the raft log and
//! snapshot store, the command router, membership metadata and the peer
//! retry policy.

pub mod codec;
pub mod config;
pub mod dump;
pub mod engine;
pub mod errors;
pub mod http;
pub mod keys;
pub mod kv;
pub mod metadata;
pub mod records;
pub mod retry;
pub mod route;
pub mod service;
pub mod storage;
