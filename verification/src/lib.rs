//! aura-core: the verified core of a multi-protocol download engine.
//!
//! The library holds the protocol codecs, the piece bookkeeping, the task
//! range planning and the parsers of the engine; every function carries a
//! contract that Verus proves.
use vstd::prelude::*;

pub mod bitfield;
pub mod text;
pub mod protocol;
pub mod piece_picker;
pub mod task;
pub mod dht;
pub mod bencode;
pub mod tracker;
pub mod peer_registry;
pub mod hash;
pub mod torrent;
pub mod links;
pub mod magnet;
pub mod metalink;
pub mod config;
pub mod peer_session;
pub mod worker;
pub mod orchestrator;
pub mod storage;
pub mod api;
pub mod vpn;
pub mod port_mapping;
pub mod power;
pub mod throttler;
pub mod bt_task;
pub mod rpc;

verus! {

/// Identifier of a download task (and of the sub-tasks that feed it).
#[derive(Debug, Clone, Copy, PartialEq, Eq, Structural, PartialOrd, Ord, Hash)]
pub struct TaskId(pub u64);

#[verifier::external_type_specification]
#[verifier::external_body]
pub struct ExIoError(std::io::Error);

/// Core error type of the engine.
#[derive(Debug)]
pub enum Error {
    Io(std::io::Error),
    Protocol(String),
    TaskNotFound(TaskId),
    Storage(String),
    Config(String),
}

} // verus!
