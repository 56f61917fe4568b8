//! Peer-to-peer networking core of a blockchain node: peer identities and
//! addresses, reputation, per-protocol peer-set admission, notification sinks,
//! request routing, the command façade and the worker that applies commands and
//! network events.
use vstd::prelude::*;

pub mod behaviour;
pub mod bytes;
pub mod cli;
pub mod config;
pub mod hashing;
pub mod multihash;
pub mod notifications;
pub mod peer;
pub mod peer_store;
pub mod protocol_controller;
pub mod request_responses;
pub mod service;
pub mod worker;

verus! {

} // verus!
