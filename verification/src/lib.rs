//! An in-memory key-value store in the style of Redis: per-key time-to-live
//! expiration driven by a background eviction task, a small command set
//! (GET, SET, PUBLISH, SUBSCRIBE, UNSUBSCRIBE), and the decision logic of a
//! server's connection lifecycle (admission control, per-connection dispatch,
//! accept retry with backoff, and graceful shutdown).
//!
//! This crate holds the store, the protocol commands, and the lifecycle
//! decisions as verified code; the surrounding asynchronous runtime (sockets,
//! locks, timers) drives these functions and performs the I/O.
use vstd::prelude::*;

pub mod client;
pub mod cmd;
pub mod db;
pub mod frame;
pub mod parse;
pub mod server;
pub mod text;

verus! {

/// The port a server listens on when none is configured.
pub const DEFAULT_PORT: u16 = 6379;

/// The fixed ceiling on concurrently served connections.
pub const MAX_CONNECTIONS: usize = 256;

} // verus!
