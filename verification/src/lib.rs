//! Shared transaction pool ("mempool") core for a distributed ledger node.
//!
//! The pool accepts candidate transactions under bounded capacity, holds them
//! indexed for priority-ordered broadcast, disseminates them to peers through
//! acknowledgement-driven per-peer state machines with exponential backoff and
//! failover across redundant network instances, and garbage-collects expired
//! or committed entries.

pub mod admission;
pub mod arith;
pub mod broadcast;
pub mod config;
pub mod cursor;
pub mod failover;
pub mod indexing;
pub mod limiter;
pub mod mempool;
pub mod reaper;
pub mod record;
pub mod store;
