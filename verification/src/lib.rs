//! Verified core of an EVM blockchain event indexer.
//!
//! The library holds the decision logic of the indexer: the circuit breaker
//! state machine, the ABI event codec, endpoint health scoring and selection,
//! the connection retry schedule, the subscription poller, the historical
//! backfill planner and the metrics counters. Transport, database and clock
//! calls stay outside; the library states what must hold of every value they
//! hand back.

pub mod abi;
pub mod circuit_breaker;
pub mod clock;
pub mod config;
pub mod connection;
pub mod db;
pub mod decoder;
pub mod error;
pub mod health;
pub mod hexstr;
pub mod historical;
pub mod listener;
pub mod metrics;
pub mod subscription;
