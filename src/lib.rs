//! Replicated, hash-chained record ledger for disconnected field nodes.
//!
//! The crate holds the synchronization core: vector clocks, the canonical
//! byte form of blocks, the ledger with its validation and queuing rules,
//! the deterministic choice between conflicting records, and the
//! synchronization service that batches records into signed blocks.

pub mod clock;
pub mod codec;
pub mod conflict;
pub mod crypto;
pub mod ledger;
pub mod models;
pub mod server;
pub mod sync;
