//! An in-memory store for blob sidecars, keyed by the hash of the transaction
//! that carries them, with size accounting and lookup by versioned hash.
//!
//! Beside it stand two smaller pieces of a node: the naming and ordering of
//! the engine API messages that are kept on disk, and the plan by which a
//! stage of the sync pipeline is dropped.

pub mod accounting;
pub mod blob_map;
pub mod engine_store;
pub mod error;
pub mod lookup;
pub mod mem;
pub mod sidecar;
pub mod stage_drop;
pub mod store;
pub mod tracker;
pub mod traits;
