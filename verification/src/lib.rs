//! A time-to-live (TTL) layer over an ordered, durable key-value store.
//!
//! Entries written through this layer expire after a fixed duration.
//! Two auxiliary indices — a forward index (key to expiry timestamp) and a
//! reverse index (timestamp-prefixed composite key to key) — are kept in
//! lock-step with primary writes, so that a background sweep can evict
//! expired rows in timestamp order and readers can mask logically expired
//! rows before the sweep runs.

pub mod bytes;
pub mod model;
pub mod rows;
pub mod store;

pub use store::TransientTree;
pub use store::TtlError;
