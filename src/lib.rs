//! An embedded time-series feature store: per-entity, per-feature timestamped
//! vectors kept in an ordered key-value engine and read back by bounded range
//! scans.
pub mod codec;
pub mod common;
pub mod keys;
pub mod latency;
pub mod lmdb_backend;
pub mod scan;
pub mod serving;
pub mod store;
