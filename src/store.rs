//! The storage backend contract shared by the engines.
use vstd::prelude::*;
use vstd::string::StringSliceAdditionalSpecFns;
use crate::codec::CodecError;
use crate::keys::{bounds_of, KeyOrder};
use crate::scan::scan_outcome;

verus! {

/// A failure inside a storage engine (I/O, corruption, limits).
#[derive(Debug, PartialEq, Eq)]
pub enum EngineError {
    /// The LMDB engine failed with this error code.
    Lmdb(i32),
    /// The RocksDB engine failed with this message.
    Rocks(String),
}

/// A failure of a store operation. A key that is absent is no failure.
#[derive(Debug, PartialEq, Eq)]
pub enum StoreError {
    /// The engine failed.
    Engine(EngineError),
    /// A stored value is not a whole number of 32-bit words.
    Codec(CodecError),
}

/// The engines a store can run on.
#[derive(Debug, Clone, Copy, PartialEq, Eq, Structural)]
pub enum DatabaseType {
    /// The LSM-tree engine.
    RocksDB,
    /// The memory-mapped B+tree engine.
    LMDB,
}

/// The short name of an engine.
pub open spec fn engine_name(t: DatabaseType) -> Seq<char> {
    match t {
        DatabaseType::RocksDB => "rocksdb"@,
        DatabaseType::LMDB => "lmdb"@,
    }
}

impl DatabaseType {
    /// The engine's short name.
    pub fn name(&self) -> (r: &'static str)
        ensures
            r@ == engine_name(*self),
    {
        match self {
            DatabaseType::RocksDB => "rocksdb",
            DatabaseType::LMDB => "lmdb",
        }
    }
}

/// The operations every storage engine offers. Records are written under keys
/// built by `crate::keys` and read back by point lookups or by scans over the
/// reverse-encoded keys of a prefix.
pub trait DbInterface: Send + Sync {
    /// The engine this store runs on.
    spec fn engine(&self) -> DatabaseType;

    /// The engine's short name.
    fn db_type(&self) -> (r: String)
        ensures
            r@ == engine_name(self.engine());

    /// Writes one record; a concurrent reader sees the old value or the new one.
    fn put(&self, key: &[u8], value: &[u8]) -> (r: Result<(), StoreError>)
        ensures
            r matches Err(e) ==> e is Engine;

    /// The value stored under `key`; `Ok(None)` when there is none. An absent
    /// key is never an error; only an engine failure is.
    fn get(&self, key: &[u8]) -> (r: Result<Option<Vec<u8>>, StoreError>)
        ensures
            r matches Err(e) ==> e is Engine;

    /// Writes all records as one unit: readers see all of them or none.
    fn batch_put(&self, items: &[(Vec<u8>, Vec<u8>)]) -> (r: Result<(), StoreError>)
        ensures
            r matches Err(e) ==> e is Engine;

    /// Flushes and releases what the engine holds.
    fn close(&self) -> (r: Result<(), StoreError>)
        ensures
            r matches Err(e) ==> e is Engine;

    /// The concatenated values of the records of `prefix`, written with
    /// reverse keys, whose timestamp lies in `[start_ts, end_ts]`, most recent
    /// first; empty when there is none.
    fn prefix_seek(&self, prefix: &str, start_ts: u16, end_ts: u16) -> (r: Result<Vec<u32>, StoreError>)
        ensures
            ({
                let (lo, hi) = bounds_of(KeyOrder::Reverse, prefix.spec_bytes(), start_ts, end_ts);
                scan_outcome(r, lo, hi)
            });
}

} // verus!
