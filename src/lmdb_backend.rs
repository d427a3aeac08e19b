//! The memory-mapped B+tree engine (LMDB) behind the store contract.
use vstd::prelude::*;
use vstd::string::StringSliceAdditionalSpecFns;
use lmdb::{Cursor, Database, Environment, RoCursor, RoTransaction, RwTransaction, Transaction, WriteFlags};
use crate::keys::{bounds_of, scan_bounds, KeyOrder};
use crate::scan::{record_views, scan_outcome, seek_range, RecordCursor};
use crate::store::{engine_name, DatabaseType, DbInterface, EngineError, StoreError};

verus! {

#[verifier::external_type_specification]
#[verifier::external_body]
pub struct ExEnvironment(lmdb::Environment);

#[verifier::external_type_specification]
#[verifier::external_body]
pub struct ExDatabase(lmdb::Database);

#[verifier::external_type_specification]
#[verifier::external_body]
pub struct ExLmdbError(lmdb::Error);

#[verifier::external_type_specification]
#[verifier::external_body]
pub struct ExRoTransaction<'env>(lmdb::RoTransaction<'env>);

#[verifier::external_type_specification]
#[verifier::external_body]
pub struct ExRwTransaction<'env>(lmdb::RwTransaction<'env>);

#[verifier::external_type_specification]
#[verifier::external_body]
pub struct ExRoCursor<'txn>(lmdb::RoCursor<'txn>);

/// LMDB's code for "no such key" (`MDB_NOTFOUND`).
pub const NOT_FOUND_CODE: i32 = -30798;

/// The cursor operation that positions at the first key at or after a key
/// (`MDB_SET_RANGE`).
pub const OP_SET_RANGE: u32 = 17;

/// The cursor operation that moves to the next key (`MDB_NEXT`).
pub const OP_NEXT: u32 = 8;

/// Relies on lmdb::Error::to_err_code: the LMDB code of an error.
#[verifier::external_body]
fn error_code(e: &lmdb::Error) -> i32 {
    e.to_err_code()
}

/// Relies on lmdb::Environment::begin_ro_txn: opens a read snapshot.
#[verifier::external_body]
fn begin_read(env: &Environment) -> Result<RoTransaction<'_>, lmdb::Error> {
    env.begin_ro_txn()
}

/// The records a write transaction has staged so far, in order; its commit
/// makes them visible together.
pub uninterp spec fn staged_writes(t: RwTransaction<'_>) -> Seq<(Seq<u8>, Seq<u8>)>;

/// Relies on lmdb::Environment::begin_rw_txn: opens a write transaction, which
/// has staged nothing yet.
#[verifier::external_body]
fn begin_write(env: &Environment) -> (r: Result<RwTransaction<'_>, lmdb::Error>)
    ensures
        r matches Ok(t) ==> staged_writes(t) == Seq::<(Seq<u8>, Seq<u8>)>::empty(),
{
    env.begin_rw_txn()
}

/// Relies on lmdb::RwTransaction::put: stages one record in the transaction.
#[verifier::external_body]
fn stage_put(txn: &mut RwTransaction<'_>, db: Database, key: &[u8], value: &[u8]) -> (r: Result<(), lmdb::Error>)
    ensures
        r is Ok ==> staged_writes(*final(txn)) == staged_writes(*old(txn)).push((key@, value@)),
{
    txn.put(db, &key, &value, WriteFlags::default())
}

/// Stages `items` in order in `txn`; stops at the first failure.
pub fn stage_all(txn: &mut RwTransaction<'_>, db: Database, items: &[(Vec<u8>, Vec<u8>)]) -> (r: Result<(), lmdb::Error>)
    ensures
        r is Ok ==> staged_writes(*final(txn)) == staged_writes(*old(txn)) + record_views(items@),
{
    let ghost start = staged_writes(*txn);
    let mut i: usize = 0;
    while i < items.len()
        invariant
            i <= items@.len(),
            staged_writes(*txn) == start + record_views(items@.subrange(0, i as int)),
        decreases items@.len() - i,
    {
        let item = &items[i];
        let staged = stage_put(txn, db, item.0.as_slice(), item.1.as_slice());
        if staged.is_err() {
            return staged;
        }
        proof {
            assert(record_views(items@.subrange(0, i + 1)) =~= record_views(items@.subrange(0, i as int)).push(
                (item.0@, item.1@),
            ));
        }
        i = i + 1;
    }
    assert(items@.subrange(0, items@.len() as int) =~= items@);
    Ok(())
}

/// Relies on lmdb::Transaction::commit: makes the staged records visible at once.
#[verifier::external_body]
fn commit(txn: RwTransaction<'_>) -> Result<(), lmdb::Error> {
    txn.commit()
}

/// Relies on lmdb::Transaction::get: the value stored under a key in a snapshot.
#[verifier::external_body]
fn read_value(txn: &RoTransaction<'_>, db: Database, key: &[u8]) -> Result<Vec<u8>, lmdb::Error> {
    txn.get(db, &key).map(|v| v.to_vec())
}

/// Relies on lmdb::Transaction::open_ro_cursor: a cursor over a snapshot.
#[verifier::external_body]
fn open_cursor<'txn>(txn: &'txn RoTransaction<'_>, db: Database) -> Result<RoCursor<'txn>, lmdb::Error> {
    txn.open_ro_cursor(db)
}

/// Relies on lmdb::Cursor::get: moves the cursor by `op` and hands back the
/// record it then stands on.
#[verifier::external_body]
fn cursor_get(cursor: &RoCursor<'_>, key: Option<&[u8]>, op: u32) -> Result<(Option<Vec<u8>>, Vec<u8>), lmdb::Error> {
    cursor.get(key, None, op).map(|(k, v)| (k.map(|k| k.to_vec()), v.to_vec()))
}

/// Relies on lmdb::Environment::sync: flushes the data buffers to disk.
#[verifier::external_body]
fn flush(env: &Environment) -> Result<(), lmdb::Error> {
    env.sync(true)
}

/// The engine error of an LMDB error.
fn engine_error(e: &lmdb::Error) -> (r: StoreError)
    ensures
        r is Engine,
{
    StoreError::Engine(EngineError::Lmdb(error_code(e)))
}

/// What a point lookup that ended with `raw` (a value, or an LMDB error code)
/// returns: the "no such key" code is an absent value, any other code an
/// engine error.
pub fn classify_get(raw: Result<Vec<u8>, i32>) -> (r: Result<Option<Vec<u8>>, StoreError>)
    ensures
        match raw {
            Ok(v) => r == Ok::<Option<Vec<u8>>, StoreError>(Some(v)),
            Err(c) => if c == NOT_FOUND_CODE {
                r == Ok::<Option<Vec<u8>>, StoreError>(None)
            } else {
                r == Err::<Option<Vec<u8>>, StoreError>(StoreError::Engine(EngineError::Lmdb(c)))
            },
        },
{
    match raw {
        Ok(v) => Ok(Some(v)),
        Err(c) => if c == NOT_FOUND_CODE {
            Ok(None)
        } else {
            Err(StoreError::Engine(EngineError::Lmdb(c)))
        },
    }
}

/// What one cursor move that ended with `raw` (a record, or an LMDB error
/// code) gives a scan: the "no such key" code is the end of the records.
pub fn classify_move(raw: Result<(Option<Vec<u8>>, Vec<u8>), i32>) -> (r: Option<Result<(Vec<u8>, Vec<u8>), EngineError>>)
    ensures
        match raw {
            Ok((Some(k), v)) => r == Some(Ok::<(Vec<u8>, Vec<u8>), EngineError>((k, v))),
            Ok((None, _)) => r is None,
            Err(c) => if c == NOT_FOUND_CODE {
                r is None
            } else {
                r == Some(Err::<(Vec<u8>, Vec<u8>), EngineError>(EngineError::Lmdb(c)))
            },
        },
{
    match raw {
        Ok((Some(k), v)) => Some(Ok((k, v))),
        Ok((None, _)) => None,
        Err(c) => if c == NOT_FOUND_CODE {
            None
        } else {
            Some(Err(EngineError::Lmdb(c)))
        },
    }
}

/// A forward cursor over an LMDB snapshot, starting at the first key at or
/// after `start`. It moves the raw LMDB cursor itself rather than through
/// lmdb's `Iter`: `iter_from` unwraps the "not found" of a start beyond the
/// last key, and `Iter::next` treats any other failure as the end.
pub struct LmdbCursor<'txn> {
    cursor: RoCursor<'txn>,
    start: Vec<u8>,
    positioned: bool,
    seen: Ghost<Seq<(Seq<u8>, Seq<u8>)>>,
    ended: Ghost<bool>,
    failed: Ghost<Option<EngineError>>,
}

impl<'txn> RecordCursor for LmdbCursor<'txn> {
    closed spec fn yielded(&self) -> Seq<(Seq<u8>, Seq<u8>)> {
        self.seen@
    }

    closed spec fn exhausted(&self) -> bool {
        self.ended@
    }

    closed spec fn fault(&self) -> Option<EngineError> {
        self.failed@
    }

    fn next_record(&mut self) -> (r: Option<Result<(Vec<u8>, Vec<u8>), EngineError>>) {
        let moved = if self.positioned {
            cursor_get(&self.cursor, None, OP_NEXT)
        } else {
            self.positioned = true;
            cursor_get(&self.cursor, Some(self.start.as_slice()), OP_SET_RANGE)
        };
        let raw = match moved {
            Ok(rec) => Ok(rec),
            Err(e) => Err(error_code(&e)),
        };
        let r = classify_move(raw);
        match &r {
            Some(Ok(rec)) => {
                self.seen = Ghost(self.seen@.push((rec.0@, rec.1@)));
            },
            Some(Err(e)) => {
                self.failed = Ghost(Some(*e));
            },
            None => {
                self.ended = Ghost(true);
            },
        }
        r
    }
}

/// A store on an LMDB environment and one of its databases.
pub struct LmdbWrapper {
    env: Environment,
    db: Database,
}

impl LmdbWrapper {
    /// A store on `db` of the open environment `env`.
    pub fn new(env: Environment, db: Database) -> (r: LmdbWrapper) {
        LmdbWrapper { env, db }
    }
}

impl DbInterface for LmdbWrapper {
    open spec fn engine(&self) -> DatabaseType {
        DatabaseType::LMDB
    }

    fn db_type(&self) -> (r: String) {
        let r = String::from_str("lmdb");
        proof {
            reveal_strlit("lmdb");
        }
        r
    }

    fn put(&self, key: &[u8], value: &[u8]) -> (r: Result<(), StoreError>) {
        let mut txn = match begin_write(&self.env) {
            Ok(t) => t,
            Err(e) => return Err(engine_error(&e)),
        };
        if let Err(e) = stage_put(&mut txn, self.db, key, value) {
            return Err(engine_error(&e));
        }
        assert(staged_writes(txn) =~= seq![(key@, value@)]);
        match commit(txn) {
            Ok(()) => Ok(()),
            Err(e) => Err(engine_error(&e)),
        }
    }

    fn get(&self, key: &[u8]) -> (r: Result<Option<Vec<u8>>, StoreError>) {
        let txn = match begin_read(&self.env) {
            Ok(t) => t,
            Err(e) => return Err(engine_error(&e)),
        };
        let raw = match read_value(&txn, self.db, key) {
            Ok(v) => Ok(v),
            Err(e) => Err(error_code(&e)),
        };
        classify_get(raw)
    }

    fn batch_put(&self, items: &[(Vec<u8>, Vec<u8>)]) -> (r: Result<(), StoreError>) {
        let mut txn = match begin_write(&self.env) {
            Ok(t) => t,
            Err(e) => return Err(engine_error(&e)),
        };
        // a failed stage drops the transaction, which aborts it: nothing of
        // the batch becomes visible
        if let Err(e) = stage_all(&mut txn, self.db, items) {
            return Err(engine_error(&e));
        }
        assert(staged_writes(txn) =~= record_views(items@));
        match commit(txn) {
            Ok(()) => Ok(()),
            Err(e) => Err(engine_error(&e)),
        }
    }

    fn close(&self) -> (r: Result<(), StoreError>) {
        match flush(&self.env) {
            Ok(()) => Ok(()),
            Err(e) => Err(engine_error(&e)),
        }
    }

    fn prefix_seek(&self, prefix: &str, start_ts: u16, end_ts: u16) -> (r: Result<Vec<u32>, StoreError>) {
        let (lower, upper) = scan_bounds(prefix, start_ts, end_ts, KeyOrder::Reverse);
        let txn = match begin_read(&self.env) {
            Ok(t) => t,
            Err(e) => return Err(engine_error(&e)),
        };
        let cursor = match open_cursor(&txn, self.db) {
            Ok(c) => c,
            Err(e) => return Err(engine_error(&e)),
        };
        let mut records = LmdbCursor {
            cursor,
            start: lower.clone(),
            positioned: false,
            seen: Ghost(Seq::empty()),
            ended: Ghost(false),
            failed: Ghost(None),
        };
        seek_range(&mut records, lower.as_slice(), upper.as_slice())
    }
}

} // verus!
