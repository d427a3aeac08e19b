//! Range scans: a forward cursor over ordered records, cut to the records whose
//! key lies between two bounds, their values decoded and concatenated.
use vstd::prelude::*;
use crate::codec::{decode_embedding, decode_result, decoded, CodecError};
use crate::keys::{
    bounds_of, key_le, key_of, lemma_key_in_bounds, lemma_lex_asym, lemma_lex_total,
    lemma_lex_trans, lex_le, lex_lt, KeyOrder,
};
use crate::store::{EngineError, StoreError};

verus! {

/// Where a scan stands after some records.
pub enum ScanStatus {
    /// Still reading; the values gathered so far.
    Running(Seq<u32>),
    /// A key beyond the upper bound was met; the values gathered.
    Done(Seq<u32>),
    /// A record in range held a malformed value.
    Failed(CodecError),
}

/// One record read by a scan that is still running with `acc` gathered.
pub open spec fn step_status(acc: Seq<u32>, key: Seq<u8>, value: Seq<u8>, lo: Seq<u8>, hi: Seq<u8>) -> ScanStatus {
    if lex_lt(hi, key) {
        ScanStatus::Done(acc)
    } else if lex_lt(key, lo) {
        ScanStatus::Running(acc)
    } else {
        match decode_result(value) {
            Ok(d) => ScanStatus::Running(acc + d),
            Err(e) => ScanStatus::Failed(e),
        }
    }
}

/// The status of a scan after the first `n` records of `recs`.
pub open spec fn scan_upto(recs: Seq<(Seq<u8>, Seq<u8>)>, lo: Seq<u8>, hi: Seq<u8>, n: nat) -> ScanStatus
    decreases n,
{
    if n == 0 {
        ScanStatus::Running(Seq::empty())
    } else {
        match scan_upto(recs, lo, hi, (n - 1) as nat) {
            ScanStatus::Running(acc) => step_status(acc, recs[n - 1].0, recs[n - 1].1, lo, hi),
            other => other,
        }
    }
}

/// The outcome of scanning `recs` between `lo` and `hi`: the concatenated
/// values of the records in range met before the first key beyond `hi`, or
/// the error of the first malformed one.
pub open spec fn scan_result(recs: Seq<(Seq<u8>, Seq<u8>)>, lo: Seq<u8>, hi: Seq<u8>) -> Result<Seq<u32>, CodecError> {
    match scan_upto(recs, lo, hi, recs.len()) {
        ScanStatus::Running(acc) => Ok(acc),
        ScanStatus::Done(acc) => Ok(acc),
        ScanStatus::Failed(e) => Err(e),
    }
}

/// The records of a slice, as byte strings.
pub open spec fn record_views(recs: Seq<(Vec<u8>, Vec<u8>)>) -> Seq<(Seq<u8>, Seq<u8>)> {
    Seq::new(recs.len(), |i: int| (recs[i].0@, recs[i].1@))
}

/// Records written under `prefix` at the timestamps `stamps` with `values`.
pub open spec fn records_at(order: KeyOrder, prefix: Seq<u8>, stamps: Seq<u16>, values: Seq<Seq<u8>>) -> Seq<(Seq<u8>, Seq<u8>)> {
    Seq::new(stamps.len(), |i: int| (key_of(order, prefix, stamps[i]), values[i]))
}

/// The concatenated values, among the first `n`, whose timestamp lies in
/// `[start_ts, end_ts]`, in order.
pub open spec fn values_within(stamps: Seq<u16>, values: Seq<Seq<u8>>, start_ts: u16, end_ts: u16, n: nat) -> Seq<u32>
    decreases n,
{
    if n == 0 {
        Seq::empty()
    } else {
        let before = values_within(stamps, values, start_ts, end_ts, (n - 1) as nat);
        if start_ts <= stamps[n - 1] <= end_ts {
            before + decoded(values[n - 1])
        } else {
            before
        }
    }
}

proof fn lemma_scan_upto_push(recs: Seq<(Seq<u8>, Seq<u8>)>, r: (Seq<u8>, Seq<u8>), lo: Seq<u8>, hi: Seq<u8>, n: nat)
    requires
        n <= recs.len(),
    ensures
        scan_upto(recs.push(r), lo, hi, n) == scan_upto(recs, lo, hi, n),
    decreases n,
{
    if n > 0 {
        lemma_scan_upto_push(recs, r, lo, hi, (n - 1) as nat);
    }
}

proof fn lemma_scan_stopped(recs: Seq<(Seq<u8>, Seq<u8>)>, lo: Seq<u8>, hi: Seq<u8>, n: nat, m: nat)
    requires
        n <= m,
        !(scan_upto(recs, lo, hi, n) is Running),
    ensures
        scan_upto(recs, lo, hi, m) == scan_upto(recs, lo, hi, n),
    decreases m - n,
{
    if n < m {
        lemma_scan_stopped(recs, lo, hi, n, (m - 1) as nat);
    }
}

/// A scan meets no record between its bounds: it returns an empty sequence,
/// not an error.
pub proof fn lemma_scan_empty_range(recs: Seq<(Seq<u8>, Seq<u8>)>, lo: Seq<u8>, hi: Seq<u8>)
    requires
        forall|i: int| 0 <= i < recs.len() ==> !(lex_le(lo, #[trigger] recs[i].0) && lex_le(recs[i].0, hi)),
    ensures
        scan_result(recs, lo, hi) == Ok::<Seq<u32>, CodecError>(Seq::empty()),
{
    lemma_scan_empty_upto(recs, lo, hi, recs.len());
}

proof fn lemma_scan_empty_upto(recs: Seq<(Seq<u8>, Seq<u8>)>, lo: Seq<u8>, hi: Seq<u8>, n: nat)
    requires
        n <= recs.len(),
        forall|i: int| 0 <= i < recs.len() ==> !(lex_le(lo, #[trigger] recs[i].0) && lex_le(recs[i].0, hi)),
    ensures
        scan_upto(recs, lo, hi, n) == ScanStatus::Running(Seq::<u32>::empty())
            || scan_upto(recs, lo, hi, n) == ScanStatus::Done(Seq::<u32>::empty()),
    decreases n,
{
    if n > 0 {
        lemma_scan_empty_upto(recs, lo, hi, (n - 1) as nat);
        let k = recs[n - 1].0;
        lemma_lex_total(hi, k);
        lemma_lex_total(k, lo);
    }
}

/// Scan completeness: over the records of `prefix`, met in ascending key order
/// as a cursor yields them, a scan between the bounds of `[start_ts, end_ts]`
/// returns the values of exactly the records whose timestamp lies in that
/// range, in key order.
pub proof fn lemma_scan_complete(
    order: KeyOrder,
    prefix: Seq<u8>,
    stamps: Seq<u16>,
    values: Seq<Seq<u8>>,
    start_ts: u16,
    end_ts: u16,
)
    requires
        stamps.len() == values.len(),
        forall|i: int, j: int|
            0 <= i < j < stamps.len() ==> lex_lt(
                #[trigger] key_of(order, prefix, stamps[i]),
                #[trigger] key_of(order, prefix, stamps[j]),
            ),
        forall|i: int| 0 <= i < values.len() ==> #[trigger] values[i].len() % 4 == 0,
    ensures
        ({
            let (lo, hi) = bounds_of(order, prefix, start_ts, end_ts);
            scan_result(records_at(order, prefix, stamps, values), lo, hi) == Ok::<
                Seq<u32>,
                CodecError,
            >(values_within(stamps, values, start_ts, end_ts, stamps.len()))
        }),
{
    lemma_scan_complete_upto(order, prefix, stamps, values, start_ts, end_ts, stamps.len());
}

proof fn lemma_scan_complete_upto(
    order: KeyOrder,
    prefix: Seq<u8>,
    stamps: Seq<u16>,
    values: Seq<Seq<u8>>,
    start_ts: u16,
    end_ts: u16,
    n: nat,
)
    requires
        n <= stamps.len(),
        stamps.len() == values.len(),
        forall|i: int, j: int|
            0 <= i < j < stamps.len() ==> lex_lt(
                #[trigger] key_of(order, prefix, stamps[i]),
                #[trigger] key_of(order, prefix, stamps[j]),
            ),
        forall|i: int| 0 <= i < values.len() ==> #[trigger] values[i].len() % 4 == 0,
    ensures
        ({
            let (lo, hi) = bounds_of(order, prefix, start_ts, end_ts);
            let recs = records_at(order, prefix, stamps, values);
            let sel = values_within(stamps, values, start_ts, end_ts, n);
            match scan_upto(recs, lo, hi, n) {
                ScanStatus::Running(acc) => acc == sel,
                ScanStatus::Done(acc) => acc == sel && n > 0 && lex_lt(
                    hi,
                    key_of(order, prefix, stamps[n - 1]),
                ),
                ScanStatus::Failed(_) => false,
            }
        }),
    decreases n,
{
    if n > 0 {
        let m = (n - 1) as nat;
        lemma_scan_complete_upto(order, prefix, stamps, values, start_ts, end_ts, m);
        let (lo, hi) = bounds_of(order, prefix, start_ts, end_ts);
        let recs = records_at(order, prefix, stamps, values);
        let k = key_of(order, prefix, stamps[m as int]);
        assert(recs[m as int].0 == k);
        assert(recs[m as int].1 == values[m as int]);
        lemma_key_in_bounds(order, prefix, stamps[m as int], start_ts, end_ts);
        match scan_upto(recs, lo, hi, m) {
            ScanStatus::Running(acc) => {
                lemma_lex_total(hi, k);
                lemma_lex_total(k, lo);
                if lex_lt(hi, k) {
                    lemma_lex_asym(hi, k);
                } else if lex_lt(k, lo) {
                    lemma_lex_asym(k, lo);
                }
            },
            ScanStatus::Done(acc) => {
                let kp = key_of(order, prefix, stamps[m - 1]);
                assert(lex_lt(kp, k));
                lemma_lex_trans(hi, kp, k);
                lemma_lex_asym(hi, k);
            },
            ScanStatus::Failed(_) => {},
        }
    }
}

/// Reads one record of a scan that has gathered `out` so far: a key beyond
/// `upper` ends the scan (`Ok(false)`), a key before `lower` is passed over,
/// and a key in range has its value decoded and appended (`Ok(true)`).
pub fn scan_step(out: &mut Vec<u32>, key: &[u8], value: &[u8], lower: &[u8], upper: &[u8]) -> (r: Result<bool, CodecError>)
    ensures
        step_status(old(out)@, key@, value@, lower@, upper@) == match r {
            Ok(true) => ScanStatus::Running(final(out)@),
            Ok(false) => ScanStatus::Done(final(out)@),
            Err(e) => ScanStatus::Failed(e),
        },
{
    if !key_le(key, upper) {
        proof {
            lemma_lex_total(key@, upper@);
        }
        return Ok(false);
    }
    if !key_le(lower, key) {
        proof {
            lemma_lex_total(key@, lower@);
            if lex_lt(upper@, key@) {
                lemma_lex_asym(upper@, key@);
            }
        }
        return Ok(true);
    }
    proof {
        if lex_lt(upper@, key@) {
            lemma_lex_asym(upper@, key@);
        }
        if lex_lt(key@, lower@) {
            lemma_lex_asym(key@, lower@);
        }
    }
    match decode_embedding(value) {
        Ok(mut d) => {
            out.append(&mut d);
            Ok(true)
        },
        Err(e) => Err(e),
    }
}

/// A forward cursor over the records of a store, in ascending key order.
pub trait RecordCursor {
    /// The records handed out so far, in order.
    spec fn yielded(&self) -> Seq<(Seq<u8>, Seq<u8>)>;

    /// Whether the cursor has reported that no record is left.
    spec fn exhausted(&self) -> bool;

    /// The engine failure the cursor reported last, if any.
    spec fn fault(&self) -> Option<EngineError>;

    /// The next record, `None` past the last one.
    fn next_record(&mut self) -> (r: Option<Result<(Vec<u8>, Vec<u8>), EngineError>>)
        ensures
            match r {
                Some(Ok(rec)) => final(self).yielded() == old(self).yielded().push((rec.0@, rec.1@)),
                Some(Err(e)) => final(self).yielded() == old(self).yielded() && final(self).fault()
                    == Some(e),
                None => final(self).yielded() == old(self).yielded() && final(self).exhausted(),
            };
}

/// A scan of `recs` has met a key beyond `hi`.
pub open spec fn scan_finished(recs: Seq<(Seq<u8>, Seq<u8>)>, lo: Seq<u8>, hi: Seq<u8>) -> bool {
    scan_upto(recs, lo, hi, recs.len()) is Done
}

/// What a scan through a cursor may return: the outcome of scanning some
/// sequence of records between the bounds, or an engine error.
pub open spec fn scan_outcome(r: Result<Vec<u32>, StoreError>, lo: Seq<u8>, hi: Seq<u8>) -> bool {
    match r {
        Ok(v) => exists|recs: Seq<(Seq<u8>, Seq<u8>)>| #[trigger] scan_result(recs, lo, hi) == Ok::<Seq<u32>, CodecError>(v@),
        Err(StoreError::Codec(e)) => exists|recs: Seq<(Seq<u8>, Seq<u8>)>| #[trigger] scan_result(recs, lo, hi) == Err::<Seq<u32>, CodecError>(e),
        Err(_) => true,
    }
}

/// The outcome of a scan that read `read` from a cursor that ended as `after`:
/// the scan of exactly those records, which end either with the cursor's end,
/// with a key beyond `hi`, with a malformed value, or with the cursor's fault.
pub open spec fn cursor_scan<C: RecordCursor>(r: Result<Vec<u32>, StoreError>, read: Seq<(Seq<u8>, Seq<u8>)>, after: C, lo: Seq<u8>, hi: Seq<u8>) -> bool {
    match r {
        Ok(v) => {
            &&& scan_result(read, lo, hi) == Ok::<Seq<u32>, CodecError>(v@)
            &&& after.exhausted() || scan_finished(read, lo, hi) || read.len() == usize::MAX
        },
        Err(StoreError::Codec(e)) => scan_result(read, lo, hi) == Err::<Seq<u32>, CodecError>(e),
        Err(StoreError::Engine(e)) => after.fault() == Some(e),
    }
}

/// Reads `cursor` forward, gathering the values of the records between
/// `lower` and `upper` until a key beyond `upper` or the end of the store
/// (a scan reads at most `usize::MAX` records).
pub fn seek_range<C: RecordCursor>(cursor: &mut C, lower: &[u8], upper: &[u8]) -> (r: Result<Vec<u32>, StoreError>)
    ensures
        final(cursor).yielded().len() >= old(cursor).yielded().len(),
        final(cursor).yielded().subrange(0, old(cursor).yielded().len() as int) == old(cursor).yielded(),
        cursor_scan(
            r,
            final(cursor).yielded().skip(old(cursor).yielded().len() as int),
            *final(cursor),
            lower@,
            upper@,
        ),
        scan_outcome(r, lower@, upper@),
{
    let ghost start = cursor.yielded();
    let ghost mut seen: Seq<(Seq<u8>, Seq<u8>)> = Seq::empty();
    let mut out: Vec<u32> = Vec::new();
    let mut read: usize = 0;
    loop
        invariant
            start == old(cursor).yielded(),
            cursor.yielded() == start + seen,
            read == seen.len(),
            scan_upto(seen, lower@, upper@, seen.len()) == ScanStatus::Running(out@),
        decreases usize::MAX - read,
    {
        proof {
            assert((start + seen).subrange(0, start.len() as int) =~= start);
            assert((start + seen).skip(start.len() as int) =~= seen);
        }
        if read == usize::MAX {
            assert(scan_result(seen, lower@, upper@) == Ok::<Seq<u32>, CodecError>(out@));
            return Ok(out);
        }
        match cursor.next_record() {
            None => {
                assert(scan_result(seen, lower@, upper@) == Ok::<Seq<u32>, CodecError>(out@));
                return Ok(out);
            },
            Some(Err(e)) => {
                return Err(StoreError::Engine(e));
            },
            Some(Ok(rec)) => {
                let ghost before = seen;
                proof {
                    seen = seen.push((rec.0@, rec.1@));
                    lemma_scan_upto_push(before, (rec.0@, rec.1@), lower@, upper@, before.len());
                    assert(start + seen =~= (start + before).push((rec.0@, rec.1@)));
                    assert((start + seen).subrange(0, start.len() as int) =~= start);
                    assert((start + seen).skip(start.len() as int) =~= seen);
                }
                read = read + 1;
                let step = scan_step(&mut out, rec.0.as_slice(), rec.1.as_slice(), lower, upper);
                match step {
                    Ok(true) => {},
                    Ok(false) => {
                        assert(scan_result(seen, lower@, upper@) == Ok::<Seq<u32>, CodecError>(out@));
                        return Ok(out);
                    },
                    Err(e) => {
                        assert(scan_result(seen, lower@, upper@) == Err::<Seq<u32>, CodecError>(e));
                        return Err(StoreError::Codec(e));
                    },
                }
            },
        }
    }
}

/// The values of the records of `records` whose key lies between `lower` and
/// `upper`, read in order up to the first key beyond `upper`, concatenated.
pub fn collect_range(records: &[(Vec<u8>, Vec<u8>)], lower: &[u8], upper: &[u8]) -> (r: Result<Vec<u32>, CodecError>)
    ensures
        match r {
            Ok(v) => scan_result(record_views(records@), lower@, upper@) == Ok::<Seq<u32>, CodecError>(v@),
            Err(e) => scan_result(record_views(records@), lower@, upper@) == Err::<Seq<u32>, CodecError>(e),
        },
{
    let ghost recs = record_views(records@);
    let mut out: Vec<u32> = Vec::new();
    let mut i: usize = 0;
    while i < records.len()
        invariant
            i <= records@.len(),
            recs == record_views(records@),
            scan_upto(recs, lower@, upper@, i as nat) == ScanStatus::Running(out@),
        decreases records@.len() - i,
    {
        let rec = &records[i];
        let step = scan_step(&mut out, rec.0.as_slice(), rec.1.as_slice(), lower, upper);
        i = i + 1;
        match step {
            Ok(true) => {},
            Ok(false) => {
                proof {
                    lemma_scan_stopped(recs, lower@, upper@, i as nat, recs.len());
                }
                return Ok(out);
            },
            Err(e) => {
                proof {
                    lemma_scan_stopped(recs, lower@, upper@, i as nat, recs.len());
                }
                return Err(e);
            },
        }
    }
    Ok(out)
}

} // verus!
