//! The latency histogram of a benchmark run: microsecond values counted in
//! log-linear buckets, from one microsecond to about a second.
use vstd::prelude::*;
use vstd::arithmetic::power2::{lemma2_to64, pow2};
use vstd::pervasive::unreached;
use histogram::Histogram;

verus! {

#[verifier::external_type_specification]
#[verifier::external_body]
pub struct ExHistogram(histogram::Histogram);

#[verifier::external_type_specification]
#[verifier::external_body]
pub struct ExHistogramError(histogram::Error);

/// The largest value a histogram can count, fixed when it is made.
pub uninterp spec fn histogram_limit(h: Histogram) -> u64;

/// The bucket counters of a histogram.
pub uninterp spec fn histogram_counts(h: Histogram) -> Seq<u64>;

/// A counter after one more count: it wraps past `u64::MAX`.
pub open spec fn bumped(c: u64) -> u64 {
    if c == u64::MAX {
        0
    } else {
        (c + 1) as u64
    }
}

/// `after` is `before` with exactly one counter bumped.
pub open spec fn one_more(before: Seq<u64>, after: Seq<u64>) -> bool {
    exists|i: int| 0 <= i < before.len() && after == #[trigger] before.update(i, bumped(before[i]))
}

/// Each power of two is split into `2^GROUPING_POWER` buckets.
pub const GROUPING_POWER: u8 = 10;

/// Values below `2^MAX_VALUE_POWER` are counted.
pub const MAX_VALUE_POWER: u8 = 20;

/// The largest latency, in microseconds, that the histogram counts.
pub const MAX_LATENCY_MICROS: u64 = 1048575;

/// Relies on histogram::Histogram::new (through Config::new): for a grouping
/// power of at most 20 it fails only when the grouping power is not below the
/// max value power or the latter exceeds 64; the histogram then counts values
/// up to `2^max_value_power - 1`, and all its counters start at zero.
#[verifier::external_body]
fn new_histogram(grouping_power: u8, max_value_power: u8) -> (r: Result<Histogram, histogram::Error>)
    requires
        grouping_power <= 20,
    ensures
        grouping_power < max_value_power <= 64 ==> r is Ok,
        r matches Ok(h) ==> max_value_power < 64 ==> histogram_limit(h) == pow2(max_value_power as nat) - 1,
        r matches Ok(h) ==> forall|i: int| 0 <= i < histogram_counts(h).len() ==> #[trigger] histogram_counts(h)[i] == 0,
{
    Histogram::new(grouping_power, max_value_power)
}

/// Relies on histogram::Histogram::increment: adds one, wrapping, to the
/// counter of the value's bucket, and fails (counting nothing) exactly when the
/// value exceeds the histogram's limit.
#[verifier::external_body]
fn count_value(h: &mut Histogram, value: u64) -> (r: Result<(), histogram::Error>)
    ensures
        histogram_limit(*final(h)) == histogram_limit(*old(h)),
        r is Ok <==> value <= histogram_limit(*old(h)),
        r is Ok ==> one_more(histogram_counts(*old(h)), histogram_counts(*final(h))),
        r is Err ==> histogram_counts(*final(h)) == histogram_counts(*old(h)),
{
    h.increment(value)
}

/// Request latencies in microseconds.
pub struct LatencyHistogram {
    /// The counts; its percentiles are the run's latency figures.
    pub hist: Histogram,
}

impl LatencyHistogram {
    /// The largest latency this histogram counts.
    pub open spec fn limit(&self) -> u64 {
        histogram_limit(self.hist)
    }

    /// The bucket counters.
    pub open spec fn counts(&self) -> Seq<u64> {
        histogram_counts(self.hist)
    }

    /// An empty histogram for latencies up to `MAX_LATENCY_MICROS`.
    pub fn new() -> (r: LatencyHistogram)
        ensures
            r.limit() == MAX_LATENCY_MICROS,
            forall|i: int| 0 <= i < r.counts().len() ==> #[trigger] r.counts()[i] == 0,
    {
        proof {
            lemma2_to64();
        }
        match new_histogram(GROUPING_POWER, MAX_VALUE_POWER) {
            Ok(hist) => LatencyHistogram { hist },
            Err(_) => unreached(),
        }
    }

    /// Counts one latency in its bucket; a latency beyond the limit is left
    /// out and reported by `false`.
    pub fn record(&mut self, micros: u64) -> (r: bool)
        ensures
            final(self).limit() == old(self).limit(),
            r == (micros <= old(self).limit()),
            r ==> one_more(old(self).counts(), final(self).counts()),
            !r ==> final(self).counts() == old(self).counts(),
    {
        count_value(&mut self.hist, micros).is_ok()
    }
}

/// The figures of one benchmark run.
#[derive(Debug, Clone, Copy, PartialEq, Eq, Structural)]
pub struct RunReport {
    /// Completed reads per thousand seconds (reads per second, times 1000).
    pub throughput_milli: u64,
    /// Median latency in microseconds; 0 when nothing was counted.
    pub p50_micros: u64,
    /// 95th percentile latency in microseconds; 0 when nothing was counted.
    pub p95_micros: u64,
    /// 99th percentile latency in microseconds; 0 when nothing was counted.
    pub p99_micros: u64,
    /// Largest latency in microseconds; 0 when nothing was counted.
    pub max_micros: u64,
    /// Completed reads.
    pub total_operations: u64,
    /// Reads that failed with an engine error.
    pub errors: u64,
}

/// A percentile of a histogram, or 0 where the histogram is empty.
pub open spec fn or_zero(q: Option<u64>) -> u64 {
    match q {
        Some(v) => v,
        None => 0,
    }
}

/// Operations per thousand seconds over `elapsed_micros`, capped at
/// `u64::MAX`; 0 over no time.
pub open spec fn throughput_of(ops: u64, elapsed_micros: u64) -> u64 {
    if elapsed_micros == 0 {
        0
    } else {
        let t = (ops as int) * 1_000_000_000 / (elapsed_micros as int);
        if t > u64::MAX {
            u64::MAX
        } else {
            t as u64
        }
    }
}

/// The report of a run of `elapsed_micros` with the given counters and the
/// histogram's bucket ends at the 50th, 95th, 99th and 100th percentiles
/// (`None` where the histogram is empty). A run without completed reads has
/// zero throughput.
pub fn summarize(
    total_operations: u64,
    errors: u64,
    elapsed_micros: u64,
    p50: Option<u64>,
    p95: Option<u64>,
    p99: Option<u64>,
    max: Option<u64>,
) -> (r: RunReport)
    ensures
        r.throughput_milli == throughput_of(total_operations, elapsed_micros),
        total_operations == 0 ==> r.throughput_milli == 0,
        r.p50_micros == or_zero(p50),
        r.p95_micros == or_zero(p95),
        r.p99_micros == or_zero(p99),
        r.max_micros == or_zero(max),
        r.total_operations == total_operations,
        r.errors == errors,
{
    let throughput_milli: u64 = if elapsed_micros == 0 {
        0
    } else {
        assert((total_operations as u128) * 1_000_000_000u128 <= u128::MAX) by (nonlinear_arith)
            requires
                total_operations <= u64::MAX,
        ;
        let t: u128 = (total_operations as u128) * 1_000_000_000u128 / (elapsed_micros as u128);
        if t > u64::MAX as u128 {
            u64::MAX
        } else {
            t as u64
        }
    };
    let pick = |q: Option<u64>| -> (v: u64)
        ensures
            v == or_zero(q),
        {
            match q {
                Some(v) => v,
                None => 0,
            }
        };
    RunReport {
        throughput_milli,
        p50_micros: pick(p50),
        p95_micros: pick(p95),
        p99_micros: pick(p99),
        max_micros: pick(max),
        total_operations,
        errors,
    }
}

} // verus!
