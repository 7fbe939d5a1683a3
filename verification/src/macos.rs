//! Snapshot and delta reduction for the macOS-like counter source.
//!
//! The source is a processor-load query that returns a flat array of
//! per-processor load buckets: four cumulative sub-counters for every
//! logical processor, in the fixed order user, system, idle, nice.
//! [`from_cpu_loads`] sums each sub-counter across all processors into
//! one system-wide [`State`].

use vstd::prelude::*;

use crate::errors::ReduceError;
use crate::errors::SourceError;

verus! {

/// One system-wide reading of the four cumulative load-bucket counters,
/// summed over all logical processors, in kernel load-bucket units.
#[derive(Clone, Copy, Debug, PartialEq, Eq, Structural)]
pub struct State {
    pub user: u64,
    pub system: u64,
    pub idle: u64,
    pub nice: u64,
}

/// The sum of the load bucket at offset `off` over the first `upto`
/// processors of the flat array `info`.
pub open spec fn bucket_sum(info: Seq<u64>, off: int, upto: int) -> int
    decreases upto,
{
    if upto <= 0 {
        0
    } else {
        bucket_sum(info, off, upto - 1) + info[(upto - 1) * 4 + off]
    }
}

/// Whether the flat array has a whole number of four-bucket chunks and
/// every per-bucket sum fits in 64 bits.
pub open spec fn good_loads(info: Seq<u64>) -> bool {
    &&& info.len() % 4 == 0
    &&& bucket_sum(info, 0, info.len() as int / 4) <= u64::MAX
    &&& bucket_sum(info, 1, info.len() as int / 4) <= u64::MAX
    &&& bucket_sum(info, 2, info.len() as int / 4) <= u64::MAX
    &&& bucket_sum(info, 3, info.len() as int / 4) <= u64::MAX
}

/// Sums the per-processor load buckets of the flat array into one
/// system-wide snapshot.
///
/// The array must hold four buckets per processor in the order user,
/// system, idle, nice; it is malformed if its length is not a multiple
/// of four or if a bucket sum exceeds 64 bits, and then no partial
/// snapshot is returned.
pub fn from_cpu_loads(info: &Vec<u64>) -> (r: Result<State, SourceError>)
    ensures
        match r {
            Ok(st) => good_loads(info@) && st.user == bucket_sum(info@, 0, info@.len() as int / 4)
                && st.system == bucket_sum(info@, 1, info@.len() as int / 4) && st.idle
                == bucket_sum(info@, 2, info@.len() as int / 4) && st.nice == bucket_sum(
                info@,
                3,
                info@.len() as int / 4,
            ),
            Err(e) => e == SourceError::MalformedData && !good_loads(info@),
        },
{
    let n = info.len();
    if n % 4 != 0 {
        return Err(SourceError::MalformedData);
    }
    let nproc = n / 4;
    proof {
        assert(4 * nproc == n);
    }
    let mut user: u128 = 0;
    let mut system: u128 = 0;
    let mut idle: u128 = 0;
    let mut nice: u128 = 0;
    let mut k: usize = 0;
    while k < nproc
        invariant
            k <= nproc,
            n == info@.len(),
            4 * nproc == n,
            user == bucket_sum(info@, 0, k as int),
            system == bucket_sum(info@, 1, k as int),
            idle == bucket_sum(info@, 2, k as int),
            nice == bucket_sum(info@, 3, k as int),
            user <= k * (u64::MAX as int),
            system <= k * (u64::MAX as int),
            idle <= k * (u64::MAX as int),
            nice <= k * (u64::MAX as int),
        decreases nproc - k,
    {
        let base = 4 * k;
        proof {
            assert(user + info@[base as int] <= (k + 1) * (u64::MAX as int)) by (nonlinear_arith)
                requires
                    user <= k * (u64::MAX as int),
                    info@[base as int] <= u64::MAX,
                    k >= 0,
            ;
            assert(system + info@[base + 1] <= (k + 1) * (u64::MAX as int)) by (nonlinear_arith)
                requires
                    system <= k * (u64::MAX as int),
                    info@[base + 1] <= u64::MAX,
                    k >= 0,
            ;
            assert(idle + info@[base + 2] <= (k + 1) * (u64::MAX as int)) by (nonlinear_arith)
                requires
                    idle <= k * (u64::MAX as int),
                    info@[base + 2] <= u64::MAX,
                    k >= 0,
            ;
            assert(nice + info@[base + 3] <= (k + 1) * (u64::MAX as int)) by (nonlinear_arith)
                requires
                    nice <= k * (u64::MAX as int),
                    info@[base + 3] <= u64::MAX,
                    k >= 0,
            ;
            assert((k + 1) * (u64::MAX as int) < u128::MAX) by (nonlinear_arith)
                requires
                    k + 1 <= 0x1_0000_0000_0000_0000,
            ;
        }
        user = user + info[base] as u128;
        system = system + info[base + 1] as u128;
        idle = idle + info[base + 2] as u128;
        nice = nice + info[base + 3] as u128;
        k = k + 1;
    }
    if user > u64::MAX as u128 || system > u64::MAX as u128 || idle > u64::MAX as u128 || nice
        > u64::MAX as u128 {
        return Err(SourceError::MalformedData);
    }
    Ok(
        State {
            user: user as u64,
            system: system as u64,
            idle: idle as u64,
            nice: nice as u64,
        },
    )
}

/// Whether no cumulative counter decreased from `prev` to `next`.
pub open spec fn no_regression(prev: State, next: State) -> bool {
    &&& prev.user <= next.user
    &&& prev.system <= next.system
    &&& prev.idle <= next.idle
    &&& prev.nice <= next.nice
}

/// The load-bucket units elapsed over all four states from `prev` to
/// `next`.
pub open spec fn spec_total(prev: State, next: State) -> int {
    (next.user - prev.user) + (next.system - prev.system) + (next.idle - prev.idle) + (next.nice
        - prev.nice)
}

/// The per-state elapsed amounts of one interval, and their sum.  The
/// idle fraction of the interval is `idle / total`; the share of any
/// other state is its delta over `total`.
#[derive(Clone, Copy, Debug, PartialEq, Eq, Structural)]
pub struct Delta {
    pub user: u64,
    pub system: u64,
    pub idle: u64,
    pub nice: u64,
    pub total: u128,
}

/// What reducing two snapshots yields: a regression error if any counter
/// decreased, a degenerate-interval error if no time elapsed at all, and
/// otherwise the exact per-state deltas with their sum.
pub open spec fn spec_reduce(prev: State, next: State) -> Result<Delta, ReduceError> {
    if !no_regression(prev, next) {
        Err(ReduceError::CounterRegression)
    } else if spec_total(prev, next) == 0 {
        Err(ReduceError::DegenerateInterval)
    } else {
        Ok(
            Delta {
                user: (next.user - prev.user) as u64,
                system: (next.system - prev.system) as u64,
                idle: (next.idle - prev.idle) as u64,
                nice: (next.nice - prev.nice) as u64,
                total: spec_total(prev, next) as u128,
            },
        )
    }
}

/// Reduces an (older, newer) pair of snapshots to the elapsed amounts of
/// the interval between them.
pub fn reduce(prev: &State, next: &State) -> (r: Result<Delta, ReduceError>)
    ensures
        r == spec_reduce(*prev, *next),
{
    if next.user < prev.user || next.system < prev.system || next.idle < prev.idle || next.nice
        < prev.nice {
        return Err(ReduceError::CounterRegression);
    }
    let user = next.user - prev.user;
    let system = next.system - prev.system;
    let idle = next.idle - prev.idle;
    let nice = next.nice - prev.nice;
    let total: u128 = user as u128 + system as u128 + idle as u128 + nice as u128;
    if total == 0 {
        return Err(ReduceError::DegenerateInterval);
    }
    Ok(Delta { user, system, idle, nice, total })
}

/// For any interval in which no counter regressed and some time elapsed,
/// the reduction succeeds, the idle share is at most the whole, and the
/// per-state deltas partition the total exactly: every state fraction
/// lies in [0, 1] and the fractions sum to one.
pub proof fn lemma_fraction_bounds(prev: State, next: State)
    requires
        no_regression(prev, next),
        spec_total(prev, next) > 0,
    ensures
        spec_reduce(prev, next) is Ok,
        spec_reduce(prev, next)->Ok_0.idle <= spec_reduce(prev, next)->Ok_0.total,
        spec_reduce(prev, next)->Ok_0.user + spec_reduce(prev, next)->Ok_0.system + spec_reduce(
            prev,
            next,
        )->Ok_0.idle + spec_reduce(prev, next)->Ok_0.nice == spec_reduce(prev, next)->Ok_0.total,
{
}

/// Reducing a snapshot against itself is a zero-length interval: every
/// delta is zero, and the cycle is reported as holding no data rather
/// than dividing by zero.
pub proof fn lemma_zero_interval(s: State)
    ensures
        spec_reduce(s, s) == Err::<Delta, ReduceError>(ReduceError::DegenerateInterval),
{
}

/// If any cumulative counter decreased between the two snapshots, the
/// cycle is classified as a counter regression, never as a valid
/// non-negative delta.
pub proof fn lemma_counter_regression(prev: State, next: State)
    requires
        next.user < prev.user || next.system < prev.system || next.idle < prev.idle || next.nice
            < prev.nice,
    ensures
        spec_reduce(prev, next) == Err::<Delta, ReduceError>(ReduceError::CounterRegression),
{
}

/// An all-idle interval — the idle counter advanced, every other counter
/// stood still — reduces to an idle share equal to the whole interval:
/// the idle fraction is exactly one.
pub proof fn lemma_all_idle(prev: State, next: State)
    requires
        next.idle > prev.idle,
        next.user == prev.user,
        next.system == prev.system,
        next.nice == prev.nice,
    ensures
        spec_reduce(prev, next) is Ok,
        spec_reduce(prev, next)->Ok_0.idle as int == spec_reduce(prev, next)->Ok_0.total as int,
{
}

} // verus!
