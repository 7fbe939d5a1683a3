//! Snapshot and delta reduction for the Windows-like counter source.
//!
//! The source reports three cumulative tick counts in 100-nanosecond
//! units: time spent idle, time spent in kernel mode (which includes the
//! idle time), and time spent in user mode.  Each count arrives as two
//! 32-bit halves; [`ticks_from_parts`] assembles them.

use vstd::prelude::*;

use crate::errors::ReduceError;

verus! {

/// One reading of the three cumulative system times, in 100-nanosecond
/// units.  `kernel` includes `idle`: the idle thread runs in kernel mode.
#[derive(Clone, Copy, Debug, PartialEq, Eq, Structural)]
pub struct State {
    pub idle: u64,
    pub kernel: u64,
    pub user: u64,
}

/// Assembles a 64-bit tick count from the two 32-bit halves in which the
/// system reports it.
pub fn ticks_from_parts(lo: u32, hi: u32) -> (r: u64)
    ensures
        r == (hi as int) * 0x1_0000_0000 + (lo as int),
{
    let lo64: u64 = lo as u64;
    let hi64: u64 = hi as u64;
    assert(((hi64 << 32u64) | lo64) == hi64 * 0x1_0000_0000 + lo64) by (bit_vector)
        requires
            hi64 < 0x1_0000_0000,
            lo64 < 0x1_0000_0000,
    ;
    (hi64 << 32u64) | lo64
}

/// Whether no cumulative counter decreased from `prev` to `next`, and
/// the idle time did not advance past the kernel time that contains it.
pub open spec fn no_regression(prev: State, next: State) -> bool {
    &&& prev.idle <= next.idle
    &&& prev.kernel <= next.kernel
    &&& prev.user <= next.user
    &&& next.idle - prev.idle <= next.kernel - prev.kernel
}

/// The 100-nanosecond units elapsed in the interval: user time plus
/// kernel time.  Kernel time already includes idle time, so idle is not
/// added again.
pub open spec fn spec_total(prev: State, next: State) -> int {
    (next.user - prev.user) + (next.kernel - prev.kernel)
}

/// The per-state elapsed amounts of one interval, and their sum.  The
/// `kernel` delta includes the `idle` delta; the non-idle states of the
/// interval are user time and `kernel - idle`.  The idle fraction of
/// the interval is `idle / total`.
#[derive(Clone, Copy, Debug, PartialEq, Eq, Structural)]
pub struct Delta {
    pub idle: u64,
    pub kernel: u64,
    pub user: u64,
    pub total: u128,
}

/// What reducing two snapshots yields: a regression error if any counter
/// decreased (or the idle delta outran the kernel delta that contains
/// it), a degenerate-interval error if no time elapsed at all, and
/// otherwise the exact deltas with their sum.
pub open spec fn spec_reduce(prev: State, next: State) -> Result<Delta, ReduceError> {
    if !no_regression(prev, next) {
        Err(ReduceError::CounterRegression)
    } else if spec_total(prev, next) == 0 {
        Err(ReduceError::DegenerateInterval)
    } else {
        Ok(
            Delta {
                idle: (next.idle - prev.idle) as u64,
                kernel: (next.kernel - prev.kernel) as u64,
                user: (next.user - prev.user) as u64,
                total: spec_total(prev, next) as u128,
            },
        )
    }
}

/// Reduces an (older, newer) pair of snapshots to the elapsed amounts of
/// the interval between them.
pub fn reduce(prev: &State, next: &State) -> (r: Result<Delta, ReduceError>)
    ensures
        r == spec_reduce(*prev, *next),
{
    if next.idle < prev.idle || next.kernel < prev.kernel || next.user < prev.user {
        return Err(ReduceError::CounterRegression);
    }
    let idle = next.idle - prev.idle;
    let kernel = next.kernel - prev.kernel;
    let user = next.user - prev.user;
    if idle > kernel {
        return Err(ReduceError::CounterRegression);
    }
    let total: u128 = user as u128 + kernel as u128;
    if total == 0 {
        return Err(ReduceError::DegenerateInterval);
    }
    Ok(Delta { idle, kernel, user, total })
}

/// For any interval in which no counter regressed and some time elapsed,
/// the reduction succeeds, the idle share is at most the whole, and the
/// states partition the total exactly: user time, non-idle kernel time
/// and idle time sum to the whole interval, so every state fraction lies
/// in [0, 1] and the fractions sum to one.
pub proof fn lemma_fraction_bounds(prev: State, next: State)
    requires
        no_regression(prev, next),
        spec_total(prev, next) > 0,
    ensures
        spec_reduce(prev, next) is Ok,
        spec_reduce(prev, next)->Ok_0.idle <= spec_reduce(prev, next)->Ok_0.total,
        spec_reduce(prev, next)->Ok_0.user + (spec_reduce(prev, next)->Ok_0.kernel - spec_reduce(
            prev,
            next,
        )->Ok_0.idle) + spec_reduce(prev, next)->Ok_0.idle == spec_reduce(prev, next)->Ok_0.total,
{
}

/// Reducing a snapshot against itself is a zero-length interval: every
/// delta is zero, and the cycle is reported as holding no data rather
/// than dividing by zero.
pub proof fn lemma_zero_interval(s: State)
    ensures
        spec_reduce(s, s) == Err::<Delta, ReduceError>(ReduceError::DegenerateInterval),
{
}

/// If any cumulative counter decreased between the two snapshots, the
/// cycle is classified as a counter regression, never as a valid
/// non-negative delta.
pub proof fn lemma_counter_regression(prev: State, next: State)
    requires
        next.idle < prev.idle || next.kernel < prev.kernel || next.user < prev.user,
    ensures
        spec_reduce(prev, next) == Err::<Delta, ReduceError>(ReduceError::CounterRegression),
{
}

/// An all-idle interval — the idle and kernel counters advanced in step,
/// the user counter stood still — reduces to an idle share equal to the
/// whole interval: the idle fraction is exactly one.
pub proof fn lemma_all_idle(prev: State, next: State)
    requires
        next.idle > prev.idle,
        next.kernel - prev.kernel == next.idle - prev.idle,
        next.user == prev.user,
    ensures
        spec_reduce(prev, next) is Ok,
        spec_reduce(prev, next)->Ok_0.idle as int == spec_reduce(prev, next)->Ok_0.total as int,
{
}

} // verus!
