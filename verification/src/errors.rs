//! Error taxonomy for obtaining and reducing counter snapshots.

use vstd::prelude::*;

verus! {

/// Why a counter snapshot could not be obtained from its source.
#[derive(Clone, Copy, Debug, PartialEq, Eq, Structural)]
pub enum SourceError {
    /// The counter source could not be opened or queried at all.
    SourceUnavailable,
    /// The counter source produced text or values that do not follow its
    /// documented format; no partial snapshot is ever returned.
    MalformedData,
}

/// Why a pair of snapshots could not be reduced to an idle fraction.
#[derive(Clone, Copy, Debug, PartialEq, Eq, Structural)]
pub enum ReduceError {
    /// A cumulative counter decreased between the older and the newer
    /// snapshot (counter reset or overflow); the deltas would be
    /// meaningless.
    CounterRegression,
    /// No time elapsed in any counted state between the two snapshots, so
    /// the idle ratio is undefined.
    DegenerateInterval,
}

} // verus!
