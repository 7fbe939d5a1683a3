//! Cross-platform CPU idle-time sampling core.
//!
//! The library models cumulative per-state CPU time counters as plain
//! integer snapshots, one snapshot shape per platform family, and reduces
//! a pair of snapshots taken at two instants to per-state elapsed amounts
//! and an idle ratio.  Reading the counters from the operating system, and
//! turning the integer ratio into a displayed percentage, are left to the
//! caller; everything here is pure computation with verified contracts.

use vstd::prelude::*;

pub mod errors;
pub mod linux;
pub mod macos;
pub mod text;
pub mod windows;

verus! {

} // verus!
