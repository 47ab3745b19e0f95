//! The ways in which a run can fail.

use vstd::prelude::*;

verus! {

/// Which rule a pair of partition and element counts breaks.
#[derive(Debug, Clone, Copy, PartialEq, Eq, Structural)]
pub enum ArgumentFault {
    /// No partition was asked for.
    NoPartitions,
    /// There are fewer elements than partitions.
    TooFewElements,
}

/// Why a run produced no result.
#[derive(Debug, Clone, Copy, PartialEq, Eq, Structural)]
pub enum MapReduceError {
    /// The partition and element counts do not allow a run.
    InvalidArgument(ArgumentFault),
    /// A worker ended abnormally, so the map step has no result.
    WorkerFailure,
}

} // verus!
