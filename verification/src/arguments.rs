//! The rule that the partition and element counts of a run must meet.

use crate::error::{ArgumentFault, MapReduceError};
use vstd::prelude::*;

verus! {

/// The rule that `num_partitions` and `num_elements` break, if any: at least
/// one partition is needed, and no more partitions than elements.
pub open spec fn argument_fault(num_partitions: int, num_elements: int) -> Option<ArgumentFault> {
    if num_partitions < 1 {
        Some(ArgumentFault::NoPartitions)
    } else if num_elements < num_partitions {
        Some(ArgumentFault::TooFewElements)
    } else {
        None
    }
}

/// Whether a run may split `num_elements` elements into `num_partitions`
/// partitions.
pub open spec fn valid_arguments(num_partitions: int, num_elements: int) -> bool {
    1 <= num_partitions <= num_elements
}

/// Checks the counts of a run before any work is done.
///
/// Succeeds exactly when there is at least one partition and at least as many
/// elements as partitions; otherwise names the rule that is broken, the
/// missing partition first.
pub fn validate_arguments(num_partitions: usize, num_elements: usize) -> (result: Result<
    (),
    MapReduceError,
>)
    ensures
        result is Ok <==> valid_arguments(num_partitions as int, num_elements as int),
        result == match argument_fault(num_partitions as int, num_elements as int) {
            Some(fault) => Err::<(), MapReduceError>(MapReduceError::InvalidArgument(fault)),
            None => Ok(()),
        },
{
    if num_partitions < 1 {
        Err(MapReduceError::InvalidArgument(ArgumentFault::NoPartitions))
    } else if num_elements < num_partitions {
        Err(MapReduceError::InvalidArgument(ArgumentFault::TooFewElements))
    } else {
        Ok(())
    }
}

} // verus!
