//! The map step over a whole set of partitions, and the join of the workers
//! that a concurrent run hands the partitions to.
//!
//! A concurrent runner starts one worker per partition, gives each a copy of
//! its partition to sum with [`map_data`], waits for all of them, and passes
//! what they delivered, in partition order, to [`collect_results`]. What it
//! then holds is what [`map_partitions`] computes on the calling thread.

use crate::error::MapReduceError;
use crate::partition::contents;
use crate::summation::{map_data, wrapping_total};
use vstd::prelude::*;

verus! {

/// The partial sums of `parts`: one per partition, in partition order.
pub open spec fn partial_sums(parts: Seq<Seq<usize>>) -> Seq<usize> {
    Seq::new(parts.len(), |i: int| wrapping_total(parts[i]))
}

/// Whether every worker delivered a sum.
pub open spec fn all_delivered(outcomes: Seq<Option<usize>>) -> bool {
    forall|i: int| 0 <= i < outcomes.len() ==> (#[trigger] outcomes[i]) is Some
}

/// The sums that the workers delivered, in worker order.
pub open spec fn delivered(outcomes: Seq<Option<usize>>) -> Seq<usize> {
    Seq::new(outcomes.len(), |i: int| outcomes[i]->0)
}

/// Applies the map step to every partition in turn: entry `i` of the result
/// is the sum of partition `i`.
pub fn map_partitions(partitions: &Vec<Vec<usize>>) -> (sums: Vec<usize>)
    ensures
        sums@ == partial_sums(contents(partitions@)),
{
    let mut sums: Vec<usize> = Vec::new();
    let mut i: usize = 0;
    while i < partitions.len()
        invariant
            i <= partitions.len(),
            sums@ == partial_sums(contents(partitions@).take(i as int)),
        decreases partitions.len() - i,
    {
        let sum: usize = map_data(&partitions[i]);
        sums.push(sum);
        i += 1;
        assert(sums@ =~= partial_sums(contents(partitions@).take(i as int)));
    }
    assert(contents(partitions@).take(partitions.len() as int) =~= contents(partitions@));
    sums
}

/// Assembles the intermediate results once every worker has been waited for.
///
/// `outcomes[i]` is what the worker of partition `i` delivered, or `None` if
/// that worker ended abnormally. If all workers delivered, the result holds
/// their sums in partition order, whatever the order in which they finished.
/// If any worker failed, the map step fails as a whole with
/// [`MapReduceError::WorkerFailure`] and yields no sums.
pub fn collect_results(outcomes: &Vec<Option<usize>>) -> (result: Result<
    Vec<usize>,
    MapReduceError,
>)
    ensures
        result is Ok <==> all_delivered(outcomes@),
        result matches Ok(sums) ==> sums@ == delivered(outcomes@),
        result matches Err(e) ==> e == MapReduceError::WorkerFailure,
{
    let mut sums: Vec<usize> = Vec::new();
    let mut i: usize = 0;
    while i < outcomes.len()
        invariant
            i <= outcomes.len(),
            all_delivered(outcomes@.take(i as int)),
            sums@ == delivered(outcomes@.take(i as int)),
        decreases outcomes.len() - i,
    {
        match outcomes[i] {
            Some(sum) => {
                sums.push(sum);
            },
            None => {
                return Err(MapReduceError::WorkerFailure);
            },
        }
        i += 1;
        assert(sums@ =~= delivered(outcomes@.take(i as int)));
    }
    assert(outcomes@.take(outcomes.len() as int) =~= outcomes@);
    Ok(sums)
}

} // verus!
