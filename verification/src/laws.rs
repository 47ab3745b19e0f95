//! What holds of a whole run: of the partitions, the map step and the reduce
//! step taken together.

use crate::arguments::valid_arguments;
use crate::executor::{all_delivered, delivered, partial_sums};
use crate::partition::{fair_split, halves, lemma_fair_split_concat, lemma_halves};
use crate::summation::{lemma_total_concat, modulus, total, wrapping_total};
use vstd::arithmetic::div_mod::{lemma_add_mod_noop, lemma_add_mod_noop_right};
use vstd::prelude::*;

verus! {

/// The sum of the partial sums and the sum of the joined partitions leave the
/// same remainder.
proof fn lemma_partial_sums_congruent(parts: Seq<Seq<usize>>)
    ensures
        total(partial_sums(parts)) as int % modulus() == total(parts.flatten_alt()) as int
            % modulus(),
    decreases parts.len(),
{
    let m = modulus();
    if parts.len() == 0 {
        assert(partial_sums(parts) =~= Seq::<usize>::empty());
    } else {
        let init = parts.drop_last();
        let last = parts.last();
        lemma_partial_sums_congruent(init);
        assert(partial_sums(parts).drop_last() =~= partial_sums(init));
        assert(partial_sums(parts).last() == wrapping_total(last));
        lemma_total_concat(init.flatten_alt(), last);
        let a = total(partial_sums(init)) as int;
        let b = total(init.flatten_alt()) as int;
        let c = total(last) as int;
        assert(total(partial_sums(parts)) == a + c % m);
        assert(total(parts.flatten_alt()) == b + c);
        lemma_add_mod_noop_right(a, c, m);
        lemma_add_mod_noop(a, c, m);
        lemma_add_mod_noop(b, c, m);
    }
}

/// Reducing the partial sums of any partitions gives the sum of the
/// partitions joined in order.
pub proof fn lemma_reduce_of_partial_sums(parts: Seq<Seq<usize>>)
    ensures
        wrapping_total(partial_sums(parts)) == wrapping_total(parts.flatten()),
{
    lemma_partial_sums_congruent(parts);
    parts.lemma_flatten_and_flatten_alt_are_equivalent();
}

/// Map-reduce over a fair split computes the sum of the whole input: the sum
/// of the partial sums of `fair_split(count, data)` is the sum of `data`.
pub proof fn lemma_map_reduce_fair_split(count: int, data: Seq<usize>)
    requires
        valid_arguments(count, data.len() as int),
    ensures
        wrapping_total(partial_sums(fair_split(count, data))) == wrapping_total(data),
{
    lemma_fair_split_concat(count, data);
    lemma_reduce_of_partial_sums(fair_split(count, data));
}

/// Map-reduce over the two halves computes the sum of the whole input.
pub proof fn lemma_map_reduce_halves(data: Seq<usize>)
    ensures
        wrapping_total(partial_sums(halves(data))) == wrapping_total(data),
{
    lemma_halves(data);
    lemma_reduce_of_partial_sums(halves(data));
}

/// Whether `outcomes` is what the workers of `parts` can deliver: one outcome
/// per partition, and each delivered sum is the sum of its own partition.
pub open spec fn worker_outcomes(parts: Seq<Seq<usize>>, outcomes: Seq<Option<usize>>) -> bool {
    &&& outcomes.len() == parts.len()
    &&& forall|i: int|
        0 <= i < outcomes.len() ==> ((#[trigger] outcomes[i]) matches Some(sum) ==> sum
            == wrapping_total(parts[i]))
}

/// A run is determined by its input. Two runs over the same partitions in
/// which every worker delivered end with the same intermediate results, in
/// the same order, and with the same final result: the partial sums of the
/// partitions and the sum of the partitions joined.
pub proof fn lemma_runs_agree(
    parts: Seq<Seq<usize>>,
    first: Seq<Option<usize>>,
    second: Seq<Option<usize>>,
)
    requires
        worker_outcomes(parts, first),
        worker_outcomes(parts, second),
        all_delivered(first),
        all_delivered(second),
    ensures
        delivered(first) == delivered(second),
        delivered(first) == partial_sums(parts),
        wrapping_total(delivered(first)) == wrapping_total(delivered(second)),
        wrapping_total(delivered(first)) == wrapping_total(parts.flatten()),
{
    assert(delivered(first) =~= partial_sums(parts));
    assert(delivered(second) =~= partial_sums(parts));
    lemma_reduce_of_partial_sums(parts);
}

} // verus!
