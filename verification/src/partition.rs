//! Splitting a sequence into contiguous partitions.
//!
//! Two splitters live here and neither stands for the other. The two-way
//! splitter cuts at the midpoint, so with an odd length its second half is the
//! longer one. The general splitter hands the extra elements to the earliest
//! partitions, so asked for two partitions of an odd length it makes the first
//! one longer. They agree on even lengths.

use crate::arguments::{argument_fault, valid_arguments, validate_arguments};
use crate::error::MapReduceError;
use vstd::arithmetic::div_mod::lemma_fundamental_div_mod;
use vstd::arithmetic::mul::lemma_mul_is_distributive_add_other_way;
use vstd::prelude::*;

verus! {

/// What each partition holds, in partition order.
pub open spec fn contents(parts: Seq<Vec<usize>>) -> Seq<Seq<usize>> {
    Seq::new(parts.len(), |i: int| parts[i]@)
}

/// The two halves of `data`, cut at the midpoint `data.len() / 2`.
pub open spec fn halves(data: Seq<usize>) -> Seq<Seq<usize>> {
    seq![data.take(data.len() as int / 2), data.skip(data.len() as int / 2)]
}

/// The number of elements that partition `i` receives when `len` elements are
/// split into `count` partitions: `len / count`, and one more for each of the
/// first `len % count` partitions.
pub open spec fn share(count: int, len: int, i: int) -> int {
    len / count + if i < len % count {
        1int
    } else {
        0int
    }
}

/// The position in the input at which partition `i` starts: the shares of the
/// partitions before it, added up.
pub open spec fn offset(count: int, len: int, i: int) -> int {
    i * (len / count) + if i < len % count {
        i
    } else {
        len % count
    }
}

/// The split of `data` into `count` contiguous partitions, the earliest ones
/// taking the extra elements.
pub open spec fn fair_split(count: int, data: Seq<usize>) -> Seq<Seq<usize>> {
    Seq::new(
        count as nat,
        |i: int|
            data.subrange(
                offset(count, data.len() as int, i),
                offset(count, data.len() as int, i + 1),
            ),
    )
}

/// Partition `i` starts where partition `i - 1` ends, the first one starts at
/// the front of the input and the last one ends at its back.
pub proof fn lemma_offsets(count: int, len: int, i: int)
    requires
        1 <= count,
        0 <= len,
        0 <= i < count,
    ensures
        offset(count, len, 0) == 0,
        offset(count, len, count) == len,
        offset(count, len, i + 1) == offset(count, len, i) + share(count, len, i),
        0 <= offset(count, len, i) <= offset(count, len, i + 1) <= len,
        0 <= share(count, len, i),
{
    let base = len / count;
    let rest = len % count;
    lemma_fundamental_div_mod(len, count);
    assert(0 <= base) by (nonlinear_arith)
        requires
            base == len / count,
            0 <= len,
            1 <= count,
    ;
    lemma_mul_is_distributive_add_other_way(base, i, 1);
    assert((i + 1) * base == i * base + base);
    assert((i + 1) * base + rest <= count * base + rest) by (nonlinear_arith)
        requires
            i + 1 <= count,
            0 <= base,
    ;
    assert(0 <= i * base) by (nonlinear_arith)
        requires
            0 <= i,
            0 <= base,
    ;
}

/// The first `k` partitions of a fair split, joined in order, are the input up
/// to the position at which partition `k` starts.
proof fn lemma_fair_split_prefix(count: int, data: Seq<usize>, k: int)
    requires
        1 <= count,
        0 <= k <= count,
    ensures
        fair_split(count, data).take(k).flatten_alt() == data.take(
            offset(count, data.len() as int, k),
        ),
    decreases k,
{
    let len = data.len() as int;
    let parts = fair_split(count, data);
    if k == 0 {
        lemma_offsets(count, len, 0);
        assert(parts.take(0).flatten_alt() =~= data.take(0));
    } else {
        lemma_fair_split_prefix(count, data, k - 1);
        lemma_offsets(count, len, k - 1);
        assert(parts.take(k).drop_last() =~= parts.take(k - 1));
        assert(parts.take(k).last() == data.subrange(
            offset(count, len, k - 1),
            offset(count, len, k),
        ));
        assert(parts.take(k).flatten_alt() =~= data.take(offset(count, len, k)));
    }
}

/// A fair split loses nothing and reorders nothing: its partitions, joined in
/// order, are the input.
pub proof fn lemma_fair_split_concat(count: int, data: Seq<usize>)
    requires
        1 <= count,
    ensures
        fair_split(count, data).flatten() == data,
{
    let parts = fair_split(count, data);
    lemma_fair_split_prefix(count, data, count);
    lemma_offsets(count, data.len() as int, 0);
    assert(parts.take(count) =~= parts);
    assert(data.take(data.len() as int) =~= data);
    parts.lemma_flatten_and_flatten_alt_are_equivalent();
}

/// A fair split is fair: partition `i` holds `share(count, len, i)` elements,
/// so the first `len % count` partitions hold `len / count + 1` elements, the
/// others `len / count`, and no two sizes differ by more than one.
pub proof fn lemma_fair_split_sizes(count: int, data: Seq<usize>)
    requires
        1 <= count,
    ensures
        fair_split(count, data).len() == count,
        forall|i: int|
            0 <= i < count ==> (#[trigger] fair_split(count, data)[i]).len() == share(
                count,
                data.len() as int,
                i,
            ),
        forall|i: int, j: int|
            0 <= i < count && 0 <= j < count ==> (#[trigger] fair_split(count, data)[i]).len() - (
            #[trigger] fair_split(count, data)[j]).len() <= 1,
{
    let len = data.len() as int;
    assert forall|i: int| 0 <= i < count implies (#[trigger] fair_split(count, data)[i]).len()
        == share(count, len, i) by {
        lemma_offsets(count, len, i);
    }
}

/// Asked for as many partitions as there are elements, a fair split gives
/// every partition one element; asked for one partition, it gives the input
/// back whole.
pub proof fn lemma_fair_split_boundaries(count: int, data: Seq<usize>)
    requires
        1 <= count,
    ensures
        count == data.len() ==> forall|i: int|
            0 <= i < count ==> #[trigger] fair_split(count, data)[i] == seq![data[i]],
        count == 1 ==> fair_split(count, data) == seq![data],
{
    let len = data.len() as int;
    if count == len {
        assert(len / count == 1 && len % count == 0) by (nonlinear_arith)
            requires
                count == len,
                1 <= count,
        ;
        assert forall|i: int| 0 <= i < count implies #[trigger] fair_split(count, data)[i]
            == seq![data[i]] by {
            lemma_offsets(count, len, i);
            assert(offset(count, len, i) == i) by (nonlinear_arith)
                requires
                    offset(count, len, i) == i * (len / count) + len % count,
                    len / count == 1,
                    len % count == 0,
            ;
            assert(fair_split(count, data)[i] =~= seq![data[i]]);
        }
    }
    if count == 1 {
        lemma_offsets(count, len, 0);
        assert(fair_split(count, data)[0] =~= data);
        assert(fair_split(count, data) =~= seq![data]);
    }
}

/// The halves lose nothing and reorder nothing, and the second half is the
/// longer one when the length is odd.
pub proof fn lemma_halves(data: Seq<usize>)
    ensures
        halves(data).len() == 2,
        halves(data).flatten() == data,
        halves(data)[0].len() == data.len() / 2,
        halves(data)[1].len() == data.len() - data.len() / 2,
{
    let parts = halves(data);
    let mid = data.len() as int / 2;
    let first = parts.drop_last();
    assert(first.drop_last().flatten_alt() =~= Seq::<usize>::empty());
    assert(first.flatten_alt() =~= data.take(mid));
    assert(parts.flatten_alt() =~= data);
    parts.lemma_flatten_and_flatten_alt_are_equivalent();
}

/// On an even length the two splitters agree; on an odd length the general
/// splitter makes the first of two partitions the longer one, the two-way
/// splitter the second.
pub proof fn lemma_halves_and_fair_split(data: Seq<usize>)
    ensures
        data.len() % 2 == 0 ==> halves(data) == fair_split(2, data),
        data.len() % 2 == 1 ==> fair_split(2, data)[0].len() == halves(data)[0].len() + 1,
{
    let len = data.len() as int;
    lemma_offsets(2, len, 0);
    lemma_offsets(2, len, 1);
    if len % 2 == 0 {
        assert(fair_split(2, data)[0] =~= halves(data)[0]);
        assert(fair_split(2, data)[1] =~= halves(data)[1]);
        assert(halves(data) =~= fair_split(2, data));
    }
}

/// Splits `v` into two partitions at the midpoint: the first holds the first
/// `v.len() / 2` elements, the second all the others.
pub fn partition_data_in_two(v: &Vec<usize>) -> (xs: Vec<Vec<usize>>)
    ensures
        contents(xs@) == halves(v@),
        xs.len() == 2,
        contents(xs@).flatten() == v@,
        xs[0].len() == v.len() / 2,
        xs[1].len() == v.len() - v.len() / 2,
{
    let partition_size: usize = v.len() / 2;
    let mut xs: Vec<Vec<usize>> = Vec::new();

    let mut x1: Vec<usize> = Vec::new();
    let mut i: usize = 0;
    while i < partition_size
        invariant
            i <= partition_size <= v.len(),
            x1@ == v@.take(i as int),
        decreases partition_size - i,
    {
        x1.push(v[i]);
        i += 1;
    }
    xs.push(x1);

    let mut x2: Vec<usize> = Vec::new();
    let mut i: usize = partition_size;
    while i < v.len()
        invariant
            partition_size <= i <= v.len(),
            x2@ == v@.subrange(partition_size as int, i as int),
        decreases v.len() - i,
    {
        x2.push(v[i]);
        i += 1;
    }
    xs.push(x2);

    proof {
        lemma_halves(v@);
        assert(contents(xs@) =~= halves(v@));
    }
    xs
}

/// Splits `v` into `num_partitions` contiguous partitions of nearly equal
/// size.
///
/// With `base = v.len() / num_partitions` and `extra = v.len() %
/// num_partitions`, each of the first `extra` partitions holds `base + 1`
/// elements and each of the others `base`; partition 0 holds the earliest
/// elements, and the partitions joined in order are `v`.
///
/// Fails with [`MapReduceError::InvalidArgument`] exactly when
/// `num_partitions` is zero or `v` has fewer elements than partitions.
pub fn partition_data(num_partitions: usize, v: &Vec<usize>) -> (result: Result<
    Vec<Vec<usize>>,
    MapReduceError,
>)
    ensures
        result is Ok <==> valid_arguments(num_partitions as int, v.len() as int),
        result matches Err(e) ==> argument_fault(num_partitions as int, v.len() as int)
            matches Some(fault) && e == MapReduceError::InvalidArgument(fault),
        result matches Ok(xs) ==> {
            &&& contents(xs@) == fair_split(num_partitions as int, v@)
            &&& xs.len() == num_partitions
            &&& contents(xs@).flatten() == v@
            &&& forall|k: int|
                0 <= k < xs.len() ==> (#[trigger] xs[k]).len() == share(
                    num_partitions as int,
                    v.len() as int,
                    k,
                )
            &&& forall|j: int, k: int|
                0 <= j < xs.len() && 0 <= k < xs.len() ==> (#[trigger] xs[j]).len() - (
                #[trigger] xs[k]).len() <= 1
            &&& num_partitions == v.len() ==> forall|k: int|
                0 <= k < xs.len() ==> (#[trigger] xs[k])@ == seq![v[k]]
            &&& num_partitions == 1 ==> xs[0]@ == v@
        },
{
    match validate_arguments(num_partitions, v.len()) {
        Err(e) => {
            return Err(e);
        },
        Ok(_) => {},
    }
    let ghost count = num_partitions as int;
    let ghost len = v.len() as int;

    let partition_size: usize = v.len() / num_partitions;
    let mut remainder: usize = v.len() % num_partitions;

    let mut xs: Vec<Vec<usize>> = Vec::new();

    let mut i: usize = 0;
    let mut k: usize = 0;
    proof {
        lemma_offsets(count, len, 0);
    }
    while k < num_partitions
        invariant
            1 <= num_partitions,
            count == num_partitions,
            len == v.len(),
            partition_size == len / count,
            k <= num_partitions,
            xs.len() == k,
            i == offset(count, len, k as int),
            remainder == if k < len % count {
                len % count - k
            } else {
                0
            },
            forall|p: int| 0 <= p < k ==> (#[trigger] xs[p])@ == fair_split(count, v@)[p],
        decreases num_partitions - k,
    {
        proof {
            lemma_offsets(count, len, k as int);
        }
        let ghost start = i as int;
        let mut x: Vec<usize> = Vec::new();
        let mut n: usize = 0;
        while n < partition_size
            invariant
                n <= partition_size,
                0 <= start,
                i == start + n,
                start + partition_size <= v.len(),
                x@ == v@.subrange(start, i as int),
            decreases partition_size - n,
        {
            x.push(v[i]);
            i = i + 1;
            n += 1;
        }

        if remainder > 0 {
            x.push(v[i]);
            i = i + 1;
            remainder = remainder - 1;
        }
        assert(x@ =~= fair_split(count, v@)[k as int]);

        xs.push(x);
        k += 1;
    }
    proof {
        assert(contents(xs@) =~= fair_split(count, v@));
        lemma_fair_split_concat(count, v@);
        lemma_fair_split_sizes(count, v@);
        lemma_fair_split_boundaries(count, v@);
        assert forall|j: int, p: int| 0 <= j < xs.len() && 0 <= p < xs.len() implies (
        #[trigger] xs[j]).len() - (#[trigger] xs[p]).len() <= 1 by {
            assert(xs[j]@ == fair_split(count, v@)[j]);
            assert(xs[p]@ == fair_split(count, v@)[p]);
        }
    }
    Ok(xs)
}

/// The number of elements of every partition, in partition order.
pub fn partition_sizes(vs: &Vec<Vec<usize>>) -> (sizes: Vec<usize>)
    ensures
        sizes.len() == vs.len(),
        forall|i: int| 0 <= i < vs.len() ==> sizes[i] == (#[trigger] vs[i]).len(),
{
    let mut sizes: Vec<usize> = Vec::new();
    let mut i: usize = 0;
    while i < vs.len()
        invariant
            i <= vs.len(),
            sizes.len() == i,
            forall|p: int| 0 <= p < i ==> sizes[p] == (#[trigger] vs[p]).len(),
        decreases vs.len() - i,
    {
        sizes.push(vs[i].len());
        i += 1;
    }
    sizes
}

} // verus!
