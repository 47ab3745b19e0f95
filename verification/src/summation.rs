//! The summary that both the map step and the reduce step compute: the sum of
//! a sequence, held in a fixed-width accumulator.
//!
//! Overflow policy: sums wrap. The result of a summation is the mathematical
//! sum reduced modulo `usize::MAX + 1`, and equals the mathematical sum
//! whenever that fits in a `usize`.

use vstd::arithmetic::div_mod::{
    lemma_add_mod_noop,
    lemma_mod_sub_multiples_vanish,
    lemma_small_mod,
};
use vstd::prelude::*;

verus! {

/// The mathematical sum of the elements of `s`.
pub open spec fn total(s: Seq<usize>) -> nat
    decreases s.len(),
{
    if s.len() == 0 {
        0
    } else {
        total(s.drop_last()) + s.last() as nat
    }
}

/// Number of values a `usize` can take; sums are reduced modulo this.
pub open spec fn modulus() -> int {
    usize::MAX + 1
}

/// The sum of the elements of `s` as a fixed-width accumulator holds it:
/// reduced modulo `usize::MAX + 1`.
pub open spec fn wrapping_total(s: Seq<usize>) -> usize {
    (total(s) as int % modulus()) as usize
}

/// A sum that fits in a `usize` is not changed by wrapping.
pub proof fn lemma_wrapping_total_exact(s: Seq<usize>)
    requires
        total(s) <= usize::MAX,
    ensures
        wrapping_total(s) == total(s),
{
    lemma_small_mod(total(s), modulus() as nat);
}

/// Adding `x` to an accumulator that holds `t` reduced gives `t + x` reduced.
pub proof fn lemma_wrapping_step(t: nat, x: usize)
    ensures
        ((t as int % modulus()) as usize).wrapping_add(x) == ((t + x) % modulus()) as usize,
{
    let m = modulus();
    let a = t as int % m;
    let s = a + x as int;
    lemma_small_mod(x as nat, m as nat);
    lemma_add_mod_noop(t as int, x as int, m);
    assert((t + x) % m == s % m);
    if s < m {
        lemma_small_mod(s as nat, m as nat);
    } else {
        lemma_mod_sub_multiples_vanish(s, m);
        lemma_small_mod((s - m) as nat, m as nat);
    }
}

/// The sum of a concatenation is the sum of the sums.
pub proof fn lemma_total_concat(a: Seq<usize>, b: Seq<usize>)
    ensures
        total(a + b) == total(a) + total(b),
    decreases b.len(),
{
    if b.len() == 0 {
        assert(a + b =~= a);
    } else {
        assert((a + b).drop_last() =~= a + b.drop_last());
        lemma_total_concat(a, b.drop_last());
    }
}

/// Sums all the integers of `v`, wrapping on overflow.
fn sum_wrapping(v: &Vec<usize>) -> (sum: usize)
    ensures
        sum == wrapping_total(v@),
{
    let mut sum: usize = 0;
    let mut i: usize = 0;
    proof {
        lemma_small_mod(0, modulus() as nat);
    }
    while i < v.len()
        invariant
            i <= v.len(),
            sum == wrapping_total(v@.take(i as int)),
        decreases v.len() - i,
    {
        proof {
            let before = v@.take(i as int);
            let after = v@.take(i + 1);
            assert(after.drop_last() =~= before);
            lemma_wrapping_step(total(before), v[i as int]);
        }
        sum = sum.wrapping_add(v[i]);
        i += 1;
    }
    proof {
        assert(v@.take(v.len() as int) =~= v@);
    }
    sum
}

/// The map step on one partition: the sum of all its integers.
///
/// The sum wraps on overflow; where the mathematical sum fits in a `usize`,
/// the result is that sum.
pub fn map_data(v: &Vec<usize>) -> (sum: usize)
    ensures
        sum == wrapping_total(v@),
        total(v@) <= usize::MAX ==> sum == total(v@),
{
    proof {
        if total(v@) <= usize::MAX {
            lemma_wrapping_total_exact(v@);
        }
    }
    sum_wrapping(v)
}

/// The reduce step: the sum of all the partial sums.
///
/// Summation is the only operation of this library, so this computes what
/// [`map_data`] computes, with the same overflow policy.
pub fn reduce_data(v: &Vec<usize>) -> (sum: usize)
    ensures
        sum == wrapping_total(v@),
        total(v@) <= usize::MAX ==> sum == total(v@),
{
    proof {
        if total(v@) <= usize::MAX {
            lemma_wrapping_total_exact(v@);
        }
    }
    sum_wrapping(v)
}

} // verus!
