//! The input of a run: the integers from zero upwards.

use vstd::prelude::*;

verus! {

/// The sequence `0, 1, ..., n - 1`.
pub open spec fn counting(n: nat) -> Seq<usize> {
    Seq::new(n, |i: int| i as usize)
}

/// Creates the vector that holds the integers from `0` to `num_elements - 1`,
/// in order.
pub fn generate_data(num_elements: usize) -> (v: Vec<usize>)
    ensures
        v@ == counting(num_elements as nat),
        v.len() == num_elements,
        forall|i: int| 0 <= i < num_elements ==> v[i] == i,
{
    let mut v: Vec<usize> = Vec::new();
    let mut i: usize = 0;
    while i < num_elements
        invariant
            i <= num_elements,
            v@ == counting(i as nat),
        decreases num_elements - i,
    {
        v.push(i);
        i += 1;
    }
    v
}

} // verus!
