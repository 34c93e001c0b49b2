//! A swap-cost oracle for qubit routing on distributed quantum hardware:
//! a controller/qubit ownership index, a node-partitioned feedback-pair
//! index, and exact incremental scoring of candidate qubit swaps.

use vstd::prelude::*;

pub mod cif_pairs;
pub mod ctrl_to_pq;
pub mod state;
pub mod tables;

verus! {

/// The ways a caller's input can be rejected: a swap candidate that does not
/// name exactly two qubit indices, or wiring data that claims one qubit for
/// two different controllers.
#[derive(Clone, Copy, Debug, PartialEq, Eq, Structural)]
pub enum DqcMapError {
    MalformedSwap,
    AmbiguousQubit,
}

/// An element-wise copy of a vector of plain values.
pub(crate) fn copy_vec<T: Copy>(v: &Vec<T>) -> (r: Vec<T>)
    ensures
        r@ == v@,
{
    let mut r: Vec<T> = Vec::new();
    let mut i: usize = 0;
    while i < v.len()
        invariant
            0 <= i <= v@.len(),
            r@ == v@.take(i as int),
        decreases v@.len() - i,
    {
        r.push(v[i]);
        proof {
            assert(v@.take(i + 1 as int) =~= v@.take(i as int).push(v@[i as int]));
        }
        i = i + 1;
    }
    proof {
        assert(v@.take(v@.len() as int) =~= v@);
    }
    r
}

} // verus!
