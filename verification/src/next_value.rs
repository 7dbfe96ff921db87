//! Capability used to determine the next value of a cell from its current
//! value and the aggregate of its neighbors' values.

use vstd::prelude::*;

verus! {

/// Computes a cell's next value from its current value and the folded
/// aggregate of its in-bounds neighbors.
///
/// `next_value_spec` is the mathematical meaning of `next_value`; it is a
/// total function, so the update rule can never fail at runtime.
pub trait NextValue<T>: Sized {
    /// What `next_value` returns, as a spec-level function.
    spec fn next_value_spec(self, neighbors: T) -> T;

    /// The next value of a cell whose current value is `self`, given the
    /// aggregate `neighbors` of its in-bounds neighbors.
    fn next_value(&self, neighbors: T) -> (r: T)
        ensures
            r == self.next_value_spec(neighbors),
    ;
}

} // verus!
