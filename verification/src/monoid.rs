//! Aggregation capability for cell values: an associative combine
//! operation used to fold the values of a cell's neighbors.

use vstd::prelude::*;

verus! {

/// An associative aggregation over values of one type, used to fold the
/// values of up to 8 in-bounds neighbors of a cell onto a starting value.
///
/// `combine` is the mathematical meaning of `append`; `valid` says which
/// values may appear in a board cell; `acc_ok(k)` says which values are
/// well-formed accumulators after folding `k` neighbor values.
pub trait Monoid<T>: Sized {
    /// What `append` returns, as a spec-level function.
    spec fn combine(self, other: Self) -> Self;

    /// A well-formed cell value.
    spec fn valid(self) -> bool;

    /// A well-formed accumulator after folding `k` neighbor values.
    spec fn acc_ok(self, k: int) -> bool;

    /// The starting value for a neighbor fold.
    spec fn zero() -> Self;

    /// Combining is associative on valid values.
    proof fn lemma_combine_associative(a: Self, b: Self, c: Self)
        requires
            a.valid(),
            b.valid(),
            c.valid(),
        ensures
            a.combine(b).combine(c) == a.combine(b.combine(c)),
    ;

    /// Folding one more valid value onto a well-formed accumulator
    /// yields a well-formed accumulator.
    proof fn lemma_acc_step(acc: Self, v: Self, k: int)
        requires
            acc.acc_ok(k),
            v.valid(),
            0 <= k < 8,
        ensures
            acc.combine(v).acc_ok(k + 1),
    ;

    /// The starting value of a fold.
    fn empty() -> (r: Self)
        ensures
            r == Self::zero(),
            r.acc_ok(0),
    ;

    /// Combine `other` into `self`.
    fn append(self, other: Self) -> (r: Self)
        requires
            exists|k: int| 0 <= k < 8 && self.acc_ok(k),
            other.valid(),
        ensures
            r == self.combine(other),
    ;
}

} // verus!
