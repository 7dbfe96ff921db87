//! Capability used to initialise a random value at the start of life.

use vstd::prelude::*;

verus! {

/// Draws one value at board-initialization time.
///
/// Nothing is promised about the distribution beyond `init_ok`: every
/// drawn value is a well-formed starting value of the type.
pub trait RandomInit<T>: Sized {
    /// The set of values that `random` may return.
    spec fn init_ok(v: T) -> bool;

    /// Draw one value.
    fn random() -> (r: T)
        ensures
            Self::init_ok(r),
    ;
}

} // verus!
