//! A cell of the board: a thin wrapper around one value of the cell-value
//! type, forwarding every capability to the wrapped value.

use vstd::prelude::*;

use crate::monoid::Monoid;
use crate::random_init::RandomInit;
use crate::render::{Render, Rgba8};

verus! {

/// One slot of the board, holding exactly one value of type `T`.
/// It has no identity of its own: all semantics derive from `T`.
#[derive(Clone, Copy)]
pub struct Cell<T> {
    pub value: T,
}

impl<T> Monoid<Cell<T>> for Cell<T> where T: Monoid<T> {
    open spec fn combine(self, other: Self) -> Self {
        Cell { value: self.value.combine(other.value) }
    }

    open spec fn valid(self) -> bool {
        self.value.valid()
    }

    open spec fn acc_ok(self, k: int) -> bool {
        self.value.acc_ok(k)
    }

    open spec fn zero() -> Self {
        Cell { value: T::zero() }
    }

    proof fn lemma_combine_associative(a: Self, b: Self, c: Self) {
        T::lemma_combine_associative(a.value, b.value, c.value);
    }

    proof fn lemma_acc_step(acc: Self, v: Self, k: int) {
        T::lemma_acc_step(acc.value, v.value, k);
    }

    fn empty() -> (r: Self) {
        Cell { value: T::empty() }
    }

    fn append(self, other: Self) -> (r: Self) {
        Cell { value: self.value.append(other.value) }
    }
}

/// Random initialiser for cells whose value type supports random draws.
impl<T> RandomInit<Cell<T>> for Cell<T> where T: RandomInit<T> {
    open spec fn init_ok(c: Cell<T>) -> bool {
        T::init_ok(c.value)
    }

    fn random() -> (r: Cell<T>) {
        Cell { value: <T as RandomInit<T>>::random() }
    }
}

/// Display color for the cell: the color of the wrapped value.
impl<T> Render<Cell<T>> for Cell<T> where T: Render<T> {
    open spec fn color_spec(self) -> Rgba8 {
        self.value.color_spec()
    }

    fn color(&self) -> (c: Rgba8) {
        self.value.color()
    }
}

} // verus!
