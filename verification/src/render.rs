//! Capability used to pick a display color for a cell value.

use vstd::prelude::*;

verus! {

/// An 8-bit-per-channel RGBA color, the plain-value form of a display
/// color that a host renderer can take as it stands.
#[derive(Clone, Copy, PartialEq, Eq, Structural, Debug)]
pub struct Rgba8 {
    pub red: u8,
    pub green: u8,
    pub blue: u8,
    pub alpha: u8,
}

/// Deterministic, pure mapping from a value to its display color.
pub trait Render<T>: Sized {
    /// What `color` returns, as a spec-level function.
    spec fn color_spec(self) -> Rgba8;

    /// The display color for this value.
    fn color(&self) -> (c: Rgba8)
        ensures
            c == self.color_spec(),
    ;
}

} // verus!
