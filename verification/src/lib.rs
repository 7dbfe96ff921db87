//! A generic cellular-automaton engine: a double-buffered board of cells,
//! a pluggable cell-value type described by three capabilities (aggregate,
//! random-init, color), and the classic two-state life rule as the basic
//! value type.

pub mod cell;
pub mod life;
pub mod life_basic;
pub mod monoid;
pub mod next_value;
pub mod random_init;
pub mod render;
