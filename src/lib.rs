//! Conway's Game of Life on a toroidal grid, stored as packed bits.
//!
//! `life` states the rule as mathematics, `universe` holds the
//! double-buffered grid that runs it, `spaceships` the patterns that can be
//! stamped onto it and `bitset` the packed storage underneath.

pub mod bitset;
pub mod life;
pub mod spaceships;
pub mod universe;

pub use spaceships::CommonSpaceships;
pub use universe::{FillPolicy, GridError, Universe};
