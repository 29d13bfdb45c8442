//! A Conway's-Game-of-Life variant on a toroidal (edge-wrapping) grid.
//!
//! The grid engine owns the dimensions and the cell buffer, counts live
//! neighbors with wraparound, advances one generation at a time with a
//! synchronous whole-buffer update, and renders the grid as text.

pub mod grid;
pub mod rules;

pub use grid::GridError;
pub use grid::Universe;
pub use rules::Flower;
