//! A sparse simulator for Conway's Game of Life on an unbounded lattice.
//!
//! Only the alive cells are stored, and a step visits only them and their
//! dead neighbours. `rule` holds the mathematics, `grid` the alive cells and
//! the step, `laws` what is proved of both, `viewport` a window over the
//! lattice, and `driver` what a host does around the grid.

pub mod driver;
pub mod grid;
mod key;
pub mod laws;
pub mod rule;
pub mod viewport;
