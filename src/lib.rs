//! Conway's Game of Life on a fixed-size toroidal grid.
//!
//! [`Board`] holds a dense row-major grid of cells and evolves it one
//! generation at a time by the standard B3/S23 rule, with neighbour lookups
//! wrapping around both edges. Rendering goes through the [`Print`] trait,
//! which receives one glyph per cell and a signal at the end of each row.
pub mod board;
pub mod grid;
pub mod laws;
pub mod print;
pub mod torus;

pub use board::Board;
pub use print::{cell_glyph, Print, PrintChecker, ALIVE, DEAD};
pub use torus::safe;
