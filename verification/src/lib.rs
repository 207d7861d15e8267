//! A 9x9 Sudoku engine: a grid type with row/column/box validity checking,
//! a randomized backtracking generator, an exhaustive solution counter, and
//! a hint decimator that reduces a solved grid to a puzzle with a unique
//! solution.  A fixed-length text encoding is provided for import/export.

pub mod bars;
pub mod codec;
pub mod difficulty;
mod shuffle;
pub mod solver;
pub mod sudoku;
pub mod ui;
pub mod value;
