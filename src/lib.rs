//! A constraint-propagation solver for Minesweeper-style boards.
//!
//! A board is a row-major grid of cells: `0..=8` is a revealed clue, `9` a
//! hidden cell and `10` a mine. The solver repeats local deduction rounds until
//! nothing changes, then checks that the result is a complete, consistent board.

pub mod board;
pub mod grid;
pub mod instruction;
pub mod solver;

pub use board::{MINE, SAFE, UNKNOWN};
pub use grid::{grid_to_string, random_grid};
pub use instruction::{decode_instruction, InstructionError, Request, MAX_SIZE};
pub use solver::{propagate, try_to_solve};
