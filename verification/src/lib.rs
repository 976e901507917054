//! A 9x9 Sudoku engine: placement legality, structural validation, a cheap
//! contradiction detector and a backtracking solver, with the reading and
//! the showing of boards as text. Every function carries a proved contract.

pub mod contradiction;
pub mod grid;
pub mod laws;
pub mod parse;
pub mod render;
pub mod round_trip;
pub mod solver;
pub mod text;
pub mod validate;

pub use crate::contradiction::is_contradictory;
pub use crate::grid::{can_place, find_empty, Grid};
pub use crate::parse::{check_line, parse_grid, LineFault};
pub use crate::render::render_grid;
pub use crate::solver::solve;
pub use crate::validate::is_valid_grid;
