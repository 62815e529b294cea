//! A two-player vertical-grid game: pieces are dropped into columns and
//! settle on the lowest open row; the first four-in-a-row (horizontal,
//! vertical, or diagonal) wins, and a full grid without one is a tie.

use vstd::prelude::*;

pub mod board;
pub mod cell;
pub mod column;
pub mod game;
pub mod input;
pub mod render;

verus! {

/// Number of rows in the grid (the height of each column).
pub const N_ROWS: usize = 7;

/// Number of columns in the grid.
pub const N_COLUMNS: usize = 9;

} // verus!
