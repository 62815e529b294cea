//! The leaf value types of the game: grid cells, player identities, and
//! terminal outcomes.

use vstd::prelude::*;

verus! {

/// One grid position: empty, or holding a piece of one of the two players.
#[derive(Clone, Copy, Debug, PartialEq, Eq, Structural)]
pub enum Cell {
    Empty,
    Red,
    Blue,
}

/// A player's identity; the two players alternate turns.
#[derive(Clone, Copy, Debug, PartialEq, Eq, Structural)]
pub enum Player {
    Red,
    Blue,
}

/// The outcome of a finished game.
#[derive(Clone, Copy, Debug, PartialEq, Eq, Structural)]
pub enum GameResult {
    RedWon,
    BlueWon,
    Tie,
}

/// The cell value written when `p` drops a piece.
pub open spec fn cell_of(p: Player) -> Cell {
    match p {
        Player::Red => Cell::Red,
        Player::Blue => Cell::Blue,
    }
}

/// The player who moves after `p`.
pub open spec fn other_player(p: Player) -> Player {
    match p {
        Player::Red => Player::Blue,
        Player::Blue => Player::Red,
    }
}

/// The win outcome belonging to `p`.
pub open spec fn win_of(p: Player) -> GameResult {
    match p {
        Player::Red => GameResult::RedWon,
        Player::Blue => GameResult::BlueWon,
    }
}

impl Player {
    /// The cell value this player's pieces show in the grid.
    pub fn piece(self) -> (c: Cell)
        ensures
            c == cell_of(self),
    {
        match self {
            Player::Red => Cell::Red,
            Player::Blue => Cell::Blue,
        }
    }

    /// The opponent of this player.
    pub fn other(self) -> (q: Player)
        ensures
            q == other_player(self),
    {
        match self {
            Player::Red => Player::Blue,
            Player::Blue => Player::Red,
        }
    }
}

impl Default for Cell {
    /// An unoccupied grid position.
    fn default() -> (c: Self)
        ensures
            c == Cell::Empty,
    {
        Cell::Empty
    }
}

} // verus!
