//! The board: a fixed row of columns, with piece dropping and the
//! win/tie detection that decides a finished game.
//!
//! Contracts speak about the board through its grid: the sequence of column
//! cell sequences, where `grid[col][row]` is the cell at that position and
//! row 0 is the bottom row.

use vstd::prelude::*;

use crate::N_COLUMNS;
use crate::N_ROWS;
use crate::cell::Cell;
use crate::cell::GameResult;
use crate::cell::Player;
use crate::cell::cell_of;
use crate::cell::other_player;
use crate::cell::win_of;
use crate::column::Column;
use crate::column::fill_of;
use crate::column::lemma_fill_of_stacked;

verus! {

/// Why a drop was rejected.
#[derive(Clone, Copy, Debug, PartialEq, Eq, Structural)]
pub enum DropError {
    /// The column index lies outside the board.
    InvalidColumn,
    /// The addressed column holds no room for another piece.
    ColumnFull,
}

/// The playing grid: `N_COLUMNS` columns left to right, each a full-height
/// stack of cells bottom to top.
#[derive(Clone, Debug)]
pub struct Board {
    pub columns: Vec<Column>,
}

/// The grid a board presents: one cell sequence per column.
pub open spec fn grid_of(b: Board) -> Seq<Seq<Cell>> {
    b.columns@.map(|j: int, col: Column| col.cells@)
}

/// The cell of grid `g` at `row` of column `col`.
pub open spec fn at(g: Seq<Seq<Cell>>, row: int, col: int) -> Cell {
    g[col][row]
}

/// The grid has the fixed board dimensions.
pub open spec fn grid_wf(g: Seq<Seq<Cell>>) -> bool {
    &&& g.len() == N_COLUMNS
    &&& forall|j: int| 0 <= j < g.len() ==> (#[trigger] g[j]).len() == N_ROWS
}

/// Four pieces of `p` in a row of `g`, leftmost at (`row`, `col`).
pub open spec fn horiz_win_at(g: Seq<Seq<Cell>>, p: Player, row: int, col: int) -> bool {
    &&& 0 <= row < N_ROWS
    &&& 0 <= col && col + 3 < N_COLUMNS
    &&& forall|k: int| 0 <= k < 4 ==> #[trigger] at(g, row, col + k) == cell_of(p)
}

/// Four pieces of `p` stacked in a column of `g`, lowest at (`row`, `col`).
pub open spec fn vert_win_at(g: Seq<Seq<Cell>>, p: Player, row: int, col: int) -> bool {
    &&& 0 <= row && row + 3 < N_ROWS
    &&& 0 <= col < N_COLUMNS
    &&& forall|k: int| 0 <= k < 4 ==> #[trigger] at(g, row + k, col) == cell_of(p)
}

/// Four pieces of `p` along an ascending diagonal of `g`, lowest at
/// (`row`, `col`).
pub open spec fn diag_up_win_at(g: Seq<Seq<Cell>>, p: Player, row: int, col: int) -> bool {
    &&& 0 <= row && row + 3 < N_ROWS
    &&& 0 <= col && col + 3 < N_COLUMNS
    &&& forall|k: int| 0 <= k < 4 ==> #[trigger] at(g, row + k, col + k) == cell_of(p)
}

/// Four pieces of `p` along a descending diagonal of `g`, highest at
/// (`row`, `col`).
pub open spec fn diag_down_win_at(g: Seq<Seq<Cell>>, p: Player, row: int, col: int) -> bool {
    &&& 3 <= row < N_ROWS
    &&& 0 <= col && col + 3 < N_COLUMNS
    &&& forall|k: int| 0 <= k < 4 ==> #[trigger] at(g, row - k, col + k) == cell_of(p)
}

/// `p` owns a four-in-a-row somewhere in `g`, in any of the four directions.
pub open spec fn wins(g: Seq<Seq<Cell>>, p: Player) -> bool {
    ||| exists|row: int, col: int| horiz_win_at(g, p, row, col)
    ||| exists|row: int, col: int| vert_win_at(g, p, row, col)
    ||| exists|row: int, col: int| diag_up_win_at(g, p, row, col)
    ||| exists|row: int, col: int| diag_down_win_at(g, p, row, col)
}

/// Every position of the grid holds a piece.
pub open spec fn grid_full(g: Seq<Seq<Cell>>) -> bool {
    forall|row: int, col: int|
        0 <= row < N_ROWS && 0 <= col < N_COLUMNS ==> #[trigger] at(g, row, col) != Cell::Empty
}

/// The terminal state a grid presents: a red win is reported first, then a
/// blue win, then a tie on a full grid; otherwise the game goes on.
pub open spec fn result_of(g: Seq<Seq<Cell>>) -> Option<GameResult> {
    if wins(g, Player::Red) {
        Option::Some(GameResult::RedWon)
    } else if wins(g, Player::Blue) {
        Option::Some(GameResult::BlueWon)
    } else if grid_full(g) {
        Option::Some(GameResult::Tie)
    } else {
        Option::None
    }
}

/// The grid after `p` drops a piece into column `j`: the piece settles at
/// that column's fill index.
pub open spec fn grid_drop(g: Seq<Seq<Cell>>, j: int, p: Player) -> Seq<Seq<Cell>> {
    g.update(j, g[j].update(fill_of(g[j]), cell_of(p)))
}

impl Board {
    /// A board is well formed when it spans the full width and every column
    /// is well formed.
    pub open spec fn wf(self) -> bool {
        &&& self.columns@.len() == N_COLUMNS
        &&& forall|j: int| 0 <= j < self.columns@.len() ==> (#[trigger] self.columns@[j]).wf()
    }

    /// Drop a piece of `player` into the column at `column_index` (counted
    /// from zero): rejected without any change when the index lies outside
    /// the board or the column is full; otherwise the piece settles at that
    /// column's fill index.
    pub fn drop_piece(&mut self, column_index: usize, player: Player) -> (r: Result<(), DropError>)
        requires
            old(self).wf(),
        ensures
            final(self).wf(),
            column_index >= N_COLUMNS ==> r == Err::<(), DropError>(DropError::InvalidColumn)
                && *final(self) == *old(self),
            column_index < N_COLUMNS && old(self).columns@[column_index as int].spec_is_full()
                ==> r == Err::<(), DropError>(DropError::ColumnFull) && *final(self) == *old(self),
            column_index < N_COLUMNS && !old(self).columns@[column_index as int].spec_is_full()
                ==> r == Ok::<(), DropError>(())
                && grid_of(*final(self)) == grid_drop(grid_of(*old(self)), column_index as int, player)
                && final(self).columns@[column_index as int].index
                    == old(self).columns@[column_index as int].index + 1,
    {
        if column_index >= N_COLUMNS {
            return Err(DropError::InvalidColumn);
        }
        if self.columns[column_index].is_full() {
            return Err(DropError::ColumnFull);
        }
        proof {
            lemma_fill_of_stacked(
                self.columns@[column_index as int].cells@,
                self.columns@[column_index as int].index as int,
            );
        }
        let column = &mut self.columns[column_index];
        column.drop_piece(player);
        proof {
            assert(grid_of(*self) =~= grid_drop(grid_of(*old(self)), column_index as int, player));
        }
        Ok(())
    }

    /// Whether every column of the board is full.
    pub fn is_board_full(&self) -> (full: bool)
        requires
            self.wf(),
        ensures
            full == grid_full(grid_of(*self)),
    {
        let ghost g = grid_of(*self);
        let mut j: usize = 0;
        while j < N_COLUMNS
            invariant
                self.wf(),
                g == grid_of(*self),
                j <= N_COLUMNS,
                forall|jj: int, row: int|
                    0 <= jj < j && 0 <= row < N_ROWS ==> #[trigger] at(g, row, jj) != Cell::Empty,
            decreases N_COLUMNS - j,
        {
            if !self.columns[j].is_full() {
                assert(at(g, self.columns@[j as int].index as int, j as int) == Cell::Empty);
                return false;
            }
            assert(forall|row: int|
                0 <= row < N_ROWS ==> #[trigger] at(g, row, j as int) != Cell::Empty);
            j = j + 1;
        }
        true
    }

    /// Scan the grid for a winning run or a tie: a winning run of `Red` is
    /// reported first, then one of `Blue`, then a tie on a full grid;
    /// `None` means the game goes on.
    pub fn check_for_result(&self) -> (r: Option<GameResult>)
        requires
            self.wf(),
        ensures
            r == result_of(grid_of(*self)),
    {
        if self.has_win(Player::Red) {
            return Some(GameResult::RedWon);
        }
        if self.has_win(Player::Blue) {
            return Some(GameResult::BlueWon);
        }
        if self.is_board_full() {
            return Some(GameResult::Tie);
        }
        None
    }

    /// Whether `p` owns a four-in-a-row in any direction.
    pub fn has_win(&self, p: Player) -> (found: bool)
        requires
            self.wf(),
        ensures
            found == wins(grid_of(*self), p),
    {
        self.check_horizontal(p) || self.check_vertical(p) || self.check_diag_up(p)
            || self.check_diag_down(p)
    }

    /// The cell at `row` of column `col`.
    pub fn cell_at(&self, row: usize, col: usize) -> (c: Cell)
        requires
            self.wf(),
            row < N_ROWS,
            col < N_COLUMNS,
        ensures
            c == at(grid_of(*self), row as int, col as int),
    {
        self.columns[col].cells[row]
    }

    /// Whether some row of the grid holds four pieces of `p` in a row.
    fn check_horizontal(&self, p: Player) -> (found: bool)
        requires
            self.wf(),
        ensures
            found == exists|row: int, col: int| horiz_win_at(grid_of(*self), p, row, col),
    {
        let ghost g = grid_of(*self);
        let piece = p.piece();
        let mut row: usize = 0;
        while row < N_ROWS
            invariant
                self.wf(),
                g == grid_of(*self),
                piece == cell_of(p),
                row <= N_ROWS,
                forall|r: int, c: int| 0 <= r < row ==> !horiz_win_at(g, p, r, c),
            decreases N_ROWS - row,
        {
            let mut col: usize = 0;
            while col + 3 < N_COLUMNS
                invariant
                    self.wf(),
                    g == grid_of(*self),
                    piece == cell_of(p),
                    row < N_ROWS,
                    col + 3 <= N_COLUMNS,
                    forall|c: int| 0 <= c < col ==> !horiz_win_at(g, p, row as int, c),
                decreases N_COLUMNS - col,
            {
                let c0 = self.cell_at(row, col);
                let c1 = self.cell_at(row, col + 1);
                let c2 = self.cell_at(row, col + 2);
                let c3 = self.cell_at(row, col + 3);
                proof {
                    assert(at(g, row as int, col as int + 0) == c0);
                    assert(at(g, row as int, col as int + 1) == c1);
                    assert(at(g, row as int, col as int + 2) == c2);
                    assert(at(g, row as int, col as int + 3) == c3);
                }
                if c0 == piece && c1 == piece && c2 == piece && c3 == piece {
                    proof {
                        assert forall|k: int| 0 <= k < 4 implies #[trigger] at(
                            g,
                            row as int,
                            col as int + k,
                        ) == cell_of(p) by {
                            if k == 0 {
                            } else if k == 1 {
                            } else if k == 2 {
                            }
                        }
                        assert(horiz_win_at(g, p, row as int, col as int));
                    }
                    return true;
                }
                proof {
                    assert(!horiz_win_at(g, p, row as int, col as int));
                }
                col = col + 1;
            }
            row = row + 1;
        }
        false
    }

    /// Whether some column of the grid holds four pieces of `p` stacked.
    fn check_vertical(&self, p: Player) -> (found: bool)
        requires
            self.wf(),
        ensures
            found == exists|row: int, col: int| vert_win_at(grid_of(*self), p, row, col),
    {
        let ghost g = grid_of(*self);
        let piece = p.piece();
        let mut col: usize = 0;
        while col < N_COLUMNS
            invariant
                self.wf(),
                g == grid_of(*self),
                piece == cell_of(p),
                col <= N_COLUMNS,
                forall|r: int, c: int| 0 <= c < col ==> !vert_win_at(g, p, r, c),
            decreases N_COLUMNS - col,
        {
            let mut row: usize = 0;
            while row + 3 < N_ROWS
                invariant
                    self.wf(),
                    g == grid_of(*self),
                    piece == cell_of(p),
                    col < N_COLUMNS,
                    row + 3 <= N_ROWS,
                    forall|r: int| 0 <= r < row ==> !vert_win_at(g, p, r, col as int),
                decreases N_ROWS - row,
            {
                let c0 = self.cell_at(row, col);
                let c1 = self.cell_at(row + 1, col);
                let c2 = self.cell_at(row + 2, col);
                let c3 = self.cell_at(row + 3, col);
                proof {
                    assert(at(g, row as int + 0, col as int) == c0);
                    assert(at(g, row as int + 1, col as int) == c1);
                    assert(at(g, row as int + 2, col as int) == c2);
                    assert(at(g, row as int + 3, col as int) == c3);
                }
                if c0 == piece && c1 == piece && c2 == piece && c3 == piece {
                    proof {
                        assert forall|k: int| 0 <= k < 4 implies #[trigger] at(
                            g,
                            row as int + k,
                            col as int,
                        ) == cell_of(p) by {
                            if k == 0 {
                            } else if k == 1 {
                            } else if k == 2 {
                            }
                        }
                        assert(vert_win_at(g, p, row as int, col as int));
                    }
                    return true;
                }
                proof {
                    assert(!vert_win_at(g, p, row as int, col as int));
                }
                row = row + 1;
            }
            col = col + 1;
        }
        false
    }

    /// Whether some ascending diagonal of the grid holds four pieces of `p`.
    fn check_diag_up(&self, p: Player) -> (found: bool)
        requires
            self.wf(),
        ensures
            found == exists|row: int, col: int| diag_up_win_at(grid_of(*self), p, row, col),
    {
        let ghost g = grid_of(*self);
        let piece = p.piece();
        let mut row: usize = 0;
        while row + 3 < N_ROWS
            invariant
                self.wf(),
                g == grid_of(*self),
                piece == cell_of(p),
                row + 3 <= N_ROWS,
                forall|r: int, c: int| 0 <= r < row ==> !diag_up_win_at(g, p, r, c),
            decreases N_ROWS - row,
        {
            let mut col: usize = 0;
            while col + 3 < N_COLUMNS
                invariant
                    self.wf(),
                    g == grid_of(*self),
                    piece == cell_of(p),
                    row + 3 < N_ROWS,
                    col + 3 <= N_COLUMNS,
                    forall|c: int| 0 <= c < col ==> !diag_up_win_at(g, p, row as int, c),
                decreases N_COLUMNS - col,
            {
                let c0 = self.cell_at(row, col);
                let c1 = self.cell_at(row + 1, col + 1);
                let c2 = self.cell_at(row + 2, col + 2);
                let c3 = self.cell_at(row + 3, col + 3);
                proof {
                    assert(at(g, row as int + 0, col as int + 0) == c0);
                    assert(at(g, row as int + 1, col as int + 1) == c1);
                    assert(at(g, row as int + 2, col as int + 2) == c2);
                    assert(at(g, row as int + 3, col as int + 3) == c3);
                }
                if c0 == piece && c1 == piece && c2 == piece && c3 == piece {
                    proof {
                        assert forall|k: int| 0 <= k < 4 implies #[trigger] at(
                            g,
                            row as int + k,
                            col as int + k,
                        ) == cell_of(p) by {
                            if k == 0 {
                            } else if k == 1 {
                            } else if k == 2 {
                            }
                        }
                        assert(diag_up_win_at(g, p, row as int, col as int));
                    }
                    return true;
                }
                proof {
                    assert(!diag_up_win_at(g, p, row as int, col as int));
                }
                col = col + 1;
            }
            row = row + 1;
        }
        false
    }

    /// Whether some descending diagonal of the grid holds four pieces of `p`.
    fn check_diag_down(&self, p: Player) -> (found: bool)
        requires
            self.wf(),
        ensures
            found == exists|row: int, col: int| diag_down_win_at(grid_of(*self), p, row, col),
    {
        let ghost g = grid_of(*self);
        let piece = p.piece();
        let mut row: usize = 3;
        while row < N_ROWS
            invariant
                self.wf(),
                g == grid_of(*self),
                piece == cell_of(p),
                3 <= row <= N_ROWS,
                forall|r: int, c: int| 3 <= r < row ==> !diag_down_win_at(g, p, r, c),
            decreases N_ROWS - row,
        {
            let mut col: usize = 0;
            while col + 3 < N_COLUMNS
                invariant
                    self.wf(),
                    g == grid_of(*self),
                    piece == cell_of(p),
                    3 <= row < N_ROWS,
                    col + 3 <= N_COLUMNS,
                    forall|c: int| 0 <= c < col ==> !diag_down_win_at(g, p, row as int, c),
                decreases N_COLUMNS - col,
            {
                let c0 = self.cell_at(row, col);
                let c1 = self.cell_at(row - 1, col + 1);
                let c2 = self.cell_at(row - 2, col + 2);
                let c3 = self.cell_at(row - 3, col + 3);
                proof {
                    assert(at(g, row as int - 0, col as int + 0) == c0);
                    assert(at(g, row as int - 1, col as int + 1) == c1);
                    assert(at(g, row as int - 2, col as int + 2) == c2);
                    assert(at(g, row as int - 3, col as int + 3) == c3);
                }
                if c0 == piece && c1 == piece && c2 == piece && c3 == piece {
                    proof {
                        assert forall|k: int| 0 <= k < 4 implies #[trigger] at(
                            g,
                            row as int - k,
                            col as int + k,
                        ) == cell_of(p) by {
                            if k == 0 {
                            } else if k == 1 {
                            } else if k == 2 {
                            }
                        }
                        assert(diag_down_win_at(g, p, row as int, col as int));
                    }
                    return true;
                }
                proof {
                    assert(!diag_down_win_at(g, p, row as int, col as int));
                }
                col = col + 1;
            }
            row = row + 1;
        }
        false
    }
}

/// A horizontal four-in-a-row of `p`, with no run of the opponent anywhere,
/// is reported as `p`'s win.
pub proof fn lemma_horizontal_win(g: Seq<Seq<Cell>>, p: Player, row: int, col: int)
    requires
        horiz_win_at(g, p, row, col),
        !wins(g, other_player(p)),
    ensures
        result_of(g) == Some(win_of(p)),
{
    assert(wins(g, p));
}

/// A vertical four-in-a-row of `p`, with no run of the opponent anywhere,
/// is reported as `p`'s win.
pub proof fn lemma_vertical_win(g: Seq<Seq<Cell>>, p: Player, row: int, col: int)
    requires
        vert_win_at(g, p, row, col),
        !wins(g, other_player(p)),
    ensures
        result_of(g) == Some(win_of(p)),
{
    assert(wins(g, p));
}

/// A diagonal four-in-a-row of `p`, in either orientation, with no run of
/// the opponent anywhere, is reported as `p`'s win.
pub proof fn lemma_diagonal_win(g: Seq<Seq<Cell>>, p: Player, row: int, col: int)
    requires
        diag_up_win_at(g, p, row, col) || diag_down_win_at(g, p, row, col),
        !wins(g, other_player(p)),
    ensures
        result_of(g) == Some(win_of(p)),
{
    assert(wins(g, p));
}

/// A fully occupied grid on which neither player owns a run is reported as
/// a tie.
pub proof fn lemma_tie(g: Seq<Seq<Cell>>)
    requires
        grid_full(g),
        !wins(g, Player::Red),
        !wins(g, Player::Blue),
    ensures
        result_of(g) == Some(GameResult::Tie),
{
}

/// A tie is never reported while either player owns a winning run, even on
/// a grid that is full at the same time: the win takes precedence.
pub proof fn lemma_win_precedes_tie(g: Seq<Seq<Cell>>, p: Player)
    requires
        wins(g, p),
    ensures
        result_of(g).is_some(),
        result_of(g) != Some(GameResult::Tie),
{
}

/// A winning run decides even on a grid that is full at the same moment:
/// the result is `p`'s win, never the tie. Stated for `p` red, who is
/// reported first, or for a `p` whose opponent owns no run; when both
/// players own runs the red win is reported.
pub proof fn lemma_win_on_full_grid(g: Seq<Seq<Cell>>, p: Player)
    requires
        grid_full(g),
        wins(g, p),
        p == Player::Red || !wins(g, other_player(p)),
    ensures
        result_of(g) == Some(win_of(p)),
        result_of(g) != Some(GameResult::Tie),
{
}

impl Default for Board {
    /// An empty board of full width.
    fn default() -> (board: Self)
        ensures
            board.wf(),
            forall|row: int, col: int|
                0 <= row < N_ROWS && 0 <= col < N_COLUMNS
                    ==> #[trigger] at(grid_of(board), row, col) == Cell::Empty,
            forall|j: int| 0 <= j < N_COLUMNS ==> (#[trigger] board.columns@[j]).index == 0,
    {
        let mut columns: Vec<Column> = Vec::new();
        while columns.len() < N_COLUMNS
            invariant
                columns@.len() <= N_COLUMNS,
                forall|j: int| 0 <= j < columns@.len() ==> (#[trigger] columns@[j]).wf(),
                forall|j: int| 0 <= j < columns@.len() ==> (#[trigger] columns@[j]).index == 0,
                forall|j: int, i: int|
                    0 <= j < columns@.len() && 0 <= i < N_ROWS
                        ==> #[trigger] columns@[j].cells@[i] == Cell::Empty,
            decreases N_COLUMNS - columns.len(),
        {
            columns.push(Column::default());
        }
        Board { columns }
    }
}

} // verus!
