//! The turn state machine: alternating players drop pieces until the board
//! reports a win or a tie.
//!
//! A turn is driven by a column selection counted from one, as a player
//! enters it. A selection outside the board or aimed at a full column is
//! rejected without any change to the game, which models the re-prompt of
//! the interactive loop.

use vstd::prelude::*;

use crate::N_COLUMNS;
use crate::N_ROWS;
use crate::board::Board;
use crate::board::at;
use crate::board::grid_drop;
use crate::board::grid_of;
use crate::board::grid_wf;
use crate::board::result_of;
use crate::cell::Cell;
use crate::cell::GameResult;
use crate::cell::Player;
use crate::cell::other_player;
use crate::column::fill_of;
use crate::column::lemma_fill_le_len;
use crate::column::lemma_fill_of_stacked;

verus! {

/// Whether `sel`, a column selection counted from one, names a column of
/// grid `g` with room for another piece.
pub open spec fn sel_valid(g: Seq<Seq<Cell>>, sel: usize) -> bool {
    &&& 1 <= sel <= N_COLUMNS
    &&& fill_of(g[sel as int - 1]) < N_ROWS
}

/// The player to move and the grid after one selection: a valid one drops
/// the mover's piece and passes the turn, an invalid one changes nothing.
pub open spec fn turn_spec(p: Player, g: Seq<Seq<Cell>>, sel: usize) -> (Player, Seq<Seq<Cell>>) {
    if sel_valid(g, sel) {
        (other_player(p), grid_drop(g, sel as int - 1, p))
    } else {
        (p, g)
    }
}

/// The player to move, the grid, and the reported outcome after the
/// selections `sels` are offered in order: invalid ones are skipped, each
/// applied one is followed by a result check, and the first terminal result
/// ends play with the remaining selections unused.
pub open spec fn play_spec(p: Player, g: Seq<Seq<Cell>>, sels: Seq<usize>) -> (
    Player,
    Seq<Seq<Cell>>,
    Option<GameResult>,
)
    decreases sels.len(),
{
    if sels.len() == 0 {
        (p, g, Option::<GameResult>::None)
    } else {
        let sel = sels[0];
        let rest = sels.subrange(1, sels.len() as int);
        if sel_valid(g, sel) {
            let g2 = grid_drop(g, sel as int - 1, p);
            let p2 = other_player(p);
            if result_of(g2).is_some() {
                (p2, g2, result_of(g2))
            } else {
                play_spec(p2, g2, rest)
            }
        } else {
            play_spec(p, g, rest)
        }
    }
}

/// One game: the board and the player whose turn is next.
#[derive(Debug)]
pub struct Game {
    pub next_player: Player,
    pub board: Board,
}

impl Game {
    /// A game is well formed when its board is.
    pub open spec fn wf(self) -> bool {
        self.board.wf()
    }

    /// A fresh game: an empty board, with the blue player to move first.
    pub fn new() -> (game: Game)
        ensures
            game.wf(),
            game.next_player == Player::Blue,
            forall|row: int, col: int|
                0 <= row < N_ROWS && 0 <= col < N_COLUMNS
                    ==> #[trigger] at(grid_of(game.board), row, col) == Cell::Empty,
    {
        Game { next_player: Player::Blue, board: Board::default() }
    }

    /// Offer one column selection, counted from one, to the player whose
    /// turn it is: a valid one drops that player's piece and passes the
    /// turn; one outside the board or aimed at a full column is rejected
    /// and the game is left exactly as it was.
    pub fn play_turn(&mut self, selection: usize) -> (applied: bool)
        requires
            old(self).wf(),
        ensures
            final(self).wf(),
            applied == sel_valid(grid_of(old(self).board), selection),
            ({
                let (p2, g2) = turn_spec(old(self).next_player, grid_of(old(self).board), selection);
                final(self).next_player == p2 && grid_of(final(self).board) == g2
            }),
    {
        if selection == 0 || selection > N_COLUMNS {
            return false;
        }
        let j = selection - 1;
        proof {
            lemma_fill_of_stacked(
                self.board.columns@[j as int].cells@,
                self.board.columns@[j as int].index as int,
            );
        }
        if self.column_is_full(j) {
            return false;
        }
        let dropped = self.board.drop_piece(j, self.next_player);
        proof {
            assert(dropped == Ok::<(), crate::board::DropError>(()));
        }
        self.next_player = self.next_player.other();
        true
    }

    /// Whether the column at `j`, counted from zero, is full.
    fn column_is_full(&self, j: usize) -> (full: bool)
        requires
            self.wf(),
            j < N_COLUMNS,
        ensures
            full == self.board.columns@[j as int].spec_is_full(),
    {
        self.board.columns[j].is_full()
    }

    /// Offer the selections to the alternating players in order, skipping
    /// invalid ones, and stop at the first terminal result; `None` means
    /// the selections ran out while the game was still open.
    pub fn play(&mut self, selections: &Vec<usize>) -> (r: Option<GameResult>)
        requires
            old(self).wf(),
        ensures
            final(self).wf(),
            ({
                let (p2, g2, res) = play_spec(
                    old(self).next_player,
                    grid_of(old(self).board),
                    selections@,
                );
                final(self).next_player == p2 && grid_of(final(self).board) == g2 && r == res
            }),
    {
        let ghost all = selections@;
        let ghost p0 = old(self).next_player;
        let ghost g0 = grid_of(old(self).board);
        let mut i: usize = 0;
        proof {
            assert(all.subrange(0, all.len() as int) =~= all);
        }
        while i < selections.len()
            invariant
                self.wf(),
                all == selections@,
                p0 == old(self).next_player,
                g0 == grid_of(old(self).board),
                i <= all.len(),
                play_spec(p0, g0, all) == play_spec(
                    self.next_player,
                    grid_of(self.board),
                    all.subrange(i as int, all.len() as int),
                ),
            decreases all.len() - i,
        {
            let ghost pre_p = self.next_player;
            let ghost pre_g = grid_of(self.board);
            let ghost rest = all.subrange(i as int, all.len() as int);
            let sel = selections[i];
            proof {
                assert(rest.len() > 0);
                assert(rest[0] == sel);
                assert(rest.subrange(1, rest.len() as int) =~= all.subrange(
                    i as int + 1,
                    all.len() as int,
                ));
            }
            let applied = self.play_turn(sel);
            if applied {
                let result = self.check_for_result();
                proof {
                    let gd = grid_drop(pre_g, sel as int - 1, pre_p);
                    assert(grid_of(self.board) == gd);
                    assert(result == result_of(gd));
                }
                if result.is_some() {
                    proof {
                        let gd = grid_drop(pre_g, sel as int - 1, pre_p);
                        assert(play_spec(pre_p, pre_g, rest) == (
                            self.next_player,
                            gd,
                            result_of(gd),
                        ));
                    }
                    return result;
                }
            }
            proof {
                assert(play_spec(pre_p, pre_g, rest) == play_spec(
                    self.next_player,
                    grid_of(self.board),
                    all.subrange(i as int + 1, all.len() as int),
                ));
            }
            i = i + 1;
        }
        proof {
            assert(all.subrange(all.len() as int, all.len() as int).len() == 0);
        }
        None
    }

    /// The terminal state the board presents, if any: a red win first, then
    /// a blue win, then a tie on a full board.
    pub fn check_for_result(&self) -> (r: Option<GameResult>)
        requires
            self.wf(),
        ensures
            r == result_of(grid_of(self.board)),
    {
        self.board.check_for_result()
    }
}

/// Whatever selections are offered, the grid keeps its dimensions and no
/// column's fill index ever exceeds the number of rows.
pub proof fn lemma_fill_index_bounded(p: Player, g: Seq<Seq<Cell>>, sels: Seq<usize>)
    requires
        grid_wf(g),
    ensures
        ({
            let g2 = play_spec(p, g, sels).1;
            grid_wf(g2) && forall|j: int|
                0 <= j < N_COLUMNS ==> 0 <= (#[trigger] fill_of(g2[j])) <= N_ROWS
        }),
    decreases sels.len(),
{
    if sels.len() == 0 {
        let g2 = play_spec(p, g, sels).1;
        assert forall|j: int| 0 <= j < N_COLUMNS implies 0 <= (#[trigger] fill_of(g2[j]))
            <= N_ROWS by {
            lemma_fill_le_len(g2[j]);
        }
    } else {
        let sel = sels[0];
        let rest = sels.subrange(1, sels.len() as int);
        if sel_valid(g, sel) {
            let gd = grid_drop(g, sel as int - 1, p);
            lemma_fill_le_len(g[sel as int - 1]);
            assert(grid_wf(gd));
            if result_of(gd).is_some() {
                let g2 = play_spec(p, g, sels).1;
                assert(g2 == gd);
                assert forall|j: int| 0 <= j < N_COLUMNS implies 0 <= (#[trigger] fill_of(g2[j]))
                    <= N_ROWS by {
                    lemma_fill_le_len(g2[j]);
                }
            } else {
                lemma_fill_index_bounded(other_player(p), gd, rest);
            }
        } else {
            lemma_fill_index_bounded(p, g, rest);
        }
    }
}

} // verus!
