//! A column of the grid: a fixed-capacity stack of cells with a fill index.
//! Pieces settle at the fill index (index 0 is the bottom row) and the fill
//! index grows by one per drop.

use vstd::prelude::*;

use crate::N_ROWS;
use crate::cell::Cell;
use crate::cell::Player;
use crate::cell::cell_of;

verus! {

/// One vertical slot of the board; pieces stack bottom-up.
#[derive(Clone, Debug)]
pub struct Column {
    /// The cells of this column, bottom row first; always `N_ROWS` long.
    pub cells: Vec<Cell>,
    /// How many cells are occupied: cells below it hold pieces, cells at or
    /// above it are empty.
    pub index: usize,
}

/// The stacked shape of a column's cells around a fill index `idx`:
/// occupied below it, empty at and above it.
pub open spec fn stacked(cells: Seq<Cell>, idx: int) -> bool {
    &&& 0 <= idx <= cells.len()
    &&& forall|i: int| 0 <= i < idx ==> #[trigger] cells[i] != Cell::Empty
    &&& forall|i: int| idx <= i < cells.len() ==> #[trigger] cells[i] == Cell::Empty
}

/// The fill index a stacked column's cells determine: the number of occupied
/// cells counted from the bottom up to the first empty one.
pub open spec fn fill_of(cells: Seq<Cell>) -> int
    decreases cells.len(),
{
    if cells.len() == 0 {
        0
    } else if cells[0] == Cell::Empty {
        0
    } else {
        1 + fill_of(cells.subrange(1, cells.len() as int))
    }
}

/// The fill index never exceeds the column's length.
pub proof fn lemma_fill_le_len(cells: Seq<Cell>)
    ensures
        0 <= fill_of(cells) <= cells.len(),
    decreases cells.len(),
{
    if cells.len() > 0 && cells[0] != Cell::Empty {
        lemma_fill_le_len(cells.subrange(1, cells.len() as int));
    }
}

/// On a stacked column the recovered fill index is the stored one.
pub proof fn lemma_fill_of_stacked(cells: Seq<Cell>, idx: int)
    requires
        stacked(cells, idx),
    ensures
        fill_of(cells) == idx,
    decreases cells.len(),
{
    if cells.len() > 0 && cells[0] != Cell::Empty {
        let tail = cells.subrange(1, cells.len() as int);
        assert(forall|i: int| 0 <= i < tail.len() ==> #[trigger] tail[i] == cells[i + 1]);
        lemma_fill_of_stacked(tail, idx - 1);
    }
}

impl Column {
    /// A column is well formed when it spans the full height and its cells
    /// are stacked around its fill index.
    pub open spec fn wf(self) -> bool {
        &&& self.cells@.len() == N_ROWS
        &&& stacked(self.cells@, self.index as int)
    }

    /// Whether no further piece fits.
    pub open spec fn spec_is_full(self) -> bool {
        self.index == N_ROWS
    }

    /// Whether no further piece fits: the fill index has reached the number
    /// of rows.
    pub fn is_full(&self) -> (full: bool)
        ensures
            full == self.spec_is_full(),
    {
        self.index == N_ROWS
    }

    /// Drop a piece of `piece` into this column: it settles at the fill
    /// index, which then grows by one.
    pub fn drop_piece(&mut self, piece: Player)
        requires
            old(self).wf(),
            !old(self).spec_is_full(),
        ensures
            final(self).wf(),
            final(self).index == old(self).index + 1,
            final(self).cells@ == old(self).cells@.update(
                old(self).index as int,
                cell_of(piece),
            ),
    {
        let new_cell_state = piece.piece();
        self.cells[self.index] = new_cell_state;
        self.index = self.index + 1;
    }
}

impl Default for Column {
    /// An empty column of full height.
    fn default() -> (column: Self)
        ensures
            column.wf(),
            column.index == 0,
            column.cells@ == Seq::new(N_ROWS as nat, |i: int| Cell::Empty),
    {
        let mut cells: Vec<Cell> = Vec::new();
        while cells.len() < N_ROWS
            invariant
                cells@.len() <= N_ROWS,
                forall|i: int| 0 <= i < cells@.len() ==> #[trigger] cells@[i] == Cell::Empty,
            decreases N_ROWS - cells.len(),
        {
            cells.push(Cell::Empty);
        }
        proof {
            assert(cells@ =~= Seq::new(N_ROWS as nat, |i: int| Cell::Empty));
        }
        Self { cells, index: 0 }
    }
}

} // verus!
