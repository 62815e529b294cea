//! Rendering the board as text: a header of column numbers between two
//! separator lines, then one line per row, top row first, with one colored
//! marker per cell.
//!
//! The colors come from the colorize crate, whose reset sequence depends on
//! the global colors it keeps per thread; a marker is therefore specified by
//! its exact escape prefix and glyph, with the reset left open. The grid
//! projection itself, `render_with_markers`, is an exact function of the
//! board and the three marker texts.

use vstd::prelude::*;
use vstd::string::*;

use colorize::AnsiColor;

use crate::N_COLUMNS;
use crate::N_ROWS;
use crate::board::Board;
use crate::board::at;
use crate::board::grid_of;
use crate::cell::Cell;

verus! {

/// The escape sequence that opens the color a cell is drawn in: black for
/// an empty cell, red and blue for the players' pieces.
pub open spec fn marker_prefix(c: Cell) -> Seq<char> {
    match c {
        Cell::Empty => "\u{1b}[30m"@,
        Cell::Red => "\u{1b}[31m"@,
        Cell::Blue => "\u{1b}[34m"@,
    }
}

/// The shape of a rendered cell marker: the color's escape prefix, the
/// piece glyph, then whatever reset sequence the colorizer appended.
pub open spec fn marker_shape(m: Seq<char>, prefix: Seq<char>) -> bool {
    exists|reset: Seq<char>| m == prefix + "\u{25cf}"@ + reset
}

/// Relies on colorize's `AnsiColor::black` for `&str`: for text that does
/// not itself start with an escape sequence, the result is the black
/// foreground escape code, the text, then a reset sequence built from the
/// global colors colorize keeps per thread.
#[verifier::external_body]
fn paint_black(s: &'static str) -> (r: String)
    requires
        s@.len() < 2 || !(s@[0] == '\u{1b}' && s@[1] == '['),
    ensures
        exists|reset: Seq<char>| r@ == "\u{1b}[30m"@ + s@ + reset,
{
    s.black()
}

/// Relies on colorize's `AnsiColor::red` for `&str`: as `paint_black`, with
/// the red foreground escape code.
#[verifier::external_body]
fn paint_red(s: &'static str) -> (r: String)
    requires
        s@.len() < 2 || !(s@[0] == '\u{1b}' && s@[1] == '['),
    ensures
        exists|reset: Seq<char>| r@ == "\u{1b}[31m"@ + s@ + reset,
{
    s.red()
}

/// Relies on colorize's `AnsiColor::blue` for `&str`: as `paint_black`,
/// with the blue foreground escape code.
#[verifier::external_body]
fn paint_blue(s: &'static str) -> (r: String)
    requires
        s@.len() < 2 || !(s@[0] == '\u{1b}' && s@[1] == '['),
    ensures
        exists|reset: Seq<char>| r@ == "\u{1b}[34m"@ + s@ + reset,
{
    s.blue()
}

/// The marker a cell is drawn as: the piece glyph in the cell's color.
pub fn render_cell(c: Cell) -> (m: String)
    ensures
        marker_shape(m@, marker_prefix(c)),
{
    proof {
        reveal_strlit("\u{25cf}");
    }
    match c {
        Cell::Empty => paint_black("\u{25cf}"),
        Cell::Red => paint_red("\u{25cf}"),
        Cell::Blue => paint_blue("\u{25cf}"),
    }
}

/// The marker text a cell is drawn as, given the three marker texts.
pub open spec fn marker_text(c: Cell, empty: Seq<char>, red: Seq<char>, blue: Seq<char>) -> Seq<
    char,
> {
    match c {
        Cell::Empty => empty,
        Cell::Red => red,
        Cell::Blue => blue,
    }
}

/// The first `j` cells of `row` of grid `g`, each drawn as a framed marker.
pub open spec fn row_cells_spec(
    g: Seq<Seq<Cell>>,
    row: int,
    empty: Seq<char>,
    red: Seq<char>,
    blue: Seq<char>,
    j: int,
) -> Seq<char>
    decreases j,
{
    if j <= 0 {
        Seq::empty()
    } else {
        row_cells_spec(g, row, empty, red, blue, j - 1) + "| "@ + marker_text(
            at(g, row, j - 1),
            empty,
            red,
            blue,
        ) + " "@
    }
}

/// The topmost `k` rows of grid `g`, each drawn as a line of framed
/// markers, top row first.
pub open spec fn rows_spec(
    g: Seq<Seq<Cell>>,
    empty: Seq<char>,
    red: Seq<char>,
    blue: Seq<char>,
    k: int,
) -> Seq<char>
    decreases k,
{
    if k <= 0 {
        Seq::empty()
    } else {
        rows_spec(g, empty, red, blue, k - 1) + row_cells_spec(
            g,
            N_ROWS - k,
            empty,
            red,
            blue,
            N_COLUMNS as int,
        ) + "|\n"@
    }
}

/// The whole rendering of grid `g` with the given marker texts: a header
/// of column numbers between two separator lines, the rows top first, and
/// a closing separator line.
pub open spec fn render_spec(
    g: Seq<Seq<Cell>>,
    empty: Seq<char>,
    red: Seq<char>,
    blue: Seq<char>,
) -> Seq<char> {
    "-------------------------------------\n| 1 | 2 | 3 | 4 | 5 | 6 | 7 | 8 | 9 |\n-------------------------------------\n"@
        + rows_spec(g, empty, red, blue, N_ROWS as int)
        + "-------------------------------------\n"@
}

impl Board {
    /// Draw the board with the given cell marker texts: an exact, read-only
    /// projection of the grid, so equal boards and markers always yield
    /// equal text.
    pub fn render_with_markers(&self, empty: &str, red: &str, blue: &str) -> (out: String)
        requires
            self.wf(),
        ensures
            out@ == render_spec(grid_of(*self), empty@, red@, blue@),
    {
        let ghost g = grid_of(*self);
        let ghost e = empty@;
        let ghost r = red@;
        let ghost b = blue@;
        let mut out = String::new();
        out.append(
            "-------------------------------------\n| 1 | 2 | 3 | 4 | 5 | 6 | 7 | 8 | 9 |\n-------------------------------------\n",
        );
        let ghost header = out@;
        let mut k: usize = 0;
        while k < N_ROWS
            invariant
                self.wf(),
                g == grid_of(*self),
                e == empty@,
                r == red@,
                b == blue@,
                k <= N_ROWS,
                out@ == header + rows_spec(g, e, r, b, k as int),
            decreases N_ROWS - k,
        {
            let row = N_ROWS - 1 - k;
            let ghost row_start = out@;
            let mut j: usize = 0;
            while j < N_COLUMNS
                invariant
                    self.wf(),
                    g == grid_of(*self),
                    e == empty@,
                    r == red@,
                    b == blue@,
                    row == N_ROWS - 1 - k,
                    k < N_ROWS,
                    j <= N_COLUMNS,
                    row_start == header + rows_spec(g, e, r, b, k as int),
                    out@ == row_start + row_cells_spec(g, row as int, e, r, b, j as int),
                decreases N_COLUMNS - j,
            {
                out.append("| ");
                let c = self.cell_at(row, j);
                match c {
                    Cell::Empty => out.append(empty),
                    Cell::Red => out.append(red),
                    Cell::Blue => out.append(blue),
                }
                out.append(" ");
                proof {
                    assert(out@ =~= row_start + row_cells_spec(
                        g,
                        row as int,
                        e,
                        r,
                        b,
                        j as int + 1,
                    ));
                }
                j = j + 1;
            }
            out.append("|\n");
            proof {
                assert(out@ =~= header + rows_spec(g, e, r, b, k as int + 1));
            }
            k = k + 1;
        }
        out.append("-------------------------------------\n");
        proof {
            assert(out@ =~= render_spec(g, e, r, b));
        }
        out
    }

    /// Draw the board with the standard colored markers: black for empty
    /// cells, red and blue for the players' pieces.
    pub fn render(&self) -> (out: String)
        requires
            self.wf(),
        ensures
            exists|e: Seq<char>, r: Seq<char>, b: Seq<char>|
                marker_shape(e, marker_prefix(Cell::Empty)) && marker_shape(
                    r,
                    marker_prefix(Cell::Red),
                ) && marker_shape(b, marker_prefix(Cell::Blue)) && out@ == render_spec(
                    grid_of(*self),
                    e,
                    r,
                    b,
                ),
    {
        let empty = render_cell(Cell::Empty);
        let red = render_cell(Cell::Red);
        let blue = render_cell(Cell::Blue);
        let out = self.render_with_markers(empty.as_str(), red.as_str(), blue.as_str());
        proof {
            assert(marker_shape(empty@, marker_prefix(Cell::Empty)) && marker_shape(
                red@,
                marker_prefix(Cell::Red),
            ) && marker_shape(blue@, marker_prefix(Cell::Blue)) && out@ == render_spec(
                grid_of(*self),
                empty@,
                red@,
                blue@,
            ));
        }
        out
    }
}

} // verus!
