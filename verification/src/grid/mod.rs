//! Grids of cells that can be read and written one cell at a time.

pub mod standard;

pub use standard::StandardGrid;

use crate::board::{
    count_rows, count_true, lemma_count_rows_bound, lemma_count_rows_push,
    lemma_count_true_bound, lemma_count_true_push, Board,
};
use vstd::prelude::*;

verus! {

/// A rectangle of cells. Reading or writing a cell outside it is an error
/// of the caller.
pub trait Grid {
    /// The generation that the grid holds.
    spec fn board(&self) -> Board;

    /// The grid's own invariant.
    spec fn wf(&self) -> bool;

    /// Cells per row. A grid that meets its invariant holds a well-formed
    /// board whose cells can be counted in a `usize`.
    fn width(&self) -> (width: usize)
        requires
            self.wf(),
        ensures
            width == self.board().width,
            self.board().wf(),
            self.board().width * self.board().height() <= usize::MAX,
    ;

    /// Rows. A grid that meets its invariant holds a well-formed board whose
    /// cells can be counted in a `usize`.
    fn height(&self) -> (height: usize)
        requires
            self.wf(),
        ensures
            height == self.board().height(),
            self.board().wf(),
            self.board().width * self.board().height() <= usize::MAX,
    ;

    /// Whether the cell is alive.
    fn get_cell(&self, row: usize, col: usize) -> (alive: bool)
        requires
            self.wf(),
            row < self.board().height(),
            col < self.board().width,
        ensures
            alive == self.board().alive(row as int, col as int),
    ;

    /// Makes the cell alive or dead.
    fn set_cell(&mut self, row: usize, col: usize, alive: bool)
        requires
            old(self).wf(),
            row < old(self).board().height(),
            col < old(self).board().width,
        ensures
            final(self).wf(),
            final(self).board() == old(self).board().with_cell(row as int, col as int, alive),
    ;

    /// Makes every cell dead.
    fn clear(&mut self)
        requires
            old(self).wf(),
        ensures
            final(self).wf(),
            final(self).board() == Board::empty(
                old(self).board().width,
                old(self).board().height(),
            ),
    ;

    /// The number of cells.
    fn total_cells(&self) -> (total: usize)
        requires
            self.wf(),
        ensures
            total == self.board().width * self.board().height(),
    {
        self.width() * self.height()
    }

    /// Whether the cell `row_step - 1` rows below and `col_step - 1` columns east
    /// of `(row, col)` is inside the grid and alive.
    fn alive_beside(&self, row: usize, col: usize, row_step: usize, col_step: usize) -> (alive: bool)
        requires
            self.wf(),
            row_step < 3,
            col_step < 3,
        ensures
            alive == self.board().alive(row + row_step - 1, col + col_step - 1),
    {
        let height: usize = self.height();
        let width: usize = self.width();
        let row_inside: bool = if row_step == 0 {
            row >= 1 && row - 1 < height
        } else if row_step == 1 {
            row < height
        } else {
            row < height && row + 1 < height
        };
        let col_inside: bool = if col_step == 0 {
            col >= 1 && col - 1 < width
        } else if col_step == 1 {
            col < width
        } else {
            col < width && col + 1 < width
        };
        if row_inside && col_inside {
            self.get_cell(row + row_step - 1, col + col_step - 1)
        } else {
            false
        }
    }

    /// How many of the eight cells around `(row, col)` are alive. Positions
    /// outside the grid count as dead: the grid does not wrap around.
    fn count_neighbors(&self, row: usize, col: usize) -> (count: u8)
        requires
            self.wf(),
        ensures
            count == self.board().neighbor_count(row as int, col as int),
    {
        let mut count: u8 = 0;
        if self.alive_beside(row, col, 0, 0) {
            count += 1;
        }
        if self.alive_beside(row, col, 0, 1) {
            count += 1;
        }
        if self.alive_beside(row, col, 0, 2) {
            count += 1;
        }
        if self.alive_beside(row, col, 1, 0) {
            count += 1;
        }
        if self.alive_beside(row, col, 1, 2) {
            count += 1;
        }
        if self.alive_beside(row, col, 2, 0) {
            count += 1;
        }
        if self.alive_beside(row, col, 2, 1) {
            count += 1;
        }
        if self.alive_beside(row, col, 2, 2) {
            count += 1;
        }
        count
    }

    /// The number of live cells.
    fn count_live_cells(&self) -> (count: usize)
        requires
            self.wf(),
        ensures
            count == self.board().live_count(),
    {
        let height: usize = self.height();
        let width: usize = self.width();
        let ghost board = self.board();
        let mut count: usize = 0;
        let mut row: usize = 0;
        while row < height
            invariant
                self.wf(),
                board == self.board(),
                board.wf(),
                board.width * board.height() <= usize::MAX,
                height == board.height(),
                width == board.width,
                row <= height,
                count == count_rows(board.rows.take(row as int)),
            decreases height - row,
        {
            let mut col: usize = 0;
            while col < width
                invariant
                    self.wf(),
                    board == self.board(),
                    board.wf(),
                    board.width * board.height() <= usize::MAX,
                    height == board.height(),
                    width == board.width,
                    row < height,
                    col <= width,
                    count == count_rows(board.rows.take(row as int)) + count_true(
                        board.rows[row as int].take(col as int),
                    ),
                decreases width - col,
            {
                proof {
                    lemma_count_true_push(board.rows[row as int], col as int);
                    lemma_live_prefix_bound(board, row as int, col as int + 1);
                }
                if self.get_cell(row, col) {
                    count += 1;
                }
                col += 1;
            }
            proof {
                assert(board.rows[row as int].take(col as int) =~= board.rows[row as int]);
                lemma_count_rows_push(board.rows, row as int);
            }
            row += 1;
        }
        proof {
            assert(board.rows.take(row as int) =~= board.rows);
        }
        count
    }
}

/// The live cells before position `(row, col)` in reading order are no more
/// than the cells before it.
pub proof fn lemma_live_prefix_bound(board: Board, row: int, col: int)
    requires
        board.wf(),
        0 <= row < board.height(),
        0 <= col <= board.width,
    ensures
        count_rows(board.rows.take(row)) + count_true(board.rows[row].take(col)) <= row
            * board.width + col <= board.width * board.height(),
{
    lemma_count_rows_bound(board.rows.take(row), board.width);
    lemma_count_true_bound(board.rows[row].take(col));
    let w = board.width as int;
    let h = board.height() as int;
    assert(row * w + col <= w * h) by (nonlinear_arith)
        requires
            0 <= row < h,
            0 <= col <= w,
    ;
}

} // verus!
