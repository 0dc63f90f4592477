//! The mathematical model of a bounded Life universe.
//!
//! A [`Board`] is a rectangle of cells, each dead or alive, with nothing but
//! dead cells beyond its edges: the universe does not wrap around.

use vstd::prelude::*;

verus! {

/// One for a live cell, zero for a dead one.
pub open spec fn indicator(alive: bool) -> nat {
    if alive {
        1
    } else {
        0
    }
}

/// Conway's rule: a cell lives in the next generation when it has exactly
/// three live neighbours, or when it is alive and has exactly two.
pub open spec fn life_rule(alive: bool, neighbors: int) -> bool {
    neighbors == 3 || (alive && neighbors == 2)
}

/// The number of `true` entries of a sequence.
pub open spec fn count_true(cells: Seq<bool>) -> nat
    decreases cells.len(),
{
    if cells.len() == 0 {
        0
    } else {
        count_true(cells.drop_last()) + indicator(cells.last())
    }
}

/// The number of `true` entries of all the rows together.
pub open spec fn count_rows(rows: Seq<Seq<bool>>) -> nat
    decreases rows.len(),
{
    if rows.len() == 0 {
        0
    } else {
        count_rows(rows.drop_last()) + count_true(rows.last())
    }
}

/// A generation: `rows[row][col]` says whether the cell is alive.
pub struct Board {
    pub width: nat,
    pub rows: Seq<Seq<bool>>,
}

impl Board {
    pub open spec fn height(self) -> nat {
        self.rows.len()
    }

    /// Every row has the board's width.
    pub open spec fn wf(self) -> bool {
        forall|row: int| 0 <= row < self.rows.len() ==> (#[trigger] self.rows[row]).len() == self.width
    }

    pub open spec fn contains(self, row: int, col: int) -> bool {
        0 <= row < self.height() && 0 <= col < self.width
    }

    /// Whether the cell is alive; a cell outside the board is dead.
    pub open spec fn alive(self, row: int, col: int) -> bool {
        self.contains(row, col) && self.rows[row][col]
    }

    /// The board of the given size with no live cell.
    pub open spec fn empty(width: nat, height: nat) -> Board {
        Board { width, rows: Seq::new(height, |row: int| Seq::new(width, |col: int| false)) }
    }

    /// The board of the given size that has this board's cells where the
    /// two overlap and dead cells elsewhere.
    pub open spec fn clipped(self, width: nat, height: nat) -> Board {
        Board {
            width,
            rows: Seq::new(height, |row: int| Seq::new(width, |col: int| self.alive(row, col))),
        }
    }

    /// The board with one cell replaced.
    pub open spec fn with_cell(self, row: int, col: int, alive: bool) -> Board {
        Board { width: self.width, rows: self.rows.update(row, self.rows[row].update(col, alive)) }
    }

    /// How many of the eight cells around `(row, col)` are alive.
    pub open spec fn neighbor_count(self, row: int, col: int) -> nat {
        indicator(self.alive(row - 1, col - 1)) + indicator(self.alive(row - 1, col)) + indicator(
            self.alive(row - 1, col + 1),
        ) + indicator(self.alive(row, col - 1)) + indicator(self.alive(row, col + 1)) + indicator(
            self.alive(row + 1, col - 1),
        ) + indicator(self.alive(row + 1, col)) + indicator(self.alive(row + 1, col + 1))
    }

    /// Whether the cell is alive in the next generation.
    pub open spec fn next_alive(self, row: int, col: int) -> bool {
        self.contains(row, col) && life_rule(
            self.alive(row, col),
            self.neighbor_count(row, col) as int,
        )
    }

    /// The next generation.
    pub open spec fn next(self) -> Board {
        Board {
            width: self.width,
            rows: Seq::new(
                self.height(),
                |row: int| Seq::new(self.width, |col: int| self.next_alive(row, col)),
            ),
        }
    }

    /// The generation reached after `n` steps.
    pub open spec fn steps(self, n: nat) -> Board
        decreases n,
    {
        if n == 0 {
            self
        } else {
            self.steps((n - 1) as nat).next()
        }
    }

    /// The number of live cells.
    pub open spec fn live_count(self) -> nat {
        count_rows(self.rows)
    }
}

/// Counting one more entry adds that entry's indicator.
pub proof fn lemma_count_true_push(cells: Seq<bool>, n: int)
    requires
        0 <= n < cells.len(),
    ensures
        count_true(cells.take(n + 1)) == count_true(cells.take(n)) + indicator(cells[n]),
{
    assert(cells.take(n + 1).drop_last() =~= cells.take(n));
}

/// Counting one more row adds that row's count.
pub proof fn lemma_count_rows_push(rows: Seq<Seq<bool>>, n: int)
    requires
        0 <= n < rows.len(),
    ensures
        count_rows(rows.take(n + 1)) == count_rows(rows.take(n)) + count_true(rows[n]),
{
    assert(rows.take(n + 1).drop_last() =~= rows.take(n));
}

/// A sequence has no more `true` entries than entries.
pub proof fn lemma_count_true_bound(cells: Seq<bool>)
    ensures
        count_true(cells) <= cells.len(),
    decreases cells.len(),
{
    if cells.len() > 0 {
        lemma_count_true_bound(cells.drop_last());
    }
}

/// Rows of a common width hold at most `rows * width` live cells.
pub proof fn lemma_count_rows_bound(rows: Seq<Seq<bool>>, width: nat)
    requires
        forall|row: int| 0 <= row < rows.len() ==> (#[trigger] rows[row]).len() == width,
    ensures
        count_rows(rows) <= rows.len() * width,
    decreases rows.len(),
{
    if rows.len() > 0 {
        lemma_count_rows_bound(rows.drop_last(), width);
        lemma_count_true_bound(rows.last());
        assert(rows.len() * width == (rows.len() - 1) * width + width) by (nonlinear_arith);
    }
}

/// A sequence of dead cells counts zero.
pub proof fn lemma_count_true_none(cells: Seq<bool>)
    requires
        forall|i: int| 0 <= i < cells.len() ==> !cells[i],
    ensures
        count_true(cells) == 0,
    decreases cells.len(),
{
    if cells.len() > 0 {
        lemma_count_true_none(cells.drop_last());
    }
}

/// Rows of dead cells count zero.
pub proof fn lemma_count_rows_none(rows: Seq<Seq<bool>>)
    requires
        forall|row: int, col: int|
            0 <= row < rows.len() && 0 <= col < rows[row].len() ==> !(#[trigger] rows[row][col]),
    ensures
        count_rows(rows) == 0,
    decreases rows.len(),
{
    if rows.len() > 0 {
        lemma_count_rows_none(rows.drop_last());
        lemma_count_true_none(rows.last());
    }
}

/// The empty board is well formed and has no live cell.
pub proof fn lemma_empty_board(width: nat, height: nat)
    ensures
        Board::empty(width, height).wf(),
        Board::empty(width, height).width == width,
        Board::empty(width, height).height() == height,
        Board::empty(width, height).live_count() == 0,
        forall|row: int, col: int| !Board::empty(width, height).alive(row, col),
{
    lemma_count_rows_none(Board::empty(width, height).rows);
}

/// A step keeps the size of a board, and a well-formed board stays so.
pub proof fn lemma_next_shape(board: Board)
    ensures
        board.next().wf(),
        board.next().width == board.width,
        board.next().height() == board.height(),
        forall|row: int, col: int| board.next().alive(row, col) == board.next_alive(row, col),
{
}

/// Stepping `m` times and then `n` times is stepping `m + n` times.
pub proof fn lemma_steps_add(board: Board, m: nat, n: nat)
    ensures
        board.steps(m).steps(n) == board.steps(m + n),
    decreases n,
{
    if n > 0 {
        lemma_steps_add(board, m, (n - 1) as nat);
        assert(((m + n) - 1) as nat == m + ((n - 1) as nat));
    }
}

/// Clipping a board to its own size leaves it as it is.
pub proof fn lemma_clipped_same(board: Board)
    requires
        board.wf(),
    ensures
        board.clipped(board.width, board.height()) == board,
{
    lemma_board_ext(board.clipped(board.width, board.height()), board);
}

/// Two well-formed boards of one size with the same live cells are equal.
pub proof fn lemma_board_ext(a: Board, b: Board)
    requires
        a.wf(),
        b.wf(),
        a.width == b.width,
        a.height() == b.height(),
        forall|row: int, col: int| a.contains(row, col) ==> a.alive(row, col) == b.alive(row, col),
    ensures
        a == b,
{
    assert forall|row: int| 0 <= row < a.rows.len() implies a.rows[row] =~= b.rows[row] by {
        assert forall|col: int| 0 <= col < a.rows[row].len() implies a.rows[row][col]
            == b.rows[row][col] by {
            assert(a.contains(row, col));
            assert(a.alive(row, col) == b.alive(row, col));
        }
    }
    assert(a.rows =~= b.rows);
}

/// Replacing one entry changes the count by the difference of the two
/// entries.
pub proof fn lemma_count_true_update(cells: Seq<bool>, index: int, alive: bool)
    requires
        0 <= index < cells.len(),
    ensures
        count_true(cells.update(index, alive)) + indicator(cells[index]) == count_true(cells)
            + indicator(alive),
    decreases cells.len(),
{
    let updated = cells.update(index, alive);
    if index == cells.len() - 1 {
        assert(updated.drop_last() =~= cells.drop_last());
    } else {
        assert(updated.drop_last() =~= cells.drop_last().update(index, alive));
        lemma_count_true_update(cells.drop_last(), index, alive);
    }
}

/// Replacing one row changes the count by the difference of the two rows.
pub proof fn lemma_count_rows_update(rows: Seq<Seq<bool>>, index: int, row: Seq<bool>)
    requires
        0 <= index < rows.len(),
    ensures
        count_rows(rows.update(index, row)) + count_true(rows[index]) == count_rows(rows)
            + count_true(row),
    decreases rows.len(),
{
    let updated = rows.update(index, row);
    if index == rows.len() - 1 {
        assert(updated.drop_last() =~= rows.drop_last());
    } else {
        assert(updated.drop_last() =~= rows.drop_last().update(index, row));
        lemma_count_rows_update(rows.drop_last(), index, row);
    }
}

/// Replacing one cell changes the number of live cells by the difference of
/// the two states, and keeps the board's shape.
pub proof fn lemma_with_cell(board: Board, row: int, col: int, alive: bool)
    requires
        board.wf(),
        board.contains(row, col),
    ensures
        board.with_cell(row, col, alive).wf(),
        board.with_cell(row, col, alive).width == board.width,
        board.with_cell(row, col, alive).height() == board.height(),
        board.with_cell(row, col, alive).live_count() + indicator(board.alive(row, col))
            == board.live_count() + indicator(alive),
        forall|r: int, c: int|
            board.with_cell(row, col, alive).alive(r, c) == (if r == row && c == col {
                alive
            } else {
                board.alive(r, c)
            }),
{
    lemma_count_true_update(board.rows[row], col, alive);
    lemma_count_rows_update(board.rows, row, board.rows[row].update(col, alive));
}

} // verus!
