//! What Conway's rule does to a few well-known shapes, and how far a cell's
//! influence reaches.

use crate::board::{
    lemma_board_ext, lemma_empty_board, lemma_next_shape, lemma_with_cell, Board,
};
use vstd::prelude::*;

verus! {

/// The board's live cells are exactly the three cells of a horizontal line
/// centred at `(row, col)`.
pub open spec fn is_horizontal_blinker(board: Board, row: int, col: int) -> bool {
    &&& board.wf()
    &&& board.contains(row, col - 1)
    &&& board.contains(row, col + 1)
    &&& forall|r: int, c: int| #[trigger] board.alive(r, c) == (r == row && col - 1 <= c <= col + 1)
}

/// The board's live cells are exactly the three cells of a vertical line
/// centred at `(row, col)`.
pub open spec fn is_vertical_blinker(board: Board, row: int, col: int) -> bool {
    &&& board.wf()
    &&& board.contains(row - 1, col)
    &&& board.contains(row + 1, col)
    &&& forall|r: int, c: int| #[trigger] board.alive(r, c) == (c == col && row - 1 <= r <= row + 1)
}

/// The board's live cells are exactly the four cells of the square whose
/// upper left corner is `(row, col)`.
pub open spec fn is_block(board: Board, row: int, col: int) -> bool {
    &&& board.wf()
    &&& board.contains(row, col)
    &&& board.contains(row + 1, col + 1)
    &&& forall|r: int, c: int|
        #[trigger] board.alive(r, c) == (row <= r <= row + 1 && col <= c <= col + 1)
}

/// The board's only live cell is `(row, col)`.
pub open spec fn is_single_cell(board: Board, row: int, col: int) -> bool {
    &&& board.wf()
    &&& board.contains(row, col)
    &&& forall|r: int, c: int| #[trigger] board.alive(r, c) == (r == row && c == col)
}

/// A board whose live cells are exactly three given cells has three live
/// cells.
pub proof fn lemma_three_cells(board: Board, r1: int, c1: int, r2: int, c2: int, r3: int, c3: int)
    requires
        board.wf(),
        board.contains(r1, c1),
        board.contains(r2, c2),
        board.contains(r3, c3),
        !(r1 == r2 && c1 == c2),
        !(r1 == r3 && c1 == c3),
        !(r2 == r3 && c2 == c3),
        forall|r: int, c: int|
            #[trigger] board.alive(r, c) == ((r == r1 && c == c1) || (r == r2 && c == c2) || (r == r3
                && c == c3)),
    ensures
        board.live_count() == 3,
{
    let none = Board::empty(board.width, board.height());
    lemma_empty_board(board.width, board.height());
    let one = none.with_cell(r1, c1, true);
    lemma_with_cell(none, r1, c1, true);
    let two = one.with_cell(r2, c2, true);
    lemma_with_cell(one, r2, c2, true);
    let three = two.with_cell(r3, c3, true);
    lemma_with_cell(two, r3, c3, true);
    lemma_board_ext(three, board);
}

/// A horizontal blinker with a row above and a row below it turns into the
/// vertical blinker with the same centre, and back: it has three live cells
/// in every generation.
pub proof fn lemma_blinker(board: Board, row: int, col: int)
    requires
        is_horizontal_blinker(board, row, col),
        board.contains(row - 1, col),
        board.contains(row + 1, col),
    ensures
        is_vertical_blinker(board.next(), row, col),
        board.next().next() == board,
        board.steps(2) == board,
        board.live_count() == 3,
        board.next().live_count() == 3,
{
    let turned = board.next();
    lemma_next_shape(board);
    assert forall|r: int, c: int| #[trigger] turned.alive(r, c) == (c == col && row - 1 <= r <= row
        + 1) by {
        assert(turned.alive(r, c) == board.next_alive(r, c));
    }
    let back = turned.next();
    lemma_next_shape(turned);
    assert forall|r: int, c: int| back.contains(r, c) implies back.alive(r, c) == board.alive(
        r,
        c,
    ) by {
        assert(back.alive(r, c) == turned.next_alive(r, c));
    }
    lemma_board_ext(back, board);
    assert(board.steps(2) == board.steps(1).next());
    assert(board.steps(1) == board.steps(0).next());
    lemma_three_cells(board, row, col - 1, row, col, row, col + 1);
    lemma_three_cells(turned, row - 1, col, row, col, row + 1, col);
}

/// A board that its own next generation equals stays as it is for any number
/// of steps.
pub proof fn lemma_still_life(board: Board, n: nat)
    requires
        board.next() == board,
    ensures
        board.steps(n) == board,
    decreases n,
{
    if n > 0 {
        lemma_still_life(board, (n - 1) as nat);
    }
}

/// A block is a still life: it is its own next generation, so it stays as it
/// is, with its four live cells, for any number of steps.
pub proof fn lemma_block(board: Board, row: int, col: int, n: nat)
    requires
        is_block(board, row, col),
    ensures
        board.next() == board,
        board.steps(n) == board,
        board.steps(n).live_count() == 4,
{
    let after = board.next();
    lemma_next_shape(board);
    assert forall|r: int, c: int| after.contains(r, c) implies after.alive(r, c) == board.alive(
        r,
        c,
    ) by {
        assert(after.alive(r, c) == board.next_alive(r, c));
    }
    lemma_board_ext(after, board);
    lemma_still_life(board, n);
    let none = Board::empty(board.width, board.height());
    lemma_empty_board(board.width, board.height());
    let one = none.with_cell(row, col, true);
    lemma_with_cell(none, row, col, true);
    let two = one.with_cell(row, col + 1, true);
    lemma_with_cell(one, row, col + 1, true);
    let three = two.with_cell(row + 1, col, true);
    lemma_with_cell(two, row + 1, col, true);
    let four = three.with_cell(row + 1, col + 1, true);
    lemma_with_cell(three, row + 1, col + 1, true);
    lemma_board_ext(four, board);
}

/// A cell without live neighbours dies: a board with a single live cell,
/// in a corner or anywhere else, has none after one step.
pub proof fn lemma_single_cell_dies(board: Board, row: int, col: int)
    requires
        is_single_cell(board, row, col),
    ensures
        board.next() == Board::empty(board.width, board.height()),
        board.next().live_count() == 0,
        forall|r: int, c: int| !board.next().alive(r, c),
{
    let after = board.next();
    let none = Board::empty(board.width, board.height());
    lemma_next_shape(board);
    lemma_empty_board(board.width, board.height());
    assert forall|r: int, c: int| after.contains(r, c) implies after.alive(r, c) == none.alive(
        r,
        c,
    ) by {
        assert(after.alive(r, c) == board.next_alive(r, c));
    }
    lemma_board_ext(after, none);
}

/// The next state of a cell depends on nothing but the cell and the eight
/// cells around it.
pub proof fn lemma_next_is_local(a: Board, b: Board, row: int, col: int)
    requires
        a.width == b.width,
        a.height() == b.height(),
        forall|r: int, c: int|
            row - 1 <= r <= row + 1 && col - 1 <= c <= col + 1 ==> #[trigger] a.alive(r, c)
                == b.alive(r, c),
    ensures
        a.next_alive(row, col) == b.next_alive(row, col),
{
    assert(a.alive(row, col) == b.alive(row, col));
    assert(a.alive(row - 1, col - 1) == b.alive(row - 1, col - 1));
    assert(a.alive(row - 1, col) == b.alive(row - 1, col));
    assert(a.alive(row - 1, col + 1) == b.alive(row - 1, col + 1));
    assert(a.alive(row, col - 1) == b.alive(row, col - 1));
    assert(a.alive(row, col + 1) == b.alive(row, col + 1));
    assert(a.alive(row + 1, col - 1) == b.alive(row + 1, col - 1));
    assert(a.alive(row + 1, col) == b.alive(row + 1, col));
    assert(a.alive(row + 1, col + 1) == b.alive(row + 1, col + 1));
}

/// The board does not wrap around: the cells of one row have no part in the
/// next state of a row that is two or more rows away. So on a board of three
/// rows or more, the top row does not reach the bottom row, nor the bottom
/// row the top row.
pub proof fn lemma_rows_do_not_wrap(a: Board, b: Board, changed: int, row: int, col: int)
    requires
        a.width == b.width,
        a.height() == b.height(),
        forall|r: int, c: int| r != changed ==> #[trigger] a.alive(r, c) == b.alive(r, c),
        row - changed >= 2 || changed - row >= 2,
    ensures
        a.next_alive(row, col) == b.next_alive(row, col),
        a.next().alive(row, col) == b.next().alive(row, col),
{
    lemma_next_is_local(a, b, row, col);
    lemma_next_shape(a);
    lemma_next_shape(b);
}

/// The board does not wrap around: the cells of one column have no part in
/// the next state of a column that is two or more columns away. So on a
/// board of three columns or more, the westmost column does not reach the
/// eastmost column, nor the eastmost the westmost.
pub proof fn lemma_columns_do_not_wrap(a: Board, b: Board, changed: int, row: int, col: int)
    requires
        a.width == b.width,
        a.height() == b.height(),
        forall|r: int, c: int| c != changed ==> #[trigger] a.alive(r, c) == b.alive(r, c),
        col - changed >= 2 || changed - col >= 2,
    ensures
        a.next_alive(row, col) == b.next_alive(row, col),
        a.next().alive(row, col) == b.next().alive(row, col),
{
    lemma_next_is_local(a, b, row, col);
    lemma_next_shape(a);
    lemma_next_shape(b);
}

} // verus!
