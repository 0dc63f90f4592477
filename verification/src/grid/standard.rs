//! The plain grid: one `bool` per cell, row after row.

use crate::board::{lemma_board_ext, lemma_empty_board, Board};
use crate::grid::Grid;
use crate::text::{decimal, owned, push_decimal};
use vstd::prelude::*;
use vstd::string::{StrSliceExecFns, StringExecFns};

verus! {

/// A grid that stores each cell as a `bool`, in reading order.
#[derive(Debug, Clone, PartialEq)]
pub struct StandardGrid {
    width: usize,
    height: usize,
    cells: Vec<bool>,
}

/// The index of cell `(row, col)` lies among the cells, and different
/// positions have different indices.
pub proof fn lemma_cell_index(width: int, height: int, row: int, col: int)
    requires
        0 <= row < height,
        0 <= col < width,
    ensures
        0 <= row * width + col < width * height,
        row * width + col < height * width,
        0 <= row * width,
{
    assert(0 <= row * width && row * width + col < width * height && width * height == height
        * width) by (nonlinear_arith)
        requires
            0 <= row < height,
            0 <= col < width,
    ;
}

/// Different positions of a grid have different indices.
pub proof fn lemma_cell_index_injective(width: int, r1: int, c1: int, r2: int, c2: int)
    requires
        0 <= c1 < width,
        0 <= c2 < width,
        r1 * width + c1 == r2 * width + c2,
    ensures
        r1 == r2,
        c1 == c2,
{
    assert(r1 == r2) by (nonlinear_arith)
        requires
            0 <= c1 < width,
            0 <= c2 < width,
            r1 * width + c1 == r2 * width + c2,
    ;
}

/// The board that cells in reading order make up.
pub open spec fn board_of_cells(width: nat, height: nat, cells: Seq<bool>) -> Board {
    Board {
        width,
        rows: Seq::new(height, |row: int| Seq::new(width, |col: int| cells[row * width + col])),
    }
}

/// The text that reports a row of the wrong length.
pub open spec fn row_length_text(row: nat, len: nat, expected: nat) -> Seq<char> {
    "Row "@ + decimal(row) + " has length "@ + decimal(len) + ", expected "@ + decimal(expected)
}

/// The text that reports a character that stands for no cell.
pub open spec fn invalid_char_text(ch: char) -> Seq<char> {
    "Invalid character '"@.push(ch) + "' in pattern"@
}

/// The first row from `from` on whose length is not `width`, or the number
/// of rows where there is none.
pub open spec fn first_ragged(rows: Seq<Seq<bool>>, width: nat, from: int) -> int
    decreases rows.len() - from,
{
    if from < 0 || from >= rows.len() {
        rows.len() as int
    } else if rows[from].len() != width {
        from
    } else {
        first_ragged(rows, width, from + 1)
    }
}

/// What [`StandardGrid::from_cells`] makes of rows of cells: the board with
/// these rows, or the text that says what is wrong with them. The rows must
/// be at least one, not empty, and of one length; of several rows of another
/// length than the first, the first one is reported.
pub open spec fn cells_outcome(rows: Seq<Seq<bool>>) -> Result<Board, Seq<char>> {
    if rows.len() == 0 {
        Err("Grid cannot be empty"@)
    } else if rows[0].len() == 0 {
        Err("Grid width cannot be zero"@)
    } else {
        let width = rows[0].len();
        let ragged = first_ragged(rows, width, 0);
        if ragged < rows.len() {
            Err(row_length_text(ragged as nat, rows[ragged].len(), width))
        } else {
            Ok(Board { width, rows })
        }
    }
}

/// The rows of cells that a vector of vectors holds.
pub open spec fn rows_of_cells(cells: Seq<Vec<bool>>) -> Seq<Seq<bool>> {
    Seq::new(cells.len(), |row: int| cells[row]@)
}

/// The rows of characters that a pattern holds.
pub open spec fn rows_of_pattern(pattern: Seq<&str>) -> Seq<Seq<char>> {
    Seq::new(pattern.len(), |row: int| pattern[row]@)
}

/// The first character from `from` on that is neither `alive` nor `dead`,
/// or the length of the row where there is none.
pub open spec fn first_invalid(row: Seq<char>, alive: char, dead: char, from: int) -> int
    decreases row.len() - from,
{
    if from < 0 || from >= row.len() {
        row.len() as int
    } else if row[from] != alive && row[from] != dead {
        from
    } else {
        first_invalid(row, alive, dead, from + 1)
    }
}

/// What is wrong with the rows of a pattern from row `from` on, if anything:
/// rows are read in order, and of each row first its length is held against
/// `width`, then its characters in order against `alive` and `dead`.
pub open spec fn pattern_fault(
    rows: Seq<Seq<char>>,
    width: nat,
    alive: char,
    dead: char,
    from: int,
) -> Option<Seq<char>>
    decreases rows.len() - from,
{
    if from < 0 || from >= rows.len() {
        None
    } else if rows[from].len() != width {
        Some(row_length_text(from as nat, rows[from].len(), width))
    } else {
        let invalid = first_invalid(rows[from], alive, dead, 0);
        if invalid < rows[from].len() {
            Some(invalid_char_text(rows[from][invalid]))
        } else {
            pattern_fault(rows, width, alive, dead, from + 1)
        }
    }
}

/// What [`StandardGrid::from_string_pattern`] makes of a pattern: the board
/// whose live cells are where the pattern has `alive`, or the text that
/// says what is wrong with the pattern.
pub open spec fn pattern_outcome(rows: Seq<Seq<char>>, alive: char, dead: char) -> Result<
    Board,
    Seq<char>,
> {
    if rows.len() == 0 {
        Err("Pattern cannot be empty"@)
    } else if rows[0].len() == 0 {
        Err("Pattern width cannot be zero"@)
    } else {
        let width = rows[0].len();
        match pattern_fault(rows, width, alive, dead, 0) {
            Some(text) => Err(text),
            None => Ok(
                Board {
                    width,
                    rows: Seq::new(
                        rows.len(),
                        |row: int| Seq::new(width, |col: int| rows[row][col] == alive),
                    ),
                },
            ),
        }
    }
}

/// Whether a constructor's result is what the outcome asks for.
pub open spec fn matches_outcome(
    result: Result<StandardGrid, String>,
    outcome: Result<Board, Seq<char>>,
) -> bool {
    match (result, outcome) {
        (Ok(grid), Ok(board)) => grid.wf() && grid.board() == board,
        (Err(message), Err(text)) => message@ == text,
        _ => false,
    }
}

/// The text that reports a row of the wrong length.
pub fn row_length_message(row: usize, len: usize, expected: usize) -> (message: String)
    ensures
        message@ == row_length_text(row as nat, len as nat, expected as nat),
{
    let mut message: String = owned("Row ");
    push_decimal(&mut message, row);
    message.append(" has length ");
    push_decimal(&mut message, len);
    message.append(", expected ");
    push_decimal(&mut message, expected);
    message
}

/// The text that reports a character that stands for no cell.
pub fn invalid_char_message(ch: char) -> (message: String)
    ensures
        message@ == invalid_char_text(ch),
{
    let mut message: String = owned("Invalid character '");
    message.push(ch);
    message.append("' in pattern");
    message
}

impl StandardGrid {
    /// The cells in reading order.
    pub closed spec fn spec_cells(&self) -> Seq<bool> {
        self.cells@
    }

    /// Cells per row.
    pub closed spec fn spec_width(&self) -> nat {
        self.width as nat
    }

    /// Rows.
    pub closed spec fn spec_height(&self) -> nat {
        self.height as nat
    }

    /// A grid of the given size with no live cell.
    pub fn new(width: usize, height: usize) -> (grid: Self)
        requires
            width * height <= usize::MAX,
        ensures
            grid.wf(),
            grid.board() == Board::empty(width as nat, height as nat),
    {
        let grid = Self { width, height, cells: vec![false; width * height] };
        proof {
            assert forall|row: int, col: int| grid.board().contains(row, col) implies !grid.board().alive(
                row,
                col,
            ) by {
                lemma_cell_index(width as int, height as int, row, col);
            }
            lemma_empty_board(width as nat, height as nat);
            lemma_board_ext(grid.board(), Board::empty(width as nat, height as nat));
        }
        grid
    }

    /// A grid from rows of cells. The rows must be at least one, not empty,
    /// and of one length.
    pub fn from_cells(cells: Vec<Vec<bool>>) -> (result: Result<Self, String>)
        ensures
            matches_outcome(result, cells_outcome(rows_of_cells(cells@))),
    {
        let ghost rows = rows_of_cells(cells@);
        if cells.len() == 0 {
            return Err(owned("Grid cannot be empty"));
        }
        let height: usize = cells.len();
        let width: usize = cells[0].len();
        if width == 0 {
            return Err(owned("Grid width cannot be zero"));
        }
        let mut i: usize = 0;
        while i < height
            invariant
                i <= height,
                height == cells@.len(),
                rows == rows_of_cells(cells@),
                width == rows[0].len(),
                width > 0,
                first_ragged(rows, width as nat, 0) == first_ragged(rows, width as nat, i as int),
                forall|r: int| 0 <= r < i ==> (#[trigger] rows[r]).len() == width,
            decreases height - i,
        {
            assert(rows[i as int] == cells@[i as int]@);
            if cells[i].len() != width {
                assert(first_ragged(rows, width as nat, i as int) == i);
                return Err(row_length_message(i, cells[i].len(), width));
            }
            assert(first_ragged(rows, width as nat, i as int) == first_ragged(
                rows,
                width as nat,
                i + 1,
            ));
            i += 1;
        }
        assert(first_ragged(rows, width as nat, 0) == rows.len());
        let mut flat: Vec<bool> = Vec::new();
        let mut row: usize = 0;
        while row < height
            invariant
                row <= height,
                height == cells@.len(),
                rows == rows_of_cells(cells@),
                forall|r: int| 0 <= r < height ==> (#[trigger] rows[r]).len() == width,
                flat@.len() == row * width,
                forall|r: int, c: int|
                    0 <= r < row && 0 <= c < width ==> flat@[r * width + c] == #[trigger] rows[r][c],
            decreases height - row,
        {
            let mut col: usize = 0;
            while col < width
                invariant
                    row < height,
                    col <= width,
                    height == cells@.len(),
                    rows == rows_of_cells(cells@),
                    forall|r: int| 0 <= r < height ==> (#[trigger] rows[r]).len() == width,
                    flat@.len() == row * width + col,
                    forall|r: int, c: int|
                        0 <= r < row && 0 <= c < width ==> flat@[r * width + c]
                            == #[trigger] rows[r][c],
                    forall|c: int| 0 <= c < col ==> flat@[row * width + c] == #[trigger] rows[row as int][c],
                decreases width - col,
            {
                assert(rows[row as int].len() == width);
                assert(rows[row as int] == cells@[row as int]@);
                let ghost before = flat@;
                flat.push(cells[row][col]);
                proof {
                    assert forall|r: int, c: int| 0 <= r < row && 0 <= c < width implies flat@[r
                        * width + c] == #[trigger] rows[r][c] by {
                        lemma_cell_index(width as int, row as int, r, c);
                        assert(before[r * width + c] == rows[r][c]);
                    }
                }
                col += 1;
            }
            proof {
                assert((row + 1) * width == row * width + width) by (nonlinear_arith);
                assert forall|r: int, c: int| 0 <= r < row + 1 && 0 <= c < width implies flat@[r
                    * width + c] == #[trigger] rows[r][c] by {
                    if r == row {
                        assert(flat@[row * width + c] == rows[row as int][c]);
                    }
                }
            }
            row += 1;
        }
        let grid = Self { width, height, cells: flat };
        proof {
            assert(grid.cells.len() == grid.cells@.len());
            assert(height * width == width * height) by (nonlinear_arith);
            assert(grid.wf());
            let board = Board { width: width as nat, rows };
            assert(board.wf());
            assert forall|r: int, c: int| grid.board().contains(r, c) implies grid.board().alive(r, c)
                == board.alive(r, c) by {
                lemma_cell_index(width as int, height as int, r, c);
            }
            lemma_board_ext(grid.board(), board);
        }
        Ok(grid)
    }

    /// A grid from a picture: every string is a row, `alive_char` stands for
    /// a live cell and `dead_char` for a dead one. The rows must be at least
    /// one, not empty, of one length, and hold no other character.
    pub fn from_string_pattern(pattern: &[&str], alive_char: char, dead_char: char) -> (result:
        Result<Self, String>)
        ensures
            matches_outcome(
                result,
                pattern_outcome(rows_of_pattern(pattern@), alive_char, dead_char),
            ),
    {
        let ghost rows = rows_of_pattern(pattern@);
        if pattern.len() == 0 {
            return Err(owned("Pattern cannot be empty"));
        }
        let height: usize = pattern.len();
        let width: usize = pattern[0].unicode_len();
        if width == 0 {
            return Err(owned("Pattern width cannot be zero"));
        }
        let mut cells: Vec<bool> = Vec::new();
        let mut row: usize = 0;
        while row < height
            invariant
                row <= height,
                height == pattern@.len(),
                rows == rows_of_pattern(pattern@),
                width == rows[0].len(),
                width > 0,
                pattern_fault(rows, width as nat, alive_char, dead_char, 0) == pattern_fault(
                    rows,
                    width as nat,
                    alive_char,
                    dead_char,
                    row as int,
                ),
                forall|r: int| 0 <= r < row ==> (#[trigger] rows[r]).len() == width,
                cells@.len() == row * width,
                forall|r: int, c: int|
                    0 <= r < row && 0 <= c < width ==> cells@[r * width + c] == (
                    #[trigger] rows[r][c] == alive_char),
            decreases height - row,
        {
            let line: &str = pattern[row];
            let len: usize = line.unicode_len();
            assert(line@ == rows[row as int]);
            if len != width {
                assert(pattern_fault(rows, width as nat, alive_char, dead_char, row as int) == Some(
                    row_length_text(row as nat, len as nat, width as nat),
                ));
                return Err(row_length_message(row, len, width));
            }
            let mut col: usize = 0;
            while col < width
                invariant
                    row < height,
                    col <= width,
                    height == pattern@.len(),
                    rows == rows_of_pattern(pattern@),
                    width == rows[0].len(),
                    width > 0,
                    line@ == rows[row as int],
                    line@.len() == width,
                    pattern_fault(rows, width as nat, alive_char, dead_char, 0) == pattern_fault(
                        rows,
                        width as nat,
                        alive_char,
                        dead_char,
                        row as int,
                    ),
                    first_invalid(line@, alive_char, dead_char, 0) == first_invalid(
                        line@,
                        alive_char,
                        dead_char,
                        col as int,
                    ),
                    forall|r: int| 0 <= r < row ==> (#[trigger] rows[r]).len() == width,
                    cells@.len() == row * width + col,
                    forall|r: int, c: int|
                        0 <= r < row && 0 <= c < width ==> cells@[r * width + c] == (
                        #[trigger] rows[r][c] == alive_char),
                    forall|c: int|
                        0 <= c < col ==> cells@[row * width + c] == (#[trigger] line@[c]
                            == alive_char),
                decreases width - col,
            {
                let ch: char = line.get_char(col);
                let ghost before = cells@;
                if ch == alive_char {
                    cells.push(true);
                } else if ch == dead_char {
                    cells.push(false);
                } else {
                    assert(first_invalid(line@, alive_char, dead_char, col as int) == col);
                    assert(pattern_fault(rows, width as nat, alive_char, dead_char, row as int)
                        == Some(invalid_char_text(ch)));
                    return Err(invalid_char_message(ch));
                }
                assert(first_invalid(line@, alive_char, dead_char, col as int) == first_invalid(
                    line@,
                    alive_char,
                    dead_char,
                    col + 1,
                ));
                proof {
                    assert forall|r: int, c: int| 0 <= r < row && 0 <= c < width implies cells@[r
                        * width + c] == (#[trigger] rows[r][c] == alive_char) by {
                        lemma_cell_index(width as int, row as int, r, c);
                        assert(before[r * width + c] == (rows[r][c] == alive_char));
                    }
                }
                col += 1;
            }
            proof {
                assert((row + 1) * width == row * width + width) by (nonlinear_arith);
                assert forall|r: int, c: int| 0 <= r < row + 1 && 0 <= c < width implies cells@[r
                    * width + c] == (#[trigger] rows[r][c] == alive_char) by {
                    if r == row {
                        assert(cells@[row * width + c] == (line@[c] == alive_char));
                    }
                }
                assert(first_invalid(line@, alive_char, dead_char, 0) == line@.len());
                assert(pattern_fault(rows, width as nat, alive_char, dead_char, row as int)
                    == pattern_fault(rows, width as nat, alive_char, dead_char, row + 1));
            }
            row += 1;
        }
        assert(pattern_fault(rows, width as nat, alive_char, dead_char, 0).is_none());
        let grid = Self { width, height, cells };
        proof {
            assert(grid.cells.len() == grid.cells@.len());
            assert(height * width == width * height) by (nonlinear_arith);
            assert(grid.wf());
            let board = Board {
                width: width as nat,
                rows: Seq::new(
                    rows.len(),
                    |r: int| Seq::new(width as nat, |c: int| rows[r][c] == alive_char),
                ),
            };
            assert(board.wf());
            assert forall|r: int, c: int| grid.board().contains(r, c) implies grid.board().alive(r, c)
                == board.alive(r, c) by {
                lemma_cell_index(width as int, height as int, r, c);
                assert(grid.cells@[r * width + c] == (rows[r][c] == alive_char));
            }
            lemma_board_ext(grid.board(), board);
            let outcome = pattern_outcome(rows, alive_char, dead_char);
            assert(outcome is Ok);
            assert(outcome->Ok_0.rows =~~= board.rows);
        }
        Ok(grid)
    }

    /// The index of cell `(row, col)` among the cells in reading order.
    pub fn index(&self, row: usize, col: usize) -> (index: usize)
        requires
            self.wf(),
            row < self.spec_height(),
            col < self.spec_width(),
        ensures
            index == row * self.spec_width() + col,
            index < self.spec_cells().len(),
    {
        proof {
            lemma_cell_index(self.width as int, self.height as int, row as int, col as int);
        }
        row * self.width + col
    }

    /// The cells in reading order.
    pub fn cells(&self) -> (cells: &[bool])
        requires
            self.wf(),
        ensures
            cells@ == self.spec_cells(),
    {
        self.cells.as_slice()
    }

    /// The cells in reading order, to be changed in place.
    pub fn cells_mut(&mut self) -> (cells: &mut [bool])
        requires
            old(self).wf(),
        ensures
            cells@ == old(self).spec_cells(),
            final(self).spec_cells() == final(cells)@,
            final(self).spec_width() == old(self).spec_width(),
            final(self).spec_height() == old(self).spec_height(),
            final(cells)@.len() == cells@.len() ==> final(self).wf(),
    {
        self.cells.as_mut_slice()
    }

    /// A sound grid holds a well-formed board whose cells can be counted in
    /// a `usize`.
    pub proof fn lemma_board(&self)
        requires
            self.wf(),
        ensures
            self.board().wf(),
            self.board().width == self.spec_width(),
            self.board().height() == self.spec_height(),
            self.board().width * self.board().height() <= usize::MAX,
    {
    }

    /// What the cells say of the board: the grid's cells are the board's
    /// cells in reading order.
    pub proof fn lemma_cells(&self)
        requires
            self.wf(),
        ensures
            self.spec_cells().len() == self.spec_width() * self.spec_height(),
            self.board() == board_of_cells(self.spec_width(), self.spec_height(), self.spec_cells()),
    {
    }
}

impl Grid for StandardGrid {
    closed spec fn board(&self) -> Board {
        board_of_cells(self.width as nat, self.height as nat, self.cells@)
    }

    closed spec fn wf(&self) -> bool {
        &&& self.cells@.len() == self.width * self.height
        &&& self.width * self.height <= usize::MAX
    }

    fn width(&self) -> (width: usize) {
        self.width
    }

    fn height(&self) -> (height: usize) {
        self.height
    }

    fn get_cell(&self, row: usize, col: usize) -> (alive: bool) {
        let index: usize = self.index(row, col);
        self.cells[index]
    }

    fn set_cell(&mut self, row: usize, col: usize, alive: bool) {
        let index: usize = self.index(row, col);
        self.cells[index] = alive;
        proof {
            let w = self.width as int;
            let target = old(self).board().with_cell(row as int, col as int, alive);
            assert forall|r: int, c: int| self.board().contains(r, c) implies self.board().alive(r, c)
                == target.alive(r, c) by {
                lemma_cell_index(w, self.height as int, r, c);
                if r * w + c == index {
                    lemma_cell_index_injective(w, r, c, row as int, col as int);
                }
            }
            lemma_board_ext(self.board(), target);
        }
    }

    fn clear(&mut self) {
        let size: usize = self.cells.len();
        let mut i: usize = 0;
        while i < size
            invariant
                i <= size,
                size == self.cells@.len(),
                self.width == old(self).width,
                self.height == old(self).height,
                self.wf(),
                forall|j: int| 0 <= j < i ==> !self.cells@[j],
            decreases size - i,
        {
            self.cells[i] = false;
            i += 1;
        }
        proof {
            let empty = Board::empty(self.width as nat, self.height as nat);
            assert forall|r: int, c: int| self.board().contains(r, c) implies !self.board().alive(
                r,
                c,
            ) by {
                lemma_cell_index(self.width as int, self.height as int, r, c);
            }
            lemma_empty_board(self.width as nat, self.height as nat);
            lemma_board_ext(self.board(), empty);
        }
    }
}

} // verus!
