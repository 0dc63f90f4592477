//! How a board is laid out in words, and what a word-parallel step means
//! for the cells.
//!
//! The packed field has one row of padding above and below the grid and one
//! word of padding west and east of it. The padding is always dead, so the
//! stepping code reads neighbours without testing for the edge.

use crate::board::{indicator, lemma_board_ext, lemma_next_shape, life_rule, Board};
use crate::engines::bits::{
    keep_mask, lemma_and_bit, lemma_covered_bit, lemma_keep_mask, lemma_rule_word,
    lemma_words_equal,
    lemma_shift_east, lemma_shift_west, lemma_word_facts, plane_count, rule_word, shift_east,
    shift_west, word_bit,
};
use vstd::prelude::*;

verus! {

/// `x / y` rounded up, for `x >= 0` and `y > 0`.
pub open spec fn ceil_div(x: int, y: int) -> int {
    (x + y - 1) / y
}

/// The number of word columns of a field `width` cells wide that is stepped
/// `lanes` words at a time: the data words, rounded up to whole groups of
/// lanes, and one padding word on each side.
pub open spec fn columns_for(width: int, lanes: int) -> int {
    ceil_div(ceil_div(width, 64), lanes) * lanes + 2
}

/// The cells of word column `col` that lie inside a grid `width` cells wide:
/// all of them where the column lies inside the grid, the westmost ones
/// where the grid ends within it, none in the padding columns and beyond the
/// grid.
pub open spec fn column_mask(width: int, col: int) -> u64 {
    if col <= 0 {
        0
    } else {
        keep_mask(width - (col - 1) * 64)
    }
}

/// The shape of a packed field.
pub struct Layout {
    /// Cells per row of the grid.
    pub width: int,
    /// Rows of the grid.
    pub height: int,
    /// Words per row of the field, padding included.
    pub columns: int,
}

impl Layout {
    pub open spec fn wf(self) -> bool {
        &&& 0 <= self.width
        &&& 0 <= self.height
        &&& 2 <= self.columns
        &&& self.width <= 64 * (self.columns - 2)
    }

    /// Rows of the field, padding included.
    pub open spec fn rows(self) -> int {
        self.height + 2
    }

    /// Words of the field.
    pub open spec fn len(self) -> int {
        self.columns * self.rows()
    }

    /// Whether `(row, col)` names a word of the field.
    pub open spec fn has_word(self, row: int, col: int) -> bool {
        0 <= row < self.rows() && 0 <= col < self.columns
    }

    /// Whether `(row, col)` names a word that a step computes.
    pub open spec fn is_interior(self, row: int, col: int) -> bool {
        1 <= row <= self.height && 1 <= col <= self.columns - 2
    }

    /// The cells of word column `col` that lie inside the grid's width.
    pub open spec fn column_mask(self, col: int) -> u64 {
        column_mask(self.width, col)
    }

    /// The cells of the word at `(row, col)` that lie inside the grid.
    pub open spec fn word_mask(self, row: int, col: int) -> u64 {
        if 1 <= row <= self.height {
            self.column_mask(col)
        } else {
            0
        }
    }

    /// No word of the field has a live cell outside the grid.
    pub open spec fn padding_clear(self, field: Seq<u64>) -> bool {
        forall|row: int, col: int|
            self.has_word(row, col) ==> #[trigger] word_at(field, self.columns, row, col)
                & !self.word_mask(row, col) == 0
    }

    /// The words that a step never writes are zero.
    pub open spec fn border_clear(self, field: Seq<u64>) -> bool {
        forall|row: int, col: int|
            self.has_word(row, col) && !self.is_interior(row, col) ==> #[trigger] word_at(
                field,
                self.columns,
                row,
                col,
            ) == 0
    }

    /// The next state of the sixty-four cells of the word at `(row, col)`,
    /// computed from the nine words around it.
    pub open spec fn next_word(self, field: Seq<u64>, row: int, col: int) -> u64 {
        self.next_word_raw(field, row, col) & self.column_mask(col)
    }

    /// The next state of the word at `(row, col)` before the cells outside
    /// the grid's width are cleared.
    pub open spec fn next_word_raw(self, field: Seq<u64>, row: int, col: int) -> u64 {
        let c = self.columns;
        rule_word(
            word_at(field, c, row, col),
            shift_west(word_at(field, c, row - 1, col), word_at(field, c, row - 1, col - 1)),
            word_at(field, c, row - 1, col),
            shift_east(word_at(field, c, row - 1, col), word_at(field, c, row - 1, col + 1)),
            shift_west(word_at(field, c, row, col), word_at(field, c, row, col - 1)),
            shift_east(word_at(field, c, row, col), word_at(field, c, row, col + 1)),
            shift_west(word_at(field, c, row + 1, col), word_at(field, c, row + 1, col - 1)),
            word_at(field, c, row + 1, col),
            shift_east(word_at(field, c, row + 1, col), word_at(field, c, row + 1, col + 1)),
        )
    }

    /// `after` holds the rows of `before` from field row `first_row` on, each
    /// interior word replaced by its next state computed from `field`.
    pub open spec fn rows_stepped(
        self,
        field: Seq<u64>,
        first_row: int,
        before: Seq<u64>,
        after: Seq<u64>,
    ) -> bool {
        &&& after.len() == before.len()
        &&& forall|r: int, col: int|
            0 <= r && 0 <= col < self.columns && (r + 1) * self.columns <= before.len() ==> (
            #[trigger] word_at(after, self.columns, r, col)) == (if 1 <= col <= self.columns - 2 {
                self.next_word(field, first_row + r, col)
            } else {
                word_at(before, self.columns, r, col)
            })
    }

    /// The board that the field holds.
    pub open spec fn board(self, field: Seq<u64>) -> Board {
        Board {
            width: self.width as nat,
            rows: Seq::new(
                self.height as nat,
                |row: int|
                    Seq::new(self.width as nat, |col: int| packed_alive(field, self.columns, row, col)),
            ),
        }
    }
}

/// The word at row `row` and word column `col` of a field, padding counted.
pub open spec fn word_at(field: Seq<u64>, columns: int, row: int, col: int) -> u64 {
    field[row * columns + col]
}

/// Whether the field holds a live cell at grid position `(row, col)`.
/// Positions one row or up to one word outside the grid fall in the padding.
pub open spec fn packed_alive(field: Seq<u64>, columns: int, row: int, col: int) -> bool {
    word_bit(word_at(field, columns, row + 1, col / 64 + 1), col % 64)
}

/// How many of the eight positions around `(row, col)` the field holds alive.
pub open spec fn packed_neighbors(field: Seq<u64>, columns: int, row: int, col: int) -> nat {
    indicator(packed_alive(field, columns, row - 1, col - 1)) + indicator(
        packed_alive(field, columns, row - 1, col),
    ) + indicator(packed_alive(field, columns, row - 1, col + 1)) + indicator(
        packed_alive(field, columns, row, col - 1),
    ) + indicator(packed_alive(field, columns, row, col + 1)) + indicator(
        packed_alive(field, columns, row + 1, col - 1),
    ) + indicator(packed_alive(field, columns, row + 1, col)) + indicator(
        packed_alive(field, columns, row + 1, col + 1),
    )
}

/// The index of a word lies inside the field.
pub proof fn lemma_word_index(layout: Layout, row: int, col: int)
    requires
        layout.wf(),
        layout.has_word(row, col),
    ensures
        0 <= row * layout.columns + col < layout.len(),
        row * layout.columns + layout.columns <= layout.len(),
        0 <= row * layout.columns,
{
    let c = layout.columns;
    let rows = layout.rows();
    assert(0 <= row * c && row * c + c <= c * rows) by (nonlinear_arith)
        requires
            0 <= row < rows,
            0 < c,
    ;
}

/// Different positions name different words.
pub proof fn lemma_word_index_injective(columns: int, r1: int, c1: int, r2: int, c2: int)
    requires
        0 <= c1 < columns,
        0 <= c2 < columns,
        r1 * columns + c1 == r2 * columns + c2,
    ensures
        r1 == r2,
        c1 == c2,
{
    assert(r1 == r2) by (nonlinear_arith)
        requires
            0 <= c1 < columns,
            0 <= c2 < columns,
            r1 * columns + c1 == r2 * columns + c2,
    ;
}

/// Cell `k` of a column's mask is set exactly when the cell is inside the
/// grid's width.
pub proof fn lemma_column_mask_bit(layout: Layout, col: int, k: int)
    requires
        0 <= k < 64,
        0 <= col,
    ensures
        word_bit(layout.column_mask(col), k) == (0 <= (col - 1) * 64 + k < layout.width),
{
    if col <= 0 {
        lemma_keep_mask(0, k);
    } else {
        lemma_keep_mask(layout.width - (col - 1) * 64, k);
    }
}

/// In a field with clear padding, a live cell lies inside the grid.
pub proof fn lemma_packed_inside(layout: Layout, field: Seq<u64>, row: int, col: int)
    requires
        layout.wf(),
        layout.padding_clear(field),
        -1 <= row <= layout.height,
        -64 <= col < 64 * (layout.columns - 1),
    ensures
        packed_alive(field, layout.columns, row, col) ==> 0 <= row < layout.height && 0 <= col
            < layout.width,
{
    let wr = row + 1;
    let wc = col / 64 + 1;
    let k = col % 64;
    assert(layout.has_word(wr, wc));
    let word = word_at(field, layout.columns, wr, wc);
    lemma_covered_bit(word, layout.word_mask(wr, wc), k);
    if 1 <= wr <= layout.height {
        lemma_column_mask_bit(layout, wc, k);
    } else {
        lemma_keep_mask(0, k);
    }
}

/// In a field with clear padding, the packed cells are the board's cells,
/// the dead surroundings of the board included.
pub proof fn lemma_packed_is_board(layout: Layout, field: Seq<u64>, row: int, col: int)
    requires
        layout.wf(),
        layout.padding_clear(field),
        -1 <= row <= layout.height,
        -64 <= col < 64 * (layout.columns - 1),
    ensures
        packed_alive(field, layout.columns, row, col) == layout.board(field).alive(row, col),
{
    lemma_packed_inside(layout, field, row, col);
}

/// The neighbours counted in the packed field are the board's neighbours.
pub proof fn lemma_packed_neighbors(layout: Layout, field: Seq<u64>, row: int, col: int)
    requires
        layout.wf(),
        layout.padding_clear(field),
        0 <= row < layout.height,
        0 <= col < layout.width,
    ensures
        packed_neighbors(field, layout.columns, row, col) == layout.board(field).neighbor_count(
            row,
            col,
        ),
{
    lemma_packed_is_board(layout, field, row - 1, col - 1);
    lemma_packed_is_board(layout, field, row - 1, col);
    lemma_packed_is_board(layout, field, row - 1, col + 1);
    lemma_packed_is_board(layout, field, row, col - 1);
    lemma_packed_is_board(layout, field, row, col + 1);
    lemma_packed_is_board(layout, field, row + 1, col - 1);
    lemma_packed_is_board(layout, field, row + 1, col);
    lemma_packed_is_board(layout, field, row + 1, col + 1);
}

/// Cell `k` of a word's next state follows Conway's rule on the cell and
/// its eight neighbours, and is dead outside the grid's width.
pub proof fn lemma_next_word_bit(layout: Layout, field: Seq<u64>, row: int, col: int, k: int)
    requires
        layout.wf(),
        layout.is_interior(row, col),
        0 <= k < 64,
    ensures
        word_bit(layout.next_word(field, row, col), k) == ((col - 1) * 64 + k < layout.width
            && life_rule(
            packed_alive(field, layout.columns, row - 1, (col - 1) * 64 + k),
            packed_neighbors(field, layout.columns, row - 1, (col - 1) * 64 + k) as int,
        )),
{
    let c = layout.columns;
    let x = (col - 1) * 64 + k;
    let cur = word_at(field, c, row, col);
    let n0 = shift_west(word_at(field, c, row - 1, col), word_at(field, c, row - 1, col - 1));
    let n1 = word_at(field, c, row - 1, col);
    let n2 = shift_east(word_at(field, c, row - 1, col), word_at(field, c, row - 1, col + 1));
    let n3 = shift_west(word_at(field, c, row, col), word_at(field, c, row, col - 1));
    let n4 = shift_east(word_at(field, c, row, col), word_at(field, c, row, col + 1));
    let n5 = shift_west(word_at(field, c, row + 1, col), word_at(field, c, row + 1, col - 1));
    let n6 = word_at(field, c, row + 1, col);
    let n7 = shift_east(word_at(field, c, row + 1, col), word_at(field, c, row + 1, col + 1));
    lemma_and_bit(rule_word(cur, n0, n1, n2, n3, n4, n5, n6, n7), layout.column_mask(col), k);
    lemma_column_mask_bit(layout, col, k);
    lemma_rule_word(cur, n0, n1, n2, n3, n4, n5, n6, n7, k);
    lemma_shift_west(word_at(field, c, row - 1, col), word_at(field, c, row - 1, col - 1), k);
    lemma_shift_east(word_at(field, c, row - 1, col), word_at(field, c, row - 1, col + 1), k);
    lemma_shift_west(word_at(field, c, row, col), word_at(field, c, row, col - 1), k);
    lemma_shift_east(word_at(field, c, row, col), word_at(field, c, row, col + 1), k);
    lemma_shift_west(word_at(field, c, row + 1, col), word_at(field, c, row + 1, col - 1), k);
    lemma_shift_east(word_at(field, c, row + 1, col), word_at(field, c, row + 1, col + 1), k);
    assert(x / 64 + 1 == col && x % 64 == k);
    assert((x - 1) / 64 + 1 == (if k == 0 { col - 1 } else { col }));
    assert((x - 1) % 64 == (if k == 0 { 63 } else { k - 1 }));
    assert((x + 1) / 64 + 1 == (if k == 63 { col + 1 } else { col }));
    assert((x + 1) % 64 == (if k == 63 { 0 } else { k + 1 }));
    assert(word_bit(cur, k) == packed_alive(field, c, row - 1, x));
    assert(word_bit(n0, k) == packed_alive(field, c, row - 2, x - 1));
    assert(word_bit(n1, k) == packed_alive(field, c, row - 2, x));
    assert(word_bit(n2, k) == packed_alive(field, c, row - 2, x + 1));
    assert(word_bit(n3, k) == packed_alive(field, c, row - 1, x - 1));
    assert(word_bit(n4, k) == packed_alive(field, c, row - 1, x + 1));
    assert(word_bit(n5, k) == packed_alive(field, c, row, x - 1));
    assert(word_bit(n6, k) == packed_alive(field, c, row, x));
    assert(word_bit(n7, k) == packed_alive(field, c, row, x + 1));
    assert(plane_count(n0, n1, n2, n3, n4, n5, n6, n7, k) == packed_neighbors(
        field,
        c,
        row - 1,
        x,
    ));
}

/// A field whose interior words are the next states of another field's
/// words, and whose border is zero, holds the next generation of that
/// field's board, and its padding is clear again.
pub proof fn lemma_stepped_field(layout: Layout, before: Seq<u64>, after: Seq<u64>)
    requires
        layout.wf(),
        before.len() == layout.len(),
        after.len() == layout.len(),
        layout.padding_clear(before),
        layout.border_clear(after),
        forall|row: int, col: int|
            layout.is_interior(row, col) ==> #[trigger] word_at(after, layout.columns, row, col)
                == layout.next_word(before, row, col),
    ensures
        layout.padding_clear(after),
        layout.board(after) == layout.board(before).next(),
{
    let c = layout.columns;
    assert forall|row: int, col: int| layout.has_word(row, col) implies #[trigger] word_at(
        after,
        c,
        row,
        col,
    ) & !layout.word_mask(row, col) == 0 by {
        let word = word_at(after, c, row, col);
        if layout.is_interior(row, col) {
            let mask = layout.column_mask(col);
            assert(word == layout.next_word(before, row, col));
            let raw = rule_word(
                word_at(before, c, row, col),
                shift_west(word_at(before, c, row - 1, col), word_at(before, c, row - 1, col - 1)),
                word_at(before, c, row - 1, col),
                shift_east(word_at(before, c, row - 1, col), word_at(before, c, row - 1, col + 1)),
                shift_west(word_at(before, c, row, col), word_at(before, c, row, col - 1)),
                shift_east(word_at(before, c, row, col), word_at(before, c, row, col + 1)),
                shift_west(word_at(before, c, row + 1, col), word_at(before, c, row + 1, col - 1)),
                word_at(before, c, row + 1, col),
                shift_east(word_at(before, c, row + 1, col), word_at(before, c, row + 1, col + 1)),
            );
            assert(raw == layout.next_word_raw(before, row, col));
            assert(word == raw & mask);
            lemma_word_facts(raw, mask);
        } else {
            assert(word == 0);
            lemma_word_facts(0, layout.word_mask(row, col));
        }
    }
    let old_board = layout.board(before);
    let new_board = layout.board(after);
    assert forall|row: int, col: int| new_board.contains(row, col) implies new_board.alive(
        row,
        col,
    ) == old_board.next().alive(row, col) by {
        let wc = col / 64 + 1;
        let k = col % 64;
        assert(layout.is_interior(row + 1, wc));
        lemma_next_word_bit(layout, before, row + 1, wc, k);
        assert((wc - 1) * 64 + k == col);
        lemma_packed_neighbors(layout, before, row, col);
        lemma_packed_is_board(layout, before, row, col);
    }
    lemma_next_shape(old_board);
    lemma_board_ext(new_board, old_board.next());
}

/// A field with clear padding has zero in every word that a step never
/// writes.
pub proof fn lemma_border_of_clear(layout: Layout, field: Seq<u64>)
    requires
        layout.wf(),
        layout.padding_clear(field),
    ensures
        layout.border_clear(field),
{
    let c = layout.columns;
    assert forall|row: int, col: int|
        layout.has_word(row, col) && !layout.is_interior(row, col) implies #[trigger] word_at(
        field,
        c,
        row,
        col,
    ) == 0 by {
        let word = word_at(field, c, row, col);
        assert(word & !layout.word_mask(row, col) == 0);
        assert(layout.word_mask(row, col) == 0);
        lemma_word_facts(word, 0);
        assert(!0u64 == !(0u64));
    }
}

/// A field of zeros holds the empty board, and its padding is clear.
pub proof fn lemma_zero_field(layout: Layout, field: Seq<u64>)
    requires
        layout.wf(),
        field.len() == layout.len(),
        forall|i: int| 0 <= i < field.len() ==> field[i] == 0,
    ensures
        layout.padding_clear(field),
        layout.border_clear(field),
        layout.board(field) == Board::empty(layout.width as nat, layout.height as nat),
{
    let c = layout.columns;
    assert forall|row: int, col: int| layout.has_word(row, col) implies #[trigger] word_at(
        field,
        c,
        row,
        col,
    ) == 0 by {
        lemma_word_index(layout, row, col);
    }
    assert forall|row: int, col: int| layout.has_word(row, col) implies #[trigger] word_at(
        field,
        c,
        row,
        col,
    ) & !layout.word_mask(row, col) == 0 by {
        lemma_word_facts(0, layout.word_mask(row, col));
    }
    let board = layout.board(field);
    let empty = Board::empty(layout.width as nat, layout.height as nat);
    assert forall|row: int, col: int| board.contains(row, col) implies board.alive(row, col)
        == empty.alive(row, col) by {
        assert(layout.has_word(row + 1, col / 64 + 1));
        lemma_keep_mask(0, col % 64);
    }
    lemma_board_ext(board, empty);
}

/// The words of a field with clear padding are determined by the board that
/// it holds: two such fields of one shape that hold the same board are the
/// same, word for word.
pub proof fn lemma_field_determined(layout: Layout, a: Seq<u64>, b: Seq<u64>)
    requires
        layout.wf(),
        a.len() == layout.len(),
        b.len() == layout.len(),
        layout.padding_clear(a),
        layout.padding_clear(b),
        layout.board(a) == layout.board(b),
    ensures
        a == b,
{
    let c = layout.columns;
    assert forall|i: int| 0 <= i < a.len() implies a[i] == b[i] by {
        let row = i / c;
        let col = i % c;
        vstd::arithmetic::div_mod::lemma_fundamental_div_mod(i, c);
        vstd::arithmetic::div_mod::lemma_div_pos_is_pos(i, c);
        assert(row * c + col == i && row < layout.rows()) by (nonlinear_arith)
            requires
                i == c * row + col,
                0 <= col < c,
                0 <= row,
                i < c * layout.rows(),
        ;
        assert(layout.has_word(row, col));
        let wa = word_at(a, c, row, col);
        let wb = word_at(b, c, row, col);
        assert forall|k: int| 0 <= k < 64 implies word_bit(wa, k) == word_bit(wb, k) by {
            let x = (col - 1) * 64 + k;
            lemma_covered_bit(wa, layout.word_mask(row, col), k);
            lemma_covered_bit(wb, layout.word_mask(row, col), k);
            if 1 <= row <= layout.height {
                lemma_column_mask_bit(layout, col, k);
                if 0 <= x < layout.width {
                    assert(x / 64 + 1 == col && x % 64 == k);
                    lemma_packed_is_board(layout, a, row - 1, x);
                    lemma_packed_is_board(layout, b, row - 1, x);
                }
            } else {
                lemma_keep_mask(0, k);
            }
        }
        lemma_words_equal(wa, wb);
    }
    assert(a =~= b);
}

} // verus!
