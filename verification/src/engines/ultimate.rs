//! The bit-packed engine: one cell per bit, a whole word of cells advanced
//! by a handful of bitwise operations, rows handed out to a worker pool.

use crate::board::{
    count_rows, count_true, lemma_board_ext, lemma_clipped_same, lemma_count_rows_push,
    lemma_count_true_push, lemma_empty_board, lemma_steps_add, life_rule, Board,
};
use crate::engines::bits::{
    cell_mask, lemma_rule_word, lemma_set_bit, lemma_set_covered, lemma_word_facts, plane_count,
    rule_word, shift_east, shift_west, word_bit, TOP_BIT,
};
use crate::engines::layout::{
    ceil_div, column_mask, columns_for, lemma_border_of_clear, lemma_column_mask_bit,
    lemma_field_determined, lemma_stepped_field, lemma_word_index, lemma_word_index_injective,
    lemma_zero_field, word_at, Layout,
};
use crate::engines::naive::NaiveEngine;
use crate::engines::pool::{build_pool, pool_threads};
use crate::engines::scheduler::{
    lemma_chunks_cover, lemma_no_rows, lemma_rows_in_field, rows_per_worker, step_chunks_in_pool,
    step_rows, StepInput,
};
use crate::engines::{EngineInfo, GameOfLifeEngine};
use crate::grid::{lemma_live_prefix_bound, Grid};
use crate::render::{frame, frame_text};
use crate::text::{decimal, owned, push_decimal};
use rayon::ThreadPool;
use vstd::prelude::*;
use vstd::string::StringExecFns;

verus! {

/// `x / y` rounded up.
pub fn div_ceil(x: usize, y: usize) -> (q: usize)
    requires
        y > 0,
    ensures
        q == ceil_div(x as int, y as int),
        q * y >= x,
        x > 0 ==> (q - 1) * y < x,
        x == 0 ==> q == 0,
        x > 0 ==> q >= 1,
        q <= x,
{
    let whole: usize = x / y;
    let rest: usize = x % y;
    proof {
        lemma_ceil_div(x as int, y as int);
    }
    if rest == 0 {
        whole
    } else {
        whole + 1
    }
}

/// What rounding a quotient up amounts to.
pub proof fn lemma_ceil_div(x: int, y: int)
    requires
        0 <= x,
        0 < y,
    ensures
        ceil_div(x, y) == (if x % y == 0 {
            x / y
        } else {
            x / y + 1
        }),
        ceil_div(x, y) * y >= x,
        x > 0 ==> (ceil_div(x, y) - 1) * y < x,
        0 <= ceil_div(x, y) <= x,
        x == 0 ==> ceil_div(x, y) == 0,
        x > 0 ==> ceil_div(x, y) >= 1,
{
    let q = x / y;
    let r = x % y;
    vstd::arithmetic::div_mod::lemma_fundamental_div_mod(x, y);
    vstd::arithmetic::div_mod::lemma_div_pos_is_pos(x, y);
    assert(x == y * q + r);
    if r == 0 {
        vstd::arithmetic::div_mod::lemma_fundamental_div_mod_converse(x + y - 1, y, q, y - 1);
    } else {
        assert(x + y - 1 == (q + 1) * y + (r - 1)) by (nonlinear_arith)
            requires
                x == y * q + r,
        ;
        vstd::arithmetic::div_mod::lemma_fundamental_div_mod_converse(
            x + y - 1,
            y,
            q + 1,
            r - 1,
        );
    }
    let c = ceil_div(x, y);
    assert(c * y >= x && (x > 0 ==> (c - 1) * y < x) && c <= x && (x > 0 ==> c >= 1))
        by (nonlinear_arith)
        requires
            x == y * q + r,
            0 <= r < y,
            0 <= q,
            0 <= x,
            c == (if r == 0 {
                q
            } else {
                q + 1
            }),
    ;
}

/// The engine: two packed fields of one shape, the one that holds the
/// current generation and the one that the next generation is written to.
pub struct UltimateEngine<const N: usize> {
    pool: Option<ThreadPool>,
    field: Vec<u64>,
    new_field: Vec<u64>,
    height: usize,
    columns: usize,
    actual_width: usize,
    actual_height: usize,
    boundary_masks: Vec<u64>,
    boundary_x_start: usize,
}

impl<const N: usize> View for UltimateEngine<N> {
    type V = Board;

    /// The generation that the engine holds.
    closed spec fn view(&self) -> Board {
        self.layout().board(self.field@)
    }
}

impl<const N: usize> UltimateEngine<N> {
    /// Whether an engine of this size can be built: it steps at least one
    /// lane at a time, the bytes of its two fields can be counted in a
    /// `usize`, and so can its cells.
    pub open spec fn spec_fits(width: int, height: int) -> bool {
        &&& N >= 1
        &&& 16 * (columns_for(width, N as int) * (height + 2)) <= usize::MAX
        &&& width * height <= usize::MAX
    }

    /// The shape of the engine's fields.
    pub closed spec fn layout(&self) -> Layout {
        Layout {
            width: self.actual_width as int,
            height: self.actual_height as int,
            columns: self.columns as int,
        }
    }

    /// The words of the field that holds the current generation.
    pub closed spec fn packed(&self) -> Seq<u64> {
        self.field@
    }

    /// How the engine keeps its generation: in a field of `height + 2` rows
    /// of words, as many to a row as the width and the lane count ask for,
    /// with every cell outside the grid dead.
    pub proof fn lemma_packed(&self)
        requires
            self.wf(),
        ensures
            self.layout() == (Layout {
                width: self@.width as int,
                height: self@.height() as int,
                columns: columns_for(self@.width as int, N as int),
            }),
            self.layout().wf(),
            self.packed().len() == self.layout().len(),
            self.layout().padding_clear(self.packed()),
            self.layout().board(self.packed()) == self@,
    {
    }

    /// Two engines that hold the same generation hold it in the same words.
    pub proof fn lemma_same_board_same_words(&self, other: &Self)
        requires
            self.wf(),
            other.wf(),
            self@ == other@,
        ensures
            self.packed() == other.packed(),
    {
        self.lemma_packed();
        other.lemma_packed();
        lemma_field_determined(self.layout(), self.field@, other.field@);
    }

    /// The result of a run does not depend on the workers: two engines that
    /// start from the same generation, with whatever pools, hold after the
    /// same number of steps the same generation in the same words.
    pub proof fn lemma_workers_do_not_matter(
        first_before: &Self,
        first_after: &Self,
        second_before: &Self,
        second_after: &Self,
        steps: nat,
    )
        requires
            first_after.wf(),
            second_after.wf(),
            first_before@ == second_before@,
            first_after@ == first_before@.steps(steps),
            second_after@ == second_before@.steps(steps),
        ensures
            first_after@ == second_after@,
            first_after.packed() == second_after.packed(),
    {
        first_after.lemma_same_board_same_words(second_after);
    }

    /// A well-formed engine holds a well-formed board of a size that fits.
    pub proof fn lemma_view(&self)
        requires
            self.wf(),
        ensures
            self@.wf(),
            Self::spec_fits(self@.width as int, self@.height() as int),
    {
    }

    /// Whether an engine of this size can be built.
    pub fn fits(width: usize, height: usize) -> (ok: bool)
        ensures
            ok == Self::spec_fits(width as int, height as int),
    {
        if N == 0 {
            return false;
        }
        let groups: usize = div_ceil(div_ceil(width, 64), N);
        proof {
            lemma_fits_parts(groups as int, N as int, height as int);
        }
        let data = match groups.checked_mul(N) {
            Some(data) => data,
            None => { return false; },
        };
        let columns = match data.checked_add(2) {
            Some(columns) => columns,
            None => { return false; },
        };
        let rows = match height.checked_add(2) {
            Some(rows) => rows,
            None => { return false; },
        };
        let words = match columns.checked_mul(rows) {
            Some(words) => words,
            None => { return false; },
        };
        if words.checked_mul(16).is_none() {
            return false;
        }
        width.checked_mul(height).is_some()
    }

    /// An engine for a grid of the given size with no live cell. Its rows
    /// are stepped by a worker pool sized to the host's parallelism; where
    /// the host gives no pool, the rows are stepped in turn.
    pub fn new(width: usize, height: usize) -> (engine: Self)
        requires
            Self::spec_fits(width as int, height as int),
        ensures
            engine.wf(),
            engine@ == Board::empty(width as nat, height as nat),
    {
        Self::with_threads(width, height, 0)
    }

    /// As [`Self::new`], with a pool of `threads` workers; zero leaves the
    /// number to the pool.
    pub fn with_threads(width: usize, height: usize, threads: usize) -> (engine: Self)
        requires
            Self::spec_fits(width as int, height as int),
        ensures
            engine.wf(),
            engine@ == Board::empty(width as nat, height as nat),
    {
        let pool = match build_pool(threads) {
            Ok(pool) => Some(pool),
            Err(_) => None,
        };
        Self::assemble(width, height, pool)
    }

    /// As [`Self::new`], without a worker pool: the rows are stepped in turn.
    pub fn sequential(width: usize, height: usize) -> (engine: Self)
        requires
            Self::spec_fits(width as int, height as int),
        ensures
            engine.wf(),
            engine@ == Board::empty(width as nat, height as nat),
    {
        Self::assemble(width, height, None)
    }

    fn assemble(width: usize, height: usize, pool: Option<ThreadPool>) -> (engine: Self)
        requires
            Self::spec_fits(width as int, height as int),
        ensures
            engine.wf(),
            engine@ == Board::empty(width as nat, height as nat),
    {
        let words: usize = div_ceil(width, 64);
        let groups: usize = div_ceil(words, N);
        proof {
            lemma_fits_parts(groups as int, N as int, height as int);
        }
        let columns: usize = groups * N + 2;
        let padded_height: usize = height + 2;
        let boundary_x_start: usize = words;
        let mut boundary_masks: Vec<u64> = vec![!0u64; columns];
        let mut col: usize = 0;
        while col < columns
            invariant
                col <= columns,
                boundary_masks@.len() == columns,
                forall|c: int| 0 <= c < col ==> #[trigger] boundary_masks@[c] == column_mask(width as int, c),
            decreases columns - col,
        {
            boundary_masks[col] = boundary_mask(width, col);
            col += 1;
        }
        let engine = Self {
            pool,
            field: vec![0; columns * padded_height],
            new_field: vec![0; columns * padded_height],
            height: padded_height,
            columns,
            actual_width: width,
            actual_height: height,
            boundary_masks,
            boundary_x_start,
        };
        proof {
            lemma_zero_field(engine.layout(), engine.field@);
            lemma_zero_field(engine.layout(), engine.new_field@);
        }
        engine
    }

    /// Makes the cell at column `x` of row `y` alive. Outside the grid this
    /// does nothing.
    pub fn set(&mut self, x: usize, y: usize)
        requires
            old(self).wf(),
        ensures
            final(self).wf(),
            final(self)@ == (if x < old(self)@.width && y < old(self)@.height() {
                old(self)@.with_cell(y as int, x as int, true)
            } else {
                old(self)@
            }),
    {
        if x >= self.actual_width || y >= self.actual_height {
            return ;
        }
        let column: usize = x / 64 + 1;
        let k: usize = x % 64;
        let bit: u64 = TOP_BIT >> k;
        proof {
            lemma_word_index(self.layout(), y + 1, column as int);
        }
        let index: usize = (y + 1) * self.columns + column;
        let word: u64 = self.field[index];
        self.field[index] = word | bit;
        proof {
            let layout = old(self).layout();
            let c = layout.columns;
            let before = old(self).field@;
            let after = self.field@;
            assert(bit == cell_mask(k as int));
            assert(layout.has_word(y + 1, column as int));
            assert(word == word_at(before, c, y + 1, column as int));
            lemma_column_mask_bit(layout, column as int, k as int);
            lemma_set_covered(word, layout.word_mask(y + 1, column as int), k as int);
            assert forall|row: int, col: int| layout.has_word(row, col) implies #[trigger] word_at(
                after,
                c,
                row,
                col,
            ) & !layout.word_mask(row, col) == 0 by {
                lemma_word_index(layout, row, col);
                if row * c + col == index {
                    lemma_word_index_injective(c, row, col, y + 1, column as int);
                } else {
                    assert(word_at(after, c, row, col) == word_at(before, c, row, col));
                }
            }
            let target = old(self)@.with_cell(y as int, x as int, true);
            assert forall|row: int, col: int| self@.contains(row, col) implies self@.alive(row, col)
                == target.alive(row, col) by {
                lemma_word_index(layout, row + 1, col / 64 + 1);
                if (row + 1) * c + col / 64 + 1 == index {
                    lemma_word_index_injective(c, row + 1, col / 64 + 1, y + 1, column as int);
                    lemma_set_bit(word, k as int, col % 64);
                } else {
                    assert(word_at(after, c, row + 1, col / 64 + 1) == word_at(
                        before,
                        c,
                        row + 1,
                        col / 64 + 1,
                    ));
                }
            }
            lemma_board_ext(self@, target);
        }
    }

    /// Whether the cell at column `x` of row `y` is alive. Outside the grid
    /// no cell is.
    pub fn get(&self, x: usize, y: usize) -> (alive: bool)
        requires
            self.wf(),
        ensures
            alive == self@.alive(y as int, x as int),
    {
        if x >= self.actual_width || y >= self.actual_height {
            return false;
        }
        let column: usize = x / 64 + 1;
        let k: usize = x % 64;
        let bit: u64 = TOP_BIT >> k;
        proof {
            lemma_word_index(self.layout(), y + 1, column as int);
            assert(bit == cell_mask(k as int));
        }
        (self.field[(y + 1) * self.columns + column] & bit) != 0
    }

    /// The number of live cells.
    pub fn count_live_cells(&self) -> (count: usize)
        requires
            self.wf(),
        ensures
            count == self@.live_count(),
    {
        let mut count: usize = 0;
        let mut y: usize = 0;
        while y < self.actual_height
            invariant
                self.wf(),
                y <= self.actual_height,
                count == count_rows(self@.rows.take(y as int)),
            decreases self.actual_height - y,
        {
            let mut x: usize = 0;
            while x < self.actual_width
                invariant
                    self.wf(),
                    y < self.actual_height,
                    x <= self.actual_width,
                    count == count_rows(self@.rows.take(y as int))
                        + count_true(self@.rows[y as int].take(x as int)),
                decreases self.actual_width - x,
            {
                proof {
                    lemma_count_true_push(self@.rows[y as int], x as int);
                    lemma_live_prefix_bound(self@, y as int, x as int + 1);
                }
                if self.get(x, y) {
                    count += 1;
                }
                x += 1;
            }
            proof {
                assert(self@.rows[y as int].take(x as int) =~= self@.rows[y as int]);
                lemma_count_rows_push(self@.rows, y as int);
            }
            y += 1;
        }
        proof {
            assert(self@.rows.take(y as int) =~= self@.rows);
        }
        count
    }

    /// The next state of every cell of `center`, given the eight words
    /// that hold, cell for cell, its neighbours to the north-west, north,
    /// north-east, west, east, south-west, south and south-east: a cell is
    /// alive when exactly three of its neighbours are, or when it is alive
    /// and exactly two of them are.
    pub fn sub_step(center: [u64; N], nbs: &[[u64; N]; 8]) -> (next: [u64; N])
        ensures
            forall|lane: int|
                0 <= lane < N ==> #[trigger] next@[lane] == rule_word(
                    center@[lane],
                    nbs@[0]@[lane],
                    nbs@[1]@[lane],
                    nbs@[2]@[lane],
                    nbs@[3]@[lane],
                    nbs@[4]@[lane],
                    nbs@[5]@[lane],
                    nbs@[6]@[lane],
                    nbs@[7]@[lane],
                ),
            forall|lane: int, k: int|
                0 <= lane < N && 0 <= k < 64 ==> #[trigger] word_bit(next@[lane], k) == life_rule(
                    word_bit(center@[lane], k),
                    plane_count(
                        nbs@[0]@[lane],
                        nbs@[1]@[lane],
                        nbs@[2]@[lane],
                        nbs@[3]@[lane],
                        nbs@[4]@[lane],
                        nbs@[5]@[lane],
                        nbs@[6]@[lane],
                        nbs@[7]@[lane],
                        k,
                    ) as int,
                ),
    {
        let mut next: [u64; N] = [0u64; N];
        let mut lane: usize = 0;
        while lane < N
            invariant
                lane <= N,
                forall|l: int|
                    0 <= l < lane ==> #[trigger] next@[l] == rule_word(
                        center@[l],
                        nbs@[0]@[l],
                        nbs@[1]@[l],
                        nbs@[2]@[l],
                        nbs@[3]@[l],
                        nbs@[4]@[l],
                        nbs@[5]@[l],
                        nbs@[6]@[l],
                        nbs@[7]@[l],
                    ),
            decreases N - lane,
        {
            let around: [u64; 8] = [
                nbs[0][lane],
                nbs[1][lane],
                nbs[2][lane],
                nbs[3][lane],
                nbs[4][lane],
                nbs[5][lane],
                nbs[6][lane],
                nbs[7][lane],
            ];
            next[lane] = sub_step_word(center[lane], &around);
            lane += 1;
        }
        proof {
            assert forall|l: int, k: int| 0 <= l < N && 0 <= k < 64 implies #[trigger] word_bit(
                next@[l],
                k,
            ) == life_rule(
                word_bit(center@[l], k),
                plane_count(
                    nbs@[0]@[l],
                    nbs@[1]@[l],
                    nbs@[2]@[l],
                    nbs@[3]@[l],
                    nbs@[4]@[l],
                    nbs@[5]@[l],
                    nbs@[6]@[l],
                    nbs@[7]@[l],
                    k,
                ) as int,
            ) by {
                lemma_rule_word(
                    center@[l],
                    nbs@[0]@[l],
                    nbs@[1]@[l],
                    nbs@[2]@[l],
                    nbs@[3]@[l],
                    nbs@[4]@[l],
                    nbs@[5]@[l],
                    nbs@[6]@[l],
                    nbs@[7]@[l],
                    k,
                );
            }
        }
        next
    }

    /// The `N` words of the field from index `i` on.
    pub fn get_simd(field: &[u64], i: usize) -> (v: [u64; N])
        requires
            i + N <= field@.len(),
        ensures
            forall|lane: int| 0 <= lane < N ==> #[trigger] v@[lane] == field@[i + lane],
    {
        let mut v: [u64; N] = [0u64; N];
        let len: usize = field.len();
        let mut lane: usize = 0;
        while lane < N
            invariant
                lane <= N,
                i + N <= field@.len() == len,
                forall|l: int| 0 <= l < lane ==> #[trigger] v@[l] == field@[i + l],
            decreases N - lane,
        {
            v[lane] = field[i + lane];
            lane += 1;
        }
        v
    }

    /// Advances the engine by `steps` generations.
    pub fn step_batch(&mut self, steps: u32)
        requires
            old(self).wf(),
        ensures
            final(self).wf(),
            final(self)@ == old(self)@.steps(steps as nat),
    {
        let mut done: u32 = 0;
        while done < steps
            invariant
                done <= steps,
                self.wf(),
                self@ == old(self)@.steps(done as nat),
            decreases steps - done,
        {
            self.advance();
            done += 1;
        }
    }

    /// Computes the next generation into the second field, by the pool's
    /// workers where there is a pool, and makes it the current one.
    fn advance(&mut self)
        requires
            old(self).wf(),
        ensures
            final(self).wf(),
            final(self)@ == old(self)@.next(),
    {
        let columns: usize = self.columns;
        let rows: usize = self.actual_height;
        let ghost layout = self.layout();
        let ghost current = self.field@;
        let ghost shadow = self.new_field@;
        proof {
            assert(layout.len() == columns + rows * columns + columns && 0 <= rows * columns
                && columns <= layout.len()) by (nonlinear_arith)
                requires
                    layout.len() == columns * (rows + 2),
                    0 <= rows,
                    0 <= columns,
            ;
        }
        let input = StepInput {
            field: self.field.as_slice(),
            masks: self.boundary_masks.as_slice(),
            columns,
            width: self.actual_width,
            height: rows,
            boundary: self.boundary_x_start,
        };
        let whole: &mut [u64] = self.new_field.as_mut_slice();
        let (top, rest) = whole.split_at_mut(columns);
        let (middle, bottom) = rest.split_at_mut(rows * columns);
        proof {
            vstd::arithmetic::div_mod::lemma_fundamental_div_mod_converse(
                rows * columns,
                columns as int,
                rows as int,
                0,
            );
            assert(middle@.len() == rows * columns);
            assert(middle@.len() % (columns as nat) == 0);
            assert(middle@.len() / (columns as nat) == rows);
        }
        let ghost middle_before = middle@;
        match &self.pool {
            Some(pool) => {
                if rows > 0 {
                    let per: usize = rows_per_worker(rows, pool_threads(pool));
                    proof {
                        assert(per * columns <= rows * columns) by (nonlinear_arith)
                            requires
                                per <= rows,
                                0 <= columns,
                        ;
                    }
                    step_chunks_in_pool::<N>(pool, &input, per, per * columns, middle);
                    proof {
                        lemma_chunks_cover(layout, current, per as int, middle_before, middle@);
                    }
                } else {
                    proof {
                        assert(rows * columns == 0) by (nonlinear_arith)
                            requires
                                rows == 0,
                        ;
                        lemma_no_rows(layout, current, middle@);
                    }
                }
            },
            None => {
                step_rows::<N>(&input, 1, middle);
            },
        }
        proof {
            let after = self.new_field@;
            assert(after.subrange(0, columns as int) =~= shadow.subrange(0, columns as int));
            assert(after.subrange(columns as int, columns + rows * columns) =~= middle@);
            assert(shadow.subrange(columns as int, columns + rows * columns) =~= middle_before);
            assert(after.subrange(columns + rows * columns, layout.len()) =~= shadow.subrange(
                columns + rows * columns,
                layout.len(),
            ));
            lemma_rows_in_field(layout, current, shadow, after);
            lemma_stepped_field(layout, current, after);
            lemma_border_of_clear(layout, current);
        }
        std::mem::swap(&mut self.field, &mut self.new_field);
    }

    /// Replaces the generation by that of `grid`, as far as the two
    /// overlap: cells of `grid` beyond this engine's size are left out, and
    /// cells of this engine beyond `grid` are dead.
    pub fn set_grid<G: Grid + ?Sized>(&mut self, grid: &G)
        requires
            old(self).wf(),
            grid.wf(),
        ensures
            final(self).wf(),
            final(self)@ == grid.board().clipped(old(self)@.width, old(self)@.height()),
            grid.board().width == old(self)@.width && grid.board().height() == old(self)@.height()
                ==> final(self)@ == grid.board(),
    {
        zero_fill(&mut self.field);
        zero_fill(&mut self.new_field);
        proof {
            lemma_zero_field(self.layout(), self.field@);
            lemma_zero_field(self.layout(), self.new_field@);
            lemma_empty_board(old(self)@.width, old(self)@.height());
        }
        let rows: usize = if grid.height() < self.actual_height {
            grid.height()
        } else {
            self.actual_height
        };
        let cols: usize = if grid.width() < self.actual_width {
            grid.width()
        } else {
            self.actual_width
        };
        let ghost source = grid.board();
        let ghost width = old(self)@.width;
        let ghost height = old(self)@.height();
        let mut row: usize = 0;
        while row < rows
            invariant
                self.wf(),
                grid.wf(),
                source == grid.board(),
                self@.width == width,
                self@.height() == height,
                self@.wf(),
                rows <= height,
                cols <= width,
                rows <= source.height(),
                cols <= source.width,
                rows == height || rows == source.height(),
                cols == width || cols == source.width,
                row <= rows,
                forall|r: int, c: int|
                    0 <= r < height && 0 <= c < width ==> #[trigger] self@.alive(r, c) == (r < row
                        && source.alive(r, c)),
            decreases rows - row,
        {
            let mut col: usize = 0;
            while col < cols
                invariant
                    self.wf(),
                    grid.wf(),
                    source == grid.board(),
                    self@.width == width,
                    self@.height() == height,
                    self@.wf(),
                    rows <= height,
                    cols <= width,
                    rows <= source.height(),
                    cols <= source.width,
                    rows == height || rows == source.height(),
                    cols == width || cols == source.width,
                    row < rows,
                    col <= cols,
                    forall|r: int, c: int|
                        0 <= r < height && 0 <= c < width ==> #[trigger] self@.alive(r, c) == ((r
                            < row || (r == row && c < col)) && source.alive(r, c)),
                decreases cols - col,
            {
                let ghost before = self@;
                if grid.get_cell(row, col) {
                    self.set(col, row);
                }
                proof {
                    self.lemma_view();
                    assert forall|r: int, c: int| 0 <= r < height && 0 <= c < width implies (
                    #[trigger] self@.alive(r, c)) == ((r < row || (r == row && c < col + 1))
                        && source.alive(r, c)) by {
                        assert(before.alive(r, c) == ((r < row || (r == row && c < col))
                            && source.alive(r, c)));
                    }
                }
                col += 1;
            }
            row += 1;
        }
        proof {
            lemma_board_ext(self@, source.clipped(width, height));
            if source.width == width && source.height() == height {
                lemma_clipped_same(source);
            }
        }
    }

    /// An engine of the size of `grid` that holds its generation.
    pub fn from_grid<G: Grid + ?Sized>(grid: &G) -> (engine: Self)
        requires
            grid.wf(),
            Self::spec_fits(grid.board().width as int, grid.board().height() as int),
        ensures
            engine.wf(),
            engine@ == grid.board(),
    {
        let mut engine = Self::new(grid.width(), grid.height());
        engine.set_grid(grid);
        proof {
            lemma_clipped_same(grid.board());
        }
        engine
    }

    /// What the engine spends: the two fields take eight bytes for each of
    /// their words, which is one bit for each cell of a word.
    pub fn performance_stats(&self) -> (stats: PerformanceStats)
        requires
            self.wf(),
        ensures
            stats.memory_usage_bytes == 2 * columns_for(self@.width as int, N as int) * (
            self@.height() + 2) * 8,
            stats.bits_per_cell == 1,
            stats.simd_enabled,
            stats.simd_width == N,
            stats.parallel_columns == columns_for(self@.width as int, N as int),
    {
        proof {
            assert(2 * self.columns * self.height * 8 == 16 * (self.columns * self.height))
                by (nonlinear_arith);
        }
        PerformanceStats {
            memory_usage_bytes: (self.field.len() + self.new_field.len()) * 8,
            bits_per_cell: 1,
            simd_enabled: true,
            simd_width: N,
            parallel_columns: self.columns,
        }
    }

    /// The generation as text: a line for every row, with `█` for a live
    /// cell and `.` for a dead one.
    pub fn to_string(&self) -> (text: String)
        requires
            self.wf(),
        ensures
            text@ == frame_text(self@.rows, '█', '.'),
    {
        frame(self, '█', '.')
    }

    /// Words per row of the field, padding included.
    pub fn get_columns(&self) -> (columns: usize)
        requires
            self.wf(),
        ensures
            columns == columns_for(self@.width as int, N as int),
    {
        self.columns
    }

    /// Rows of the field, padding included.
    pub fn get_height(&self) -> (rows: usize)
        requires
            self.wf(),
        ensures
            rows == self@.height() + 2,
    {
        self.height
    }

    /// Whether the cell at `(row, col)` is alive.
    pub fn get_cell(&self, row: usize, col: usize) -> (alive: bool)
        requires
            self.wf(),
        ensures
            alive == self@.alive(row as int, col as int),
    {
        self.get(col, row)
    }

    /// Cells per row of the grid.
    pub fn width(&self) -> (width: usize)
        requires
            self.wf(),
        ensures
            width == self@.width,
    {
        self.actual_width
    }

    /// Rows of the grid.
    pub fn height(&self) -> (height: usize)
        requires
            self.wf(),
        ensures
            height == self@.height(),
    {
        self.actual_height
    }
}

/// The adder network on one word: three adders in a first stage sum the
/// eight neighbour planes in groups, a second stage sums their results, and
/// the rule picks the cells with three neighbours, or with two and alive.
pub fn sub_step_word(center: u64, nbs: &[u64; 8]) -> (next: u64)
    ensures
        next == rule_word(
            center,
            nbs@[0],
            nbs@[1],
            nbs@[2],
            nbs@[3],
            nbs@[4],
            nbs@[5],
            nbs@[6],
            nbs@[7],
        ),
        forall|k: int|
            0 <= k < 64 ==> #[trigger] word_bit(next, k) == life_rule(
                word_bit(center, k),
                plane_count(
                    nbs@[0],
                    nbs@[1],
                    nbs@[2],
                    nbs@[3],
                    nbs@[4],
                    nbs@[5],
                    nbs@[6],
                    nbs@[7],
                    k,
                ) as int,
            ),
{
    let ta0: u64 = nbs[0] ^ nbs[1];
    let a8: u64 = ta0 ^ nbs[2];
    let b0: u64 = (nbs[0] & nbs[1]) | (ta0 & nbs[2]);

    let ta3: u64 = nbs[3] ^ nbs[4];
    let a9: u64 = ta3 ^ nbs[5];
    let b1: u64 = (nbs[3] & nbs[4]) | (ta3 & nbs[5]);

    let aa: u64 = nbs[6] ^ nbs[7];
    let b2: u64 = nbs[6] & nbs[7];

    let ta8: u64 = a8 ^ a9;
    let ab: u64 = ta8 ^ aa;
    let b3: u64 = (a8 & a9) | (ta8 & aa);

    let tb0: u64 = b0 ^ b1;
    let b4: u64 = tb0 ^ b2;
    let c0: u64 = (b0 & b1) | (tb0 & b2);

    let mut next: u64 = center;
    next = next | ab;
    next = next & (b3 ^ b4);
    next = next & !c0;
    proof {
        assert forall|k: int| 0 <= k < 64 implies #[trigger] word_bit(next, k) == life_rule(
            word_bit(center, k),
            plane_count(
                nbs@[0],
                nbs@[1],
                nbs@[2],
                nbs@[3],
                nbs@[4],
                nbs@[5],
                nbs@[6],
                nbs@[7],
                k,
            ) as int,
        ) by {
            lemma_rule_word(
                center,
                nbs@[0],
                nbs@[1],
                nbs@[2],
                nbs@[3],
                nbs@[4],
                nbs@[5],
                nbs@[6],
                nbs@[7],
                k,
            );
        }
    }
    next
}

/// Lane `lane` of a vector shifted east: every cell takes the state of its
/// eastern neighbour, the eastmost cell that of the westmost cell of the
/// next lane, or dead in the last lane.
pub open spec fn shl_lane(v: Seq<u64>, lane: int) -> u64 {
    (v[lane] << 1) | (if lane + 1 < v.len() {
        v[lane + 1] >> 63
    } else {
        0
    })
}

/// Lane `lane` of a vector shifted west: every cell takes the state of its
/// western neighbour, the westmost cell that of the eastmost cell of the
/// lane before, or dead in the first lane.
pub open spec fn shr_lane(v: Seq<u64>, lane: int) -> u64 {
    (v[lane] >> 1) | (if lane > 0 {
        v[lane - 1] << 63
    } else {
        0
    })
}

/// Shifts the bits of every lane left by one. The bit that a lane loses at
/// its high end fills the low end of the lane before it; the low end of the
/// last lane is filled with zero.
pub fn shl<const N: usize>(v: [u64; N]) -> (out: [u64; N])
    ensures
        forall|lane: int| 0 <= lane < N ==> #[trigger] out@[lane] == shl_lane(v@, lane),
{
    let mut out: [u64; N] = [0u64; N];
    let mut lane: usize = 0;
    while lane < N
        invariant
            lane <= N,
            forall|l: int| 0 <= l < lane ==> #[trigger] out@[l] == shl_lane(v@, l),
        decreases N - lane,
    {
        let carry: u64 = if lane + 1 < N {
            v[lane + 1] >> 63
        } else {
            0
        };
        out[lane] = (v[lane] << 1) | carry;
        lane += 1;
    }
    out
}

/// Shifts the bits of every lane right by one. The bit that a lane loses at
/// its low end fills the high end of the lane after it; the high end of the
/// first lane is filled with zero.
pub fn shr<const N: usize>(v: [u64; N]) -> (out: [u64; N])
    ensures
        forall|lane: int| 0 <= lane < N ==> #[trigger] out@[lane] == shr_lane(v@, lane),
{
    let mut out: [u64; N] = [0u64; N];
    let mut lane: usize = 0;
    while lane < N
        invariant
            lane <= N,
            forall|l: int| 0 <= l < lane ==> #[trigger] out@[l] == shr_lane(v@, l),
        decreases N - lane,
    {
        let carry: u64 = if lane > 0 {
            v[lane - 1] << 63
        } else {
            0
        };
        out[lane] = (v[lane] >> 1) | carry;
        lane += 1;
    }
    out
}

/// [`shl`], with the low end of the last lane filled from the high end of
/// `after`, the word that follows the vector in its row.
pub fn shl_with_carry<const N: usize>(v: [u64; N], after: u64) -> (out: [u64; N])
    ensures
        forall|lane: int|
            0 <= lane < N ==> #[trigger] out@[lane] == shift_east(
                v@[lane],
                if lane + 1 < N {
                    v@[lane + 1]
                } else {
                    after
                },
            ),
{
    let mut out: [u64; N] = shl(v);
    if N > 0 {
        let last: u64 = out[N - 1];
        proof {
            lemma_word_facts(v@[N - 1], after);
        }
        out[N - 1] = last | ((after & (1u64 << 63)) >> 63);
    }
    out
}

/// [`shr`], with the high end of the first lane filled from the low end of
/// `before`, the word that precedes the vector in its row.
pub fn shr_with_carry<const N: usize>(v: [u64; N], before: u64) -> (out: [u64; N])
    ensures
        forall|lane: int|
            0 <= lane < N ==> #[trigger] out@[lane] == shift_west(
                v@[lane],
                if lane > 0 {
                    v@[lane - 1]
                } else {
                    before
                },
            ),
{
    let mut out: [u64; N] = shr(v);
    if N > 0 {
        let first: u64 = out[0];
        proof {
            lemma_word_facts(v@[0], before);
        }
        out[0] = first | ((before & 1) << 63);
    }
    out
}

/// Sets every word to zero.
pub fn zero_fill(words: &mut Vec<u64>)
    ensures
        final(words)@.len() == old(words)@.len(),
        forall|i: int| 0 <= i < final(words)@.len() ==> final(words)@[i] == 0,
{
    let size: usize = words.len();
    let mut i: usize = 0;
    while i < size
        invariant
            i <= size,
            size == words@.len(),
            forall|j: int| 0 <= j < i ==> words@[j] == 0,
        decreases size - i,
    {
        words[i] = 0;
        i += 1;
    }
}

/// The mask of word column `col` of a grid `width` cells wide.
pub fn boundary_mask(width: usize, col: usize) -> (mask: u64)
    ensures
        mask == column_mask(width as int, col as int),
{
    if col == 0 {
        return 0;
    }
    let index: usize = col - 1;
    let full: usize = width / 64;
    let rest: usize = width % 64;
    if index < full {
        !0u64
    } else if index == full && rest > 0 {
        !0u64 << (64 - rest)
    } else {
        0
    }
}

/// The parts of a field's size are no larger than the whole.
pub proof fn lemma_fits_parts(groups: int, lanes: int, height: int)
    requires
        0 <= groups,
        1 <= lanes,
        0 <= height,
    ensures
        groups * lanes + 2 <= 16 * ((groups * lanes + 2) * (height + 2)),
        height + 2 <= 16 * ((groups * lanes + 2) * (height + 2)),
        (groups * lanes + 2) * (height + 2) <= 16 * ((groups * lanes + 2) * (height + 2)),
        0 <= groups * lanes,
{
    assert(0 <= groups * lanes) by (nonlinear_arith)
        requires
            0 <= groups,
            1 <= lanes,
    ;
    let c = groups * lanes + 2;
    assert(c <= c * (height + 2) && height + 2 <= c * (height + 2)) by (nonlinear_arith)
        requires
            2 <= c,
            0 <= height,
    ;
}

/// What the packed engine spends: the bytes of its two fields, and the
/// shape in which it steps them.
#[derive(Debug, Clone)]
pub struct PerformanceStats {
    pub memory_usage_bytes: usize,
    /// Bits of memory per cell of the field.
    pub bits_per_cell: usize,
    pub simd_enabled: bool,
    /// Words that are stepped together.
    pub simd_width: usize,
    /// Words per row of the field, padding included.
    pub parallel_columns: usize,
}

/// The text that describes a packed engine of `lanes` lanes.
pub open spec fn ultimate_description(lanes: nat) -> Seq<char> {
    "Ultimate optimization: bit-packed (64 cells/u64), SIMD ("@ + decimal(lanes)
        + "x u64), parallel arithmetic, multi-threading"@
}

impl<const N: usize> GameOfLifeEngine for UltimateEngine<N> {
    open spec fn board(&self) -> Board {
        self@
    }

    open spec fn name(&self) -> Seq<char> {
        "Ultimate"@
    }

    /// The engine's invariant: the fields have the shape that the grid's
    /// size asks for, no cell outside the grid is alive, and the mask table
    /// is the one for the grid's width.
    closed spec fn wf(&self) -> bool {
        &&& N >= 1
        &&& self.columns == columns_for(self.actual_width as int, N as int)
        &&& self.height == self.actual_height + 2
        &&& 16 * (self.columns * self.height) <= usize::MAX
        &&& self.actual_width * self.actual_height <= usize::MAX
        &&& self.layout().wf()
        &&& self.field@.len() == self.columns * self.height
        &&& self.new_field@.len() == self.columns * self.height
        &&& self.boundary_masks@.len() == self.columns
        &&& forall|col: int|
            0 <= col < self.columns ==> #[trigger] self.boundary_masks@[col]
                == self.layout().column_mask(col)
        &&& self.boundary_x_start == ceil_div(self.actual_width as int, 64)
        &&& self.layout().padding_clear(self.field@)
        &&& self.layout().border_clear(self.new_field@)
    }

    fn step(&mut self) {
        self.step_batch(1);
        proof {
            assert(old(self)@.steps(1) == old(self)@.steps(0).next());
        }
    }

    fn set_grid<G: Grid + ?Sized>(&mut self, grid: &G)
        ensures
            final(self).board() == grid.board().clipped(
                old(self).board().width,
                old(self).board().height(),
            ),
    {
        UltimateEngine::set_grid(self, grid);
    }

    fn benchmark_info(&self) -> (info: EngineInfo)
        ensures
            info.description@ == ultimate_description(N as nat),
            info.memory_per_cell_bits == 1,
            info.supports_parallel,
            info.supports_simd,
            info.min_grid_size == Some((64usize, 64usize)),
            info.max_grid_size.is_none(),
    {
        let mut description: String = owned(
            "Ultimate optimization: bit-packed (64 cells/u64), SIMD (",
        );
        push_decimal(&mut description, N);
        description.append("x u64), parallel arithmetic, multi-threading");
        EngineInfo {
            name: owned("Ultimate"),
            description,
            memory_per_cell_bits: 1,
            supports_parallel: true,
            supports_simd: true,
            min_grid_size: Some((64, 64)),
            max_grid_size: None,
        }
    }

    fn get_cell(&self, row: usize, col: usize) -> (alive: bool) {
        self.get(col, row)
    }

    fn width(&self) -> (width: usize) {
        proof {
            self.lemma_view();
        }
        self.actual_width
    }

    fn height(&self) -> (height: usize) {
        proof {
            self.lemma_view();
        }
        self.actual_height
    }

    fn count_live_cells(&self) -> (count: usize) {
        UltimateEngine::count_live_cells(self)
    }

    fn run_steps(&mut self, steps: usize) {
        let mut left: usize = steps;
        while left > 0
            invariant
                left <= steps,
                self.wf(),
                self@ == old(self)@.steps((steps - left) as nat),
            decreases left,
        {
            let batch: u32 = if left > 0xffff_ffff {
                0xffff_ffff
            } else {
                left as u32
            };
            proof {
                lemma_steps_add(old(self)@, (steps - left) as nat, batch as nat);
            }
            self.step_batch(batch);
            left -= batch as usize;
        }
    }
}

/// Whether this build can step several words of cells at a time.
pub fn simd_supported() -> (supported: bool)
    ensures
        supported,
{
    true
}

/// The engine that the library picked: the packed engine, four lanes wide,
/// or the cell-by-cell engine where the packed one could not be had.
pub enum AutoEngine {
    Ultimate(UltimateEngine<4>),
    Naive(NaiveEngine),
}

impl GameOfLifeEngine for AutoEngine {
    open spec fn board(&self) -> Board {
        match self {
            AutoEngine::Ultimate(engine) => engine@,
            AutoEngine::Naive(engine) => engine@,
        }
    }

    open spec fn name(&self) -> Seq<char> {
        match self {
            AutoEngine::Ultimate(engine) => engine.name(),
            AutoEngine::Naive(engine) => engine.name(),
        }
    }

    open spec fn wf(&self) -> bool {
        match self {
            AutoEngine::Ultimate(engine) => engine.wf(),
            AutoEngine::Naive(engine) => engine.wf(),
        }
    }

    fn step(&mut self)
        ensures
            *final(self) is Naive == *old(self) is Naive,
    {
        match self {
            AutoEngine::Ultimate(engine) => GameOfLifeEngine::step(engine),
            AutoEngine::Naive(engine) => GameOfLifeEngine::step(engine),
        }
    }

    fn set_grid<G: Grid + ?Sized>(&mut self, grid: &G)
        ensures
            *final(self) is Naive == *old(self) is Naive,
            final(self).board() == (if *old(self) is Naive {
                grid.board()
            } else {
                grid.board().clipped(old(self).board().width, old(self).board().height())
            }),
    {
        match self {
            AutoEngine::Ultimate(engine) => GameOfLifeEngine::set_grid(engine, grid),
            AutoEngine::Naive(engine) => GameOfLifeEngine::set_grid(engine, grid),
        }
    }

    fn benchmark_info(&self) -> (info: EngineInfo)
        ensures
            info.description@ == (if *self is Naive {
                "Basic cell-by-cell simulation with parallel row processing"@
            } else {
                ultimate_description(4)
            }),
            info.memory_per_cell_bits == (if *self is Naive {
                8usize
            } else {
                1usize
            }),
            info.supports_parallel,
            info.supports_simd == !(*self is Naive),
            info.min_grid_size == (if *self is Naive {
                Some((1usize, 1usize))
            } else {
                Some((64usize, 64usize))
            }),
            info.max_grid_size.is_none(),
    {
        match self {
            AutoEngine::Ultimate(engine) => GameOfLifeEngine::benchmark_info(engine),
            AutoEngine::Naive(engine) => GameOfLifeEngine::benchmark_info(engine),
        }
    }

    fn get_cell(&self, row: usize, col: usize) -> (alive: bool) {
        match self {
            AutoEngine::Ultimate(engine) => GameOfLifeEngine::get_cell(engine, row, col),
            AutoEngine::Naive(engine) => GameOfLifeEngine::get_cell(engine, row, col),
        }
    }

    fn width(&self) -> (width: usize) {
        match self {
            AutoEngine::Ultimate(engine) => GameOfLifeEngine::width(engine),
            AutoEngine::Naive(engine) => GameOfLifeEngine::width(engine),
        }
    }

    fn height(&self) -> (height: usize) {
        match self {
            AutoEngine::Ultimate(engine) => GameOfLifeEngine::height(engine),
            AutoEngine::Naive(engine) => GameOfLifeEngine::height(engine),
        }
    }

    fn count_live_cells(&self) -> (count: usize) {
        match self {
            AutoEngine::Ultimate(engine) => GameOfLifeEngine::count_live_cells(engine),
            AutoEngine::Naive(engine) => GameOfLifeEngine::count_live_cells(engine),
        }
    }
}

/// The packed engine for a grid of the given size with no live cell, or
/// the cell-by-cell engine where this build cannot step several words at a
/// time.
pub fn auto_new_ultimate_engine(width: usize, height: usize) -> (engine: AutoEngine)
    requires
        UltimateEngine::<4>::spec_fits(width as int, height as int),
    ensures
        engine.wf(),
        engine.board() == Board::empty(width as nat, height as nat),
        engine is Ultimate,
{
    if simd_supported() {
        AutoEngine::Ultimate(UltimateEngine::<4>::new(width, height))
    } else {
        AutoEngine::Naive(NaiveEngine::new(width, height))
    }
}

/// As [`auto_new_ultimate_engine`], with the generation of `grid`.
pub fn auto_from_grid_ultimate_engine<G: Grid + ?Sized>(grid: &G) -> (engine: AutoEngine)
    requires
        grid.wf(),
        UltimateEngine::<4>::spec_fits(grid.board().width as int, grid.board().height() as int),
    ensures
        engine.wf(),
        engine.board() == grid.board(),
        engine is Ultimate,
{
    if simd_supported() {
        AutoEngine::Ultimate(UltimateEngine::<4>::from_grid(grid))
    } else {
        AutoEngine::Naive(NaiveEngine::from_grid(grid))
    }
}

/// As [`auto_new_ultimate_engine`], for any size whose cells can be counted:
/// where the fields of the packed engine would not fit, the cell-by-cell
/// engine takes its place.
pub fn safe_auto_new_ultimate_engine(width: usize, height: usize) -> (engine: AutoEngine)
    requires
        width * height <= usize::MAX,
    ensures
        engine.wf(),
        engine.board() == Board::empty(width as nat, height as nat),
        engine is Ultimate == UltimateEngine::<4>::spec_fits(width as int, height as int),
{
    if simd_supported() {
        if UltimateEngine::<4>::fits(width, height) {
            AutoEngine::Ultimate(UltimateEngine::<4>::new(width, height))
        } else {
            AutoEngine::Naive(NaiveEngine::new(width, height))
        }
    } else {
        AutoEngine::Naive(NaiveEngine::new(width, height))
    }
}

/// The engine that suits this build best, for a grid of the given size
/// with no live cell.
pub fn create_optimal_engine(width: usize, height: usize) -> (engine: AutoEngine)
    requires
        UltimateEngine::<4>::spec_fits(width as int, height as int),
    ensures
        engine.wf(),
        engine.board() == Board::empty(width as nat, height as nat),
        engine is Ultimate,
{
    auto_new_ultimate_engine(width, height)
}

} // verus!
