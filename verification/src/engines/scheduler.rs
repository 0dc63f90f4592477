//! How a generation is computed: row by row, each row in groups of lanes,
//! the rows shared out among the workers of a pool.
//!
//! A step reads one field and writes another. The rows that it writes are cut
//! into runs of whole rows, one run per worker; each worker reads the shared
//! field and writes only its own run, so no two workers touch the same word.

use crate::engines::bits::lemma_word_facts;
use crate::engines::layout::{
    ceil_div, column_mask, columns_for, lemma_word_index, word_at, Layout,
};
use crate::engines::ultimate::{
    div_ceil, lemma_ceil_div, shl_with_carry, shr_with_carry, UltimateEngine,
};
use rayon::iter::{IndexedParallelIterator, ParallelIterator};
use rayon::slice::ParallelSliceMut;
use rayon::ThreadPool;
use vstd::prelude::*;

verus! {

/// What a step reads: the field of the current generation, the mask table,
/// and the shape of the field.
pub struct StepInput<'a> {
    pub field: &'a [u64],
    pub masks: &'a [u64],
    pub columns: usize,
    pub width: usize,
    pub height: usize,
    pub boundary: usize,
}

impl<'a> StepInput<'a> {
    pub open spec fn layout(&self) -> Layout {
        Layout { width: self.width as int, height: self.height as int, columns: self.columns as int }
    }

    /// The input describes a field that is stepped `lanes` words at a time.
    pub open spec fn wf(&self, lanes: int) -> bool {
        &&& lanes >= 1
        &&& self.layout().wf()
        &&& self.columns == columns_for(self.width as int, lanes)
        &&& self.field@.len() == self.layout().len()
        &&& self.masks@.len() == self.columns
        &&& forall|col: int|
            0 <= col < self.columns ==> #[trigger] self.masks@[col] == column_mask(
                self.width as int,
                col,
            )
        &&& self.boundary == ceil_div(self.width as int, 64)
    }
}

/// The rows before and after row `row` start one row's length away.
pub proof fn lemma_row_offsets(row: int, columns: int)
    ensures
        (row - 1) * columns == row * columns - columns,
        (row + 1) * columns == row * columns + columns,
{
    assert((row - 1) * columns == row * columns - columns) by (nonlinear_arith);
    assert((row + 1) * columns == row * columns + columns) by (nonlinear_arith);
}

/// A word of another row lies outside the words of row `row`.
pub proof fn lemma_other_row(columns: int, row: int, r: int, col: int)
    requires
        0 <= col < columns,
        r != row,
    ensures
        r * columns + col < row * columns || r * columns + col >= row * columns + columns,
{
    assert(r * columns + col < row * columns || r * columns + col >= row * columns + columns)
        by (nonlinear_arith)
        requires
            0 <= col < columns,
            r != row,
    ;
}

/// Computes the next state of the `N` words from column `x` on of field row
/// `y`, and writes them to `target` from index `base + x` on, where `base`
/// is the index in `target` at which the row starts.
pub fn step_group<const N: usize>(
    input: &StepInput,
    y: usize,
    x: usize,
    target: &mut [u64],
    base: usize,
)
    requires
        input.wf(N as int),
        1 <= y <= input.height,
        1 <= x,
        x + N <= input.columns - 1,
        base + input.columns <= old(target)@.len(),
    ensures
        final(target)@.len() == old(target)@.len(),
        forall|j: int|
            0 <= j < old(target)@.len() ==> #[trigger] final(target)@[j] == (if base + x <= j < base
                + x + N {
                input.layout().next_word(input.field@, y as int, j - base)
            } else {
                old(target)@[j]
            }),
{
    let columns: usize = input.columns;
    let field: &[u64] = input.field;
    let size: usize = target.len();
    proof {
        assert(field.len() == field@.len());
        lemma_word_index(input.layout(), y - 1, 0);
        lemma_word_index(input.layout(), y as int, 0);
        lemma_word_index(input.layout(), y + 1, 0);
        lemma_row_offsets(y as int, columns as int);
    }
    let i: usize = y * columns + x;
    let center: [u64; N] = UltimateEngine::<N>::get_simd(field, i);
    let above: [u64; N] = UltimateEngine::<N>::get_simd(field, i - columns);
    let below: [u64; N] = UltimateEngine::<N>::get_simd(field, i + columns);
    let nbs: [[u64; N]; 8] = [
        shr_with_carry(above, field[i - columns - 1]),
        above,
        shl_with_carry(above, field[i - columns + N]),
        shr_with_carry(center, field[i - 1]),
        shl_with_carry(center, field[i + N]),
        shr_with_carry(below, field[i + columns - 1]),
        below,
        shl_with_carry(below, field[i + columns + N]),
    ];
    let result: [u64; N] = UltimateEngine::<N>::sub_step(center, &nbs);
    let mut lane: usize = 0;
    while lane < N
        invariant
            lane <= N,
            input.wf(N as int),
            1 <= y <= input.height,
            1 <= x,
            x + N <= input.columns - 1,
            columns == input.columns,
            base + columns <= size,
            target@.len() == size == old(target)@.len(),
            forall|l: int|
                0 <= l < N ==> #[trigger] result@[l] == input.layout().next_word_raw(
                    input.field@,
                    y as int,
                    x + l,
                ),
            forall|j: int|
                0 <= j < size ==> #[trigger] target@[j] == (if base + x <= j < base + x + lane {
                    input.layout().next_word(input.field@, y as int, j - base)
                } else {
                    old(target)@[j]
                }),
        decreases N - lane,
    {
        let col: usize = x + lane;
        let mut word: u64 = result[lane];
        proof {
            lemma_word_facts(word, input.masks@[col as int]);
            if col < input.boundary {
                lemma_ceil_div(input.width as int, 64);
            }
        }
        if col >= input.boundary {
            word = word & input.masks[col];
        }
        target[base + col] = word;
        lane += 1;
    }
}

/// Computes the next state of field row `y` and writes its interior words
/// to `target`, where the row starts at index `base`.
pub fn step_row<const N: usize>(input: &StepInput, y: usize, target: &mut [u64], base: usize)
    requires
        input.wf(N as int),
        1 <= y <= input.height,
        base + input.columns <= old(target)@.len(),
    ensures
        final(target)@.len() == old(target)@.len(),
        forall|j: int|
            0 <= j < old(target)@.len() ==> #[trigger] final(target)@[j] == (if base + 1 <= j < base
                + input.columns - 1 {
                input.layout().next_word(input.field@, y as int, j - base)
            } else {
                old(target)@[j]
            }),
{
    let columns: usize = input.columns;
    let size: usize = target.len();
    let ghost groups: int = ceil_div(ceil_div(input.width as int, 64), N as int);
    let ghost mut done: int = 0;
    proof {
        lemma_ceil_div(input.width as int, 64);
        lemma_ceil_div(ceil_div(input.width as int, 64), N as int);
    }
    let mut x: usize = 1;
    while x < columns - 1
        invariant
            input.wf(N as int),
            1 <= y <= input.height,
            columns == input.columns,
            columns == groups * N + 2,
            0 <= done <= groups,
            x == 1 + done * N,
            base + columns <= size,
            target@.len() == size == old(target)@.len(),
            forall|j: int|
                0 <= j < size ==> #[trigger] target@[j] == (if base + 1 <= j < base + x {
                    input.layout().next_word(input.field@, y as int, j - base)
                } else {
                    old(target)@[j]
                }),
        decreases columns - x,
    {
        proof {
            assert(done < groups && (done + 1) * N == done * N + N && (done + 1) * N <= groups * N)
                by (nonlinear_arith)
                requires
                    1 + done * N < groups * N + 1,
                    0 <= done <= groups,
                    N >= 1,
            ;
        }
        step_group::<N>(input, y, x, target, base);
        x += N;
        proof {
            done = done + 1;
        }
    }
    proof {
        assert(done == groups) by (nonlinear_arith)
            requires
                1 + done * N >= groups * N + 1,
                0 <= done <= groups,
                N >= 1,
        ;
    }
}

/// Computes the next state of the field rows from `first_row` on, as many
/// as `target` has room for, and writes them to `target`.
pub fn step_rows<const N: usize>(input: &StepInput, first_row: usize, target: &mut [u64])
    requires
        input.wf(N as int),
        1 <= first_row,
        old(target)@.len() % (input.columns as nat) == 0,
        first_row + old(target)@.len() / (input.columns as nat) <= input.height + 1,
    ensures
        input.layout().rows_stepped(
            input.field@,
            first_row as int,
            old(target)@,
            final(target)@,
        ),
{
    let columns: usize = input.columns;
    let size: usize = target.len();
    let rows: usize = size / columns;
    proof {
        vstd::arithmetic::div_mod::lemma_fundamental_div_mod(size as int, columns as int);
        assert(size == columns * rows);
    }
    let mut r: usize = 0;
    while r < rows
        invariant
            input.wf(N as int),
            1 <= first_row,
            first_row + rows <= input.height + 1,
            columns == input.columns,
            size == columns * rows,
            r <= rows,
            target@.len() == size == old(target)@.len(),
            forall|row: int, col: int|
                0 <= row < rows && 0 <= col < columns ==> (#[trigger] word_at(
                    target@,
                    columns as int,
                    row,
                    col,
                )) == (if row < r && 1 <= col <= columns - 2 {
                    input.layout().next_word(input.field@, first_row + row, col)
                } else {
                    word_at(old(target)@, columns as int, row, col)
                }),
        decreases rows - r,
    {
        proof {
            assert(0 <= r * columns && r * columns + columns <= columns * rows) by (nonlinear_arith)
                requires
                    0 <= r < rows,
                    0 < columns,
            ;
        }
        let base: usize = r * columns;
        let ghost before = target@;
        step_row::<N>(input, first_row + r, target, base);
        proof {
            assert forall|row: int, col: int| 0 <= row < rows && 0 <= col < columns implies (
            #[trigger] word_at(target@, columns as int, row, col)) == (if row < r + 1 && 1 <= col
                <= columns - 2 {
                input.layout().next_word(input.field@, first_row + row, col)
            } else {
                word_at(old(target)@, columns as int, row, col)
            }) by {
                assert(0 <= row * columns && row * columns + columns <= columns * rows)
                    by (nonlinear_arith)
                    requires
                        0 <= row < rows,
                        0 < columns,
                ;
                if row != r {
                    lemma_other_row(columns as int, r as int, row, col);
                }
                assert(word_at(before, columns as int, row, col) == before[row * columns + col]);
            }
        }
        r += 1;
    }
    proof {
        assert forall|row: int, col: int|
            0 <= row && 0 <= col < columns && (row + 1) * columns <= size implies (
        #[trigger] word_at(target@, columns as int, row, col)) == (if 1 <= col <= columns - 2 {
            input.layout().next_word(input.field@, first_row + row, col)
        } else {
            word_at(old(target)@, columns as int, row, col)
        }) by {
            assert(row < rows) by (nonlinear_arith)
                requires
                    (row + 1) * columns <= columns * rows,
                    0 < columns,
            ;
        }
    }
}

/// The rows that each of `workers` workers gets when `rows` rows are shared
/// out in runs of equal length, the last run taking what is left: `rows`
/// divided by the number of workers, rounded up. No worker counts as one.
pub fn rows_per_worker(rows: usize, workers: usize) -> (per: usize)
    ensures
        per == ceil_div(rows as int, if workers == 0 {
            1
        } else {
            workers as int
        }),
        per <= rows,
        rows > 0 ==> per >= 1,
        workers > 0 ==> per * workers >= rows,
{
    let workers: usize = if workers == 0 {
        1
    } else {
        workers
    };
    div_ceil(rows, workers)
}

/// Run `index` of a sequence cut into runs of `chunk_len` words; the last
/// run may be shorter.
pub open spec fn chunk_of(words: Seq<u64>, chunk_len: int, index: int) -> Seq<u64> {
    words.subrange(
        index * chunk_len,
        if (index + 1) * chunk_len <= words.len() {
            (index + 1) * chunk_len
        } else {
            words.len() as int
        },
    )
}

/// Computes run `index` of the rows of the next generation, where every
/// run before it holds `chunk_rows` rows of the grid.
pub fn step_chunk<const N: usize>(
    input: &StepInput,
    chunk_rows: usize,
    index: usize,
    chunk: &mut [u64],
)
    requires
        input.wf(N as int),
        old(chunk)@.len() % (input.columns as nat) == 0,
        index * chunk_rows + old(chunk)@.len() / (input.columns as nat) <= input.height,
    ensures
        input.layout().rows_stepped(
            input.field@,
            1 + index * chunk_rows,
            old(chunk)@,
            final(chunk)@,
        ),
{
    proof {
        assert(input.field.len() == input.field@.len());
        assert(input.height + 2 <= input.columns * (input.height + 2)) by (nonlinear_arith)
            requires
                input.columns >= 2,
        ;
    }
    step_rows::<N>(input, 1 + index * chunk_rows, chunk);
}

/// Cuts `rows` into runs of `chunk_len` words with rayon's `par_chunks_mut`,
/// numbers them with `enumerate`, and has `for_each` call [`step_chunk`] on
/// every run, inside the pool by `ThreadPool::install`. Taken from rayon: the
/// runs do not overlap, all but the last have `chunk_len` words, the numbers
/// count them from zero in the order of the slice, every run is handed to the
/// call once, and all calls have returned when `install` returns. Every run
/// meets what [`step_chunk`] asks of it ([`lemma_runs_fit`]), so each run ends
/// as [`step_chunk`] leaves it.
#[verifier::external_body]
pub(crate) fn step_chunks_in_pool<const N: usize>(
    pool: &ThreadPool,
    input: &StepInput,
    chunk_rows: usize,
    chunk_len: usize,
    rows: &mut [u64],
)
    requires
        input.wf(N as int),
        chunk_rows >= 1,
        chunk_len == chunk_rows * input.columns,
        old(rows)@.len() == input.height * input.columns,
    ensures
        final(rows)@.len() == old(rows)@.len(),
        forall|index: int|
            0 <= index && index * chunk_len < old(rows)@.len() ==> input.layout().rows_stepped(
                input.field@,
                1 + index * chunk_rows,
                chunk_of(old(rows)@, chunk_len as int, index),
                #[trigger] chunk_of(final(rows)@, chunk_len as int, index),
            ),
{
    pool.install(
        || {
            rows.par_chunks_mut(chunk_len).enumerate().for_each(
                |(index, chunk)| step_chunk::<N>(input, chunk_rows, index, chunk),
            )
        },
    );
}

/// Every run of rows cut into runs of whole rows meets what [`step_chunk`]
/// asks of it: it holds whole rows, and they are rows of the grid.
pub proof fn lemma_runs_fit(layout: Layout, chunk_rows: int, words: Seq<u64>, index: int)
    requires
        layout.wf(),
        chunk_rows >= 1,
        words.len() == layout.height * layout.columns,
        0 <= index,
        index * (chunk_rows * layout.columns) < words.len(),
    ensures
        chunk_of(words, chunk_rows * layout.columns, index).len() % (layout.columns as nat) == 0,
        index * chunk_rows + chunk_of(words, chunk_rows * layout.columns, index).len() / (
        layout.columns as nat) <= layout.height,
{
    let c = layout.columns;
    let h = layout.height;
    let chunk_len = chunk_rows * c;
    let start = index * chunk_len;
    let done = index * chunk_rows;
    assert(start == done * c && (index + 1) * chunk_len == (done + chunk_rows) * c && 0 <= done)
        by (nonlinear_arith)
        requires
            start == index * chunk_len,
            chunk_len == chunk_rows * c,
            done == index * chunk_rows,
            0 <= index,
            1 <= chunk_rows,
    ;
    assert(done < h) by (nonlinear_arith)
        requires
            done * c < h * c,
            2 <= c,
    ;
    let rows = if (index + 1) * chunk_len <= words.len() {
        chunk_rows
    } else {
        h - done
    };
    if (index + 1) * chunk_len <= words.len() {
        assert(done + chunk_rows <= h) by (nonlinear_arith)
            requires
                (done + chunk_rows) * c <= h * c,
                2 <= c,
        ;
        assert((done + chunk_rows) * c - done * c == chunk_rows * c) by (nonlinear_arith);
    } else {
        assert(h * c - done * c == (h - done) * c) by (nonlinear_arith);
    }
    let chunk = chunk_of(words, chunk_len, index);
    assert(0 <= start <= words.len());
    assert(chunk.len() == rows * c);
    vstd::arithmetic::div_mod::lemma_fundamental_div_mod_converse(rows * c, c, rows, 0);
}

/// Rows that were stepped run by run were stepped as a whole.
pub proof fn lemma_chunks_cover(
    layout: Layout,
    field: Seq<u64>,
    chunk_rows: int,
    before: Seq<u64>,
    after: Seq<u64>,
)
    requires
        layout.wf(),
        chunk_rows >= 1,
        before.len() == layout.height * layout.columns,
        after.len() == before.len(),
        forall|index: int|
            0 <= index && index * (chunk_rows * layout.columns) < before.len()
                ==> layout.rows_stepped(
                field,
                1 + index * chunk_rows,
                chunk_of(before, chunk_rows * layout.columns, index),
                #[trigger] chunk_of(after, chunk_rows * layout.columns, index),
            ),
    ensures
        layout.rows_stepped(field, 1, before, after),
{
    let c = layout.columns;
    let len = before.len() as int;
    let chunk_len = chunk_rows * c;
    assert forall|r: int, col: int| 0 <= r && 0 <= col < c && (r + 1) * c <= len implies (
    #[trigger] word_at(after, c, r, col)) == (if 1 <= col <= c - 2 {
        layout.next_word(field, 1 + r, col)
    } else {
        word_at(before, c, r, col)
    }) by {
        let index = r / chunk_rows;
        let inner = r % chunk_rows;
        vstd::arithmetic::div_mod::lemma_fundamental_div_mod(r, chunk_rows);
        vstd::arithmetic::div_mod::lemma_div_pos_is_pos(r, chunk_rows);
        assert(r == chunk_rows * index + inner);
        let start = index * chunk_len;
        let end = if (index + 1) * chunk_len <= len {
            (index + 1) * chunk_len
        } else {
            len
        };
        assert(start == index * chunk_rows * c && (index + 1) * chunk_len == start + chunk_len
            && r * c == start + inner * c && (r + 1) * c == start + (inner + 1) * c && (inner + 1)
            * c <= chunk_len && 0 <= start && 0 <= inner * c && (inner + 1) * c == inner * c + c)
            by (nonlinear_arith)
            requires
                r == chunk_rows * index + inner,
                0 <= inner < chunk_rows,
                0 <= index,
                chunk_len == chunk_rows * c,
                start == index * chunk_len,
                2 <= c,
        ;
        assert(start + (inner + 1) * c <= end);
        assert(start < len);
        let chunk_before = chunk_of(before, chunk_len, index);
        let chunk_after = chunk_of(after, chunk_len, index);
        assert(layout.rows_stepped(field, 1 + index * chunk_rows, chunk_before, chunk_after));
        assert(chunk_before.len() == end - start);
        assert((inner + 1) * c <= chunk_before.len());
        assert(word_at(chunk_after, c, inner, col) == after[start + inner * c + col]);
        assert(word_at(chunk_before, c, inner, col) == before[start + inner * c + col]);
        assert(1 + index * chunk_rows + inner == 1 + r) by (nonlinear_arith)
            requires
                r == chunk_rows * index + inner,
        ;
    }
}

/// Where there are no rows, all of them were stepped.
pub proof fn lemma_no_rows(layout: Layout, field: Seq<u64>, rows: Seq<u64>)
    requires
        layout.wf(),
        rows.len() == 0,
    ensures
        layout.rows_stepped(field, 1, rows, rows),
{
    let c = layout.columns;
    assert forall|r: int, col: int| 0 <= r && 0 <= col < c && (r + 1) * c <= rows.len() implies (
    #[trigger] word_at(rows, c, r, col)) == (if 1 <= col <= c - 2 {
        layout.next_word(field, 1 + r, col)
    } else {
        word_at(rows, c, r, col)
    }) by {
        assert((r + 1) * c > 0) by (nonlinear_arith)
            requires
                0 <= r,
                2 <= c,
        ;
    }
}

/// A field whose rows between the padding rows were stepped, and whose
/// padding rows are as they were, has every interior word stepped and every
/// other word as it was.
pub proof fn lemma_rows_in_field(
    layout: Layout,
    field: Seq<u64>,
    before: Seq<u64>,
    after: Seq<u64>,
)
    requires
        layout.wf(),
        before.len() == layout.len(),
        after.len() == layout.len(),
        layout.rows_stepped(
            field,
            1,
            before.subrange(layout.columns, layout.columns + layout.height * layout.columns),
            after.subrange(layout.columns, layout.columns + layout.height * layout.columns),
        ),
        after.subrange(0, layout.columns) == before.subrange(0, layout.columns),
        after.subrange(layout.columns + layout.height * layout.columns, layout.len())
            == before.subrange(layout.columns + layout.height * layout.columns, layout.len()),
    ensures
        forall|row: int, col: int|
            layout.has_word(row, col) ==> #[trigger] word_at(after, layout.columns, row, col) == (
            if layout.is_interior(row, col) {
                layout.next_word(field, row, col)
            } else {
                word_at(before, layout.columns, row, col)
            }),
{
    let c = layout.columns;
    let h = layout.height;
    assert(layout.len() == c + h * c + c && 0 <= h * c) by (nonlinear_arith)
        requires
            layout.len() == c * (h + 2),
            0 <= h,
            0 <= c,
    ;
    let mid_before = before.subrange(c, c + h * c);
    let mid_after = after.subrange(c, c + h * c);
    let top_before = before.subrange(0, c);
    let top_after = after.subrange(0, c);
    let low_before = before.subrange(c + h * c, layout.len());
    let low_after = after.subrange(c + h * c, layout.len());
    assert forall|row: int, col: int| layout.has_word(row, col) implies #[trigger] word_at(
        after,
        c,
        row,
        col,
    ) == (if layout.is_interior(row, col) {
        layout.next_word(field, row, col)
    } else {
        word_at(before, c, row, col)
    }) by {
        lemma_word_index(layout, row, col);
        lemma_row_offsets(row, c);
        if row == 0 {
            assert(word_at(after, c, row, col) == after[col]);
            assert(after[col] == top_after[col]);
            assert(before[col] == top_before[col]);
        } else if row == h + 1 {
            assert(row * c == c + h * c) by (nonlinear_arith)
                requires
                    row == h + 1,
            ;
            assert(after[row * c + col] == low_after[col]);
            assert(before[row * c + col] == low_before[col]);
        } else {
            let r = row - 1;
            assert(row * c == c + r * c);
            assert((r + 1) * c <= h * c && 0 <= r * c) by (nonlinear_arith)
                requires
                    0 <= r < h,
                    0 <= c,
            ;
            assert(mid_after.len() == h * c);
            assert(mid_before.len() == h * c);
            assert(mid_after[r * c + col] == after[c + (r * c + col)]);
            assert(mid_before[r * c + col] == before[c + (r * c + col)]);
            assert(word_at(mid_after, c, r, col) == after[row * c + col]);
            assert(word_at(mid_before, c, r, col) == before[row * c + col]);
            assert(word_at(mid_after, c, r, col) == (if 1 <= col <= c - 2 {
                layout.next_word(field, 1 + r, col)
            } else {
                word_at(mid_before, c, r, col)
            }));
        }
    }
}

} // verus!
