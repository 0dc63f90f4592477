//! The cell-by-cell engine: the rules read off one cell at a time.

use crate::board::{lemma_board_ext, lemma_clipped_same, lemma_next_shape, Board};
use crate::engines::{EngineInfo, GameOfLifeEngine};
use crate::grid::standard::{lemma_cell_index, StandardGrid};
use crate::grid::Grid;
use crate::text::owned;
use rayon::iter::{IntoParallelIterator, ParallelIterator};
use vstd::prelude::*;

verus! {

/// An engine that keeps its generation in a [`StandardGrid`] and computes
/// the next one into a second grid of the same size.
pub struct NaiveEngine {
    grid: StandardGrid,
    next_grid: StandardGrid,
}

impl View for NaiveEngine {
    type V = Board;

    /// The generation that the engine holds.
    closed spec fn view(&self) -> Board {
        self.grid.board()
    }
}

/// The row and column of the cell with index `index` in reading order.
pub proof fn lemma_cell_position(width: int, height: int, index: int)
    requires
        0 <= index < width * height,
        0 <= height,
    ensures
        0 < width,
        0 <= index / width < height,
        0 <= index % width < width,
        (index / width) * width + index % width == index,
{
    assert(0 < width) by (nonlinear_arith)
        requires
            0 <= index < width * height,
            0 <= height,
    ;
    vstd::arithmetic::div_mod::lemma_fundamental_div_mod(index, width);
    vstd::arithmetic::div_mod::lemma_div_pos_is_pos(index, width);
    let row = index / width;
    let col = index % width;
    assert(row < height && row * width + col == index) by (nonlinear_arith)
        requires
            index == width * row + col,
            0 <= col < width,
            index < width * height,
            0 <= row,
    ;
}

/// The index of the cell at `(row, col)` gives back its row and column.
pub proof fn lemma_position_of_index(width: int, row: int, col: int)
    requires
        0 <= row,
        0 <= col < width,
    ensures
        (row * width + col) / width == row,
        (row * width + col) % width == col,
{
    vstd::arithmetic::div_mod::lemma_fundamental_div_mod_converse(
        row * width + col,
        width,
        row,
        col,
    );
}

/// The state in the next generation of the cell with index `index` in
/// reading order.
pub fn next_cell(grid: &StandardGrid, index: usize) -> (alive: bool)
    requires
        grid.wf(),
        index < grid.board().width * grid.board().height(),
    ensures
        alive == grid.board().next_alive(
            index as int / grid.board().width as int,
            index as int % grid.board().width as int,
        ),
{
    let width: usize = grid.width();
    proof {
        lemma_cell_position(width as int, grid.board().height() as int, index as int);
    }
    let row: usize = index / width;
    let col: usize = index % width;
    let neighbors: u8 = grid.count_neighbors(row, col);
    let current: bool = grid.get_cell(row, col);
    match (current, neighbors) {
        (true, 2) | (true, 3) | (false, 3) => true,
        _ => false,
    }
}

/// The next state of each of the `cells` cells of the grid, in reading
/// order: rayon's `into_par_iter` on the range of indices, `map` with
/// [`next_cell`], and `collect` into a vector. Taken from rayon: the vector
/// holds, for every index of the range in order, what the mapped call
/// returned for it.
#[verifier::external_body]
pub(crate) fn next_cells(grid: &StandardGrid, cells: usize) -> (next: Vec<bool>)
    requires
        grid.wf(),
        cells == grid.board().width * grid.board().height(),
    ensures
        next@.len() == cells,
        forall|index: int|
            0 <= index < cells ==> #[trigger] next@[index] == grid.board().next_alive(
                index / grid.board().width as int,
                index % grid.board().width as int,
            ),
{
    (0..cells).into_par_iter().map(|index| next_cell(grid, index)).collect()
}

impl NaiveEngine {
    /// An engine for a grid of the given size with no live cell.
    pub fn new(width: usize, height: usize) -> (engine: Self)
        requires
            width * height <= usize::MAX,
        ensures
            engine.wf(),
            engine@ == Board::empty(width as nat, height as nat),
    {
        Self { grid: StandardGrid::new(width, height), next_grid: StandardGrid::new(width, height) }
    }

    /// An engine of the size of `grid` that holds its generation.
    pub fn from_grid<G: Grid + ?Sized>(grid: &G) -> (engine: Self)
        requires
            grid.wf(),
        ensures
            engine.wf(),
            engine@ == grid.board(),
    {
        let width: usize = grid.width();
        let height: usize = grid.height();
        let mut new_grid = StandardGrid::new(width, height);
        copy_cells(grid, &mut new_grid);
        proof {
            lemma_clipped_same(grid.board());
        }
        Self { grid: new_grid, next_grid: StandardGrid::new(width, height) }
    }

    /// Computes the next state of every cell, writes the states to the
    /// second grid, and makes that grid the current one.
    fn update_safe(&mut self)
        requires
            old(self).wf(),
        ensures
            final(self).wf(),
            final(self)@ == old(self)@.next(),
    {
        let width: usize = self.grid.width();
        let height: usize = self.grid.height();
        let new_cells: Vec<bool> = next_cells(&self.grid, height * width);
        let ghost board = self.grid.board();
        let size: usize = new_cells.len();
        proof {
            self.next_grid.lemma_board();
        }
        let mut index: usize = 0;
        while index < size
            invariant
                index <= size,
                size == width * height,
                new_cells@.len() == size,
                self.grid.wf(),
                self.next_grid.wf(),
                self.grid == old(self).grid,
                board == self.grid.board(),
                board.wf(),
                board.width == width,
                board.height() == height,
                self.next_grid.board().width == width,
                self.next_grid.board().height() == height,
                self.next_grid.board().wf(),
                forall|i: int|
                    0 <= i < size ==> #[trigger] new_cells@[i] == board.next_alive(
                        i / width as int,
                        i % width as int,
                    ),
                forall|r: int, c: int|
                    0 <= r < height && 0 <= c < width && r * width + c < index
                        ==> #[trigger] self.next_grid.board().alive(r, c) == board.next_alive(r, c),
            decreases size - index,
        {
            proof {
                lemma_cell_position(width as int, height as int, index as int);
            }
            let row: usize = index / width;
            let col: usize = index % width;
            let alive: bool = new_cells[index];
            let ghost before = self.next_grid.board();
            self.next_grid.set_cell(row, col, alive);
            proof {
                let after = self.next_grid.board();
                assert forall|r: int, c: int|
                    0 <= r < height && 0 <= c < width && r * width + c < index + 1 implies (
                #[trigger] after.alive(r, c)) == board.next_alive(r, c) by {
                    if r == row && c == col {
                    } else {
                        assert(after.alive(r, c) == before.alive(r, c));
                        if r * width + c == index {
                            lemma_position_of_index(width as int, r, c);
                        }
                    }
                }
            }
            index += 1;
        }
        proof {
            lemma_next_shape(board);
            assert forall|r: int, c: int| self.next_grid.board().contains(r, c) implies (
            #[trigger] self.next_grid.board().alive(r, c)) == board.next().alive(r, c) by {
                lemma_cell_index(width as int, height as int, r, c);
            }
            lemma_board_ext(self.next_grid.board(), board.next());
        }
        std::mem::swap(&mut self.grid, &mut self.next_grid);
    }

    /// Advances the engine by one generation.
    pub fn step(&mut self)
        requires
            old(self).wf(),
        ensures
            final(self).wf(),
            final(self)@ == old(self)@.next(),
    {
        self.update_safe();
    }

    /// The grid that holds the current generation.
    pub fn get_grid(&self) -> (grid: &StandardGrid)
        requires
            self.wf(),
        ensures
            grid.wf(),
            grid.board() == self@,
    {
        &self.grid
    }

    /// Replaces the generation by that of `grid`, and takes its size.
    pub fn set_grid<G: Grid + ?Sized>(&mut self, grid: &G)
        requires
            old(self).wf(),
            grid.wf(),
        ensures
            final(self).wf(),
            final(self)@ == grid.board(),
    {
        if self.grid.width() != grid.width() || self.grid.height() != grid.height() {
            self.grid = StandardGrid::new(grid.width(), grid.height());
            self.next_grid = StandardGrid::new(grid.width(), grid.height());
        } else {
            self.grid.clear();
        }
        copy_cells(grid, &mut self.grid);
        proof {
            lemma_clipped_same(grid.board());
        }
    }

    /// Cells per row.
    pub fn width(&self) -> (width: usize)
        requires
            self.wf(),
        ensures
            width == self@.width,
    {
        self.grid.width()
    }

    /// Rows.
    pub fn height(&self) -> (height: usize)
        requires
            self.wf(),
        ensures
            height == self@.height(),
    {
        self.grid.height()
    }

    /// Whether the cell is alive.
    pub fn get_cell(&self, row: usize, col: usize) -> (alive: bool)
        requires
            self.wf(),
            row < self@.height(),
            col < self@.width,
        ensures
            alive == self@.alive(row as int, col as int),
    {
        self.grid.get_cell(row, col)
    }

    /// The number of live cells.
    pub fn count_live_cells(&self) -> (count: usize)
        requires
            self.wf(),
        ensures
            count == self@.live_count(),
    {
        self.grid.count_live_cells()
    }
}

/// Copies the cells of `source` to `target`, as far as the two overlap.
/// Cells of `target` beyond `source` are left as they are.
pub fn copy_cells<G: Grid + ?Sized>(source: &G, target: &mut StandardGrid)
    requires
        source.wf(),
        old(target).wf(),
    ensures
        final(target).wf(),
        final(target).board().width == old(target).board().width,
        final(target).board().height() == old(target).board().height(),
        forall|r: int, c: int|
            final(target).board().contains(r, c) ==> #[trigger] final(target).board().alive(r, c)
                == (if source.board().contains(r, c) {
                source.board().alive(r, c)
            } else {
                old(target).board().alive(r, c)
            }),
        old(target).board().width == source.board().width && old(target).board().height()
            == source.board().height() ==> final(target).board() == source.board(),
{
    let rows: usize = if source.height() < target.height() {
        source.height()
    } else {
        target.height()
    };
    let cols: usize = if source.width() < target.width() {
        source.width()
    } else {
        target.width()
    };
    let ghost from = source.board();
    let ghost start = target.board();
    let mut row: usize = 0;
    while row < rows
        invariant
            source.wf(),
            target.wf(),
            from == source.board(),
            from.wf(),
            target.board().wf(),
            target.board().width == start.width,
            target.board().height() == start.height(),
            rows <= start.height(),
            cols <= start.width,
            rows <= from.height(),
            cols <= from.width,
            rows == start.height() || rows == from.height(),
            cols == start.width || cols == from.width,
            row <= rows,
            forall|r: int, c: int|
                start.contains(r, c) ==> #[trigger] target.board().alive(r, c) == (if r < row
                    && from.contains(r, c) {
                    from.alive(r, c)
                } else {
                    start.alive(r, c)
                }),
        decreases rows - row,
    {
        let mut col: usize = 0;
        while col < cols
            invariant
                source.wf(),
                target.wf(),
                from == source.board(),
                from.wf(),
                target.board().wf(),
                target.board().width == start.width,
                target.board().height() == start.height(),
                rows <= start.height(),
                cols <= start.width,
                rows <= from.height(),
                cols <= from.width,
                rows == start.height() || rows == from.height(),
                cols == start.width || cols == from.width,
                row < rows,
                col <= cols,
                forall|r: int, c: int|
                    start.contains(r, c) ==> #[trigger] target.board().alive(r, c) == (if (r < row
                        || (r == row && c < col)) && from.contains(r, c) {
                        from.alive(r, c)
                    } else {
                        start.alive(r, c)
                    }),
            decreases cols - col,
        {
            let ghost before = target.board();
            let alive: bool = source.get_cell(row, col);
            target.set_cell(row, col, alive);
            proof {
                assert forall|r: int, c: int| start.contains(r, c) implies (
                #[trigger] target.board().alive(r, c)) == (if (r < row || (r == row && c < col
                    + 1)) && from.contains(r, c) {
                    from.alive(r, c)
                } else {
                    start.alive(r, c)
                }) by {
                    assert(before.alive(r, c) == (if (r < row || (r == row && c < col))
                        && from.contains(r, c) {
                        from.alive(r, c)
                    } else {
                        start.alive(r, c)
                    }));
                }
            }
            col += 1;
        }
        row += 1;
    }
    proof {
        if start.width == from.width && start.height() == from.height() {
            lemma_board_ext(target.board(), from);
        }
    }
}

impl GameOfLifeEngine for NaiveEngine {
    open spec fn board(&self) -> Board {
        self@
    }

    open spec fn name(&self) -> Seq<char> {
        "Naive"@
    }

    /// The engine's invariant: its two grids are sound and of one size.
    closed spec fn wf(&self) -> bool {
        &&& self.grid.wf()
        &&& self.next_grid.wf()
        &&& self.next_grid.board().width == self.grid.board().width
        &&& self.next_grid.board().height() == self.grid.board().height()
    }

    fn step(&mut self) {
        self.update_safe();
    }

    fn set_grid<G: Grid + ?Sized>(&mut self, grid: &G)
        ensures
            final(self).board() == grid.board(),
    {
        NaiveEngine::set_grid(self, grid);
    }

    fn benchmark_info(&self) -> (info: EngineInfo)
        ensures
            info.description@ == "Basic cell-by-cell simulation with parallel row processing"@,
            info.memory_per_cell_bits == 8,
            info.supports_parallel,
            !info.supports_simd,
            info.min_grid_size == Some((1usize, 1usize)),
            info.max_grid_size.is_none(),
    {
        EngineInfo {
            name: owned("Naive"),
            description: owned("Basic cell-by-cell simulation with parallel row processing"),
            memory_per_cell_bits: 8,
            supports_parallel: true,
            supports_simd: false,
            min_grid_size: Some((1, 1)),
            max_grid_size: None,
        }
    }

    fn get_cell(&self, row: usize, col: usize) -> (alive: bool) {
        self.grid.get_cell(row, col)
    }

    fn width(&self) -> (width: usize) {
        self.grid.width()
    }

    fn height(&self) -> (height: usize) {
        self.grid.height()
    }

    fn count_live_cells(&self) -> (count: usize) {
        self.grid.count_live_cells()
    }
}

} // verus!
