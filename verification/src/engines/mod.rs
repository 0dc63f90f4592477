//! The simulation engines and what they have in common.

pub mod bits;
pub mod layout;
pub mod naive;
pub mod pool;
pub mod scheduler;
pub mod ultimate;

pub use naive::NaiveEngine;
pub use ultimate::{
    auto_from_grid_ultimate_engine, auto_new_ultimate_engine, create_optimal_engine,
    safe_auto_new_ultimate_engine, AutoEngine, UltimateEngine,
};

use crate::board::Board;
use crate::grid::Grid;
use vstd::prelude::*;

verus! {

/// What an engine says of itself.
#[derive(Debug, Clone)]
pub struct EngineInfo {
    pub name: String,
    pub description: String,
    /// Bits of memory that the engine spends on a cell.
    pub memory_per_cell_bits: usize,
    pub supports_parallel: bool,
    pub supports_simd: bool,
    pub min_grid_size: Option<(usize, usize)>,
    pub max_grid_size: Option<(usize, usize)>,
}

/// An engine: it holds a generation and advances it by Conway's rule.
pub trait GameOfLifeEngine {
    /// The generation that the engine holds.
    spec fn board(&self) -> Board;

    /// The engine's own invariant.
    spec fn wf(&self) -> bool;

    /// The name by which the engine goes.
    spec fn name(&self) -> Seq<char>;

    /// Advances the engine by one generation.
    fn step(&mut self)
        requires
            old(self).wf(),
        ensures
            final(self).wf(),
            final(self).name() == old(self).name(),
            final(self).board() == old(self).board().next(),
    ;

    /// Replaces the generation by that of `grid`. Where `grid` has another
    /// size than the engine, an engine either takes that size, or keeps its
    /// own and takes the cells of `grid` as far as the two overlap.
    fn set_grid<G: Grid + ?Sized>(&mut self, grid: &G)
        requires
            old(self).wf(),
            grid.wf(),
        ensures
            final(self).wf(),
            final(self).name() == old(self).name(),
            final(self).board() == grid.board() || final(self).board() == grid.board().clipped(
                old(self).board().width,
                old(self).board().height(),
            ),
            grid.board().width == old(self).board().width && grid.board().height() == old(
                self,
            ).board().height() ==> final(self).board() == grid.board(),
    ;

    /// What the engine says of itself.
    fn benchmark_info(&self) -> (info: EngineInfo)
        requires
            self.wf(),
        ensures
            info.name@ == self.name(),
    ;

    /// Whether the cell is alive.
    fn get_cell(&self, row: usize, col: usize) -> (alive: bool)
        requires
            self.wf(),
            row < self.board().height(),
            col < self.board().width,
        ensures
            alive == self.board().alive(row as int, col as int),
    ;

    /// Cells per row.
    fn width(&self) -> (width: usize)
        requires
            self.wf(),
        ensures
            width == self.board().width,
            self.board().wf(),
            self.board().width * self.board().height() <= usize::MAX,
    ;

    /// Rows.
    fn height(&self) -> (height: usize)
        requires
            self.wf(),
        ensures
            height == self.board().height(),
            self.board().wf(),
            self.board().width * self.board().height() <= usize::MAX,
    ;

    /// The number of live cells.
    fn count_live_cells(&self) -> (count: usize)
        requires
            self.wf(),
        ensures
            count == self.board().live_count(),
    ;

    /// Advances the engine by `steps` generations, one after the other.
    fn run_steps(&mut self, steps: usize)
        requires
            old(self).wf(),
        ensures
            final(self).wf(),
            final(self).name() == old(self).name(),
            final(self).board() == old(self).board().steps(steps as nat),
    {
        let mut done: usize = 0;
        while done < steps
            invariant
                done <= steps,
                self.wf(),
                self.name() == old(self).name(),
                self.board() == old(self).board().steps(done as nat),
            decreases steps - done,
        {
            self.step();
            done += 1;
        }
    }
}

/// Engines of any two kinds that start from the same generation agree
/// after the same number of steps: on every cell, and so on the number of
/// live cells.
pub proof fn lemma_engines_agree<A: GameOfLifeEngine, B: GameOfLifeEngine>(
    first_before: &A,
    first_after: &A,
    second_before: &B,
    second_after: &B,
    steps: nat,
)
    requires
        first_before.board() == second_before.board(),
        first_after.board() == first_before.board().steps(steps),
        second_after.board() == second_before.board().steps(steps),
    ensures
        first_after.board() == second_after.board(),
        first_after.board().live_count() == second_after.board().live_count(),
        forall|row: int, col: int|
            first_after.board().alive(row, col) == second_after.board().alive(row, col),
{
}

} // verus!
