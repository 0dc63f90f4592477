//! What a benchmark of an engine runs and what it counts. Taking the time is
//! left to the caller.

pub mod suite;

pub use suite::{BenchmarkCase, BenchmarkSuite, TestPattern};

use crate::engines::GameOfLifeEngine;
use vstd::prelude::*;

verus! {

/// What a run has to show for itself, apart from the time it took.
#[derive(Debug, Clone)]
pub struct BenchmarkCount {
    pub engine_name: String,
    pub steps: usize,
    pub total_cells: usize,
    pub live_cells: usize,
}

/// The counts of a run of `steps` steps that left `engine` as it is.
pub fn engine_counts<E: GameOfLifeEngine>(engine: &E, engine_name: String, steps: usize) -> (counts:
    BenchmarkCount)
    requires
        engine.wf(),
    ensures
        counts.engine_name@ == engine_name@,
        counts.steps == steps,
        counts.total_cells == engine.board().width * engine.board().height(),
        counts.live_cells == engine.board().live_count(),
{
    let width: usize = engine.width();
    let height: usize = engine.height();
    BenchmarkCount {
        engine_name,
        steps,
        total_cells: width * height,
        live_cells: engine.count_live_cells(),
    }
}

} // verus!
