//! The names that most callers need.

pub use crate::engines::naive::NaiveEngine;
pub use crate::engines::ultimate::{
    auto_from_grid_ultimate_engine, auto_new_ultimate_engine, create_optimal_engine,
    safe_auto_new_ultimate_engine, AutoEngine, UltimateEngine,
};
pub use crate::engines::{EngineInfo, GameOfLifeEngine};
pub use crate::grid::{Grid, StandardGrid};
