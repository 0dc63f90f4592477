//! Conway's Game of Life with interchangeable engines.
//!
//! The mathematical model of a generation is [`board::Board`]; every engine
//! states what it does in terms of it. The bit-packed engine in
//! [`engines::ultimate`] stores one cell per bit and advances whole words at a
//! time; the cell-by-cell engine in [`engines::naive`] is the plain reading of
//! the rules.

pub mod benchmark;
pub mod board;
pub mod engines;
pub mod grid;
pub mod patterns;
pub mod prelude;
pub mod render;
pub mod text;

pub use engines::{EngineInfo, GameOfLifeEngine};
pub use grid::Grid;
