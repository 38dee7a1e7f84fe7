//! A verified engine for Conway's Game of Life on a fixed-size toroidal grid.
//!
//! The grid is a flat, row-major vector of cells together with its width and
//! height. Coordinates one step outside the grid wrap around to the opposite
//! edge, so every cell has exactly eight neighbors. Each generation applies
//! the classic B3/S23 rule: a live cell survives with two or three live
//! neighbors, a dead cell is born with exactly three, and every decision is
//! made against a frozen snapshot of the previous generation.

pub mod cellule;
pub mod engine;
pub mod laws;
pub mod rules;

pub use cellule::Cellule;
pub use engine::App;
pub use engine::Msg;
pub use engine::wrap;
