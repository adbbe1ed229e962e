//! Conway's Game of Life on a fixed, bounded grid: the grid and its cells,
//! the Moore neighbourhood clipped to the grid, the transition rule, the
//! simultaneous generation step, the text rendering, and the settings of a run.
pub mod cell;
pub mod neighborhood;
pub mod patterns;
pub mod render;
pub mod rule;
pub mod simulation;
pub mod world;
