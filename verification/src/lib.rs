//! Verified bookkeeping of a two-dimensional particle fluid.
//!
//! - `cell`: world positions, grid cells and the hash that buckets them.
//! - `sort`: the order of the grid's lookup entries.
//! - `grid`: the spatial hash grid that finds the particles near a position.
//! - `schedule`: the fixed-step scheduler that turns elapsed time into ticks.
//! - `state`: the index-aligned particle arrays with their grid and scheduler.
//! - `engine`: the decisions of the host's event loop.
//! - `render`: whole-number rules of the presentation layer.
//! - `cli`: the options of the command line.
//!
//! The arithmetic on positions, velocities and densities is the caller's:
//! the state is generic in their types.

pub mod cell;
pub mod cli;
pub mod engine;
pub mod grid;
pub mod render;
pub mod schedule;
pub mod sort;
pub mod state;
