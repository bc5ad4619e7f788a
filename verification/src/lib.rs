//! Conway's Game of Life on a fixed-size torus.
//!
//! A [`World`] owns two equally sized cell buffers. Reads and writes go to
//! the current one; [`World::cycle`] computes the next generation into the
//! other buffer and then swaps their roles. Coordinates are signed and wrap
//! around both axes, so every pair of integers names a cell.
//!
//! What a world holds is described by its [`Generation`]: the dimensions and
//! the set of live cells. Every executable function states its effect on that
//! model, and the model's own laws are proved beside it.

pub mod cell;
pub mod generation;
pub mod patterns;
pub mod torus;
pub mod world;

pub use cell::Cell;
pub use generation::Generation;
pub use torus::normalize;
pub use world::{SizeError, World};
