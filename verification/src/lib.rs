//! Conway's Game of Life on a bounded rectangular grid.
//!
//! The crate has two parts: a parser that turns a text description of a
//! starting board into a typed grid, and a simulation engine that advances
//! the grid one generation at a time.  Neighbor lookups at the grid edge use
//! a clamp-to-self policy: an offset that would leave the grid is replaced by
//! the cell's own coordinate along that axis, and a clamped position that
//! coincides with the cell itself is skipped.

pub mod life;
pub mod parse;
