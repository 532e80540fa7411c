//! A turn-based engine for a mine-clearing puzzle on a rectangular grid.
//!
//! The board is a row-major sequence of squares. A fifth of them hide a mine;
//! every other square carries the number of mines that touch it. The player
//! opens squares and plants flags, and wins by opening every safe square with
//! the whole stock of flags planted.

pub mod edge;
pub mod square;
pub mod position;
pub mod board;
pub mod numbering;
pub mod flood;
pub mod play;
pub mod pocket;
pub mod minefield;
pub mod sampler;
pub mod input;
pub mod render;
