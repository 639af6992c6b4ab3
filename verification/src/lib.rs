//! A three-color variant of the Game of Life on a bounded grid that drifts
//! toward the border with fewer aligned triples.
//!
//! The crate holds the simulation core: the grid, the drift heuristic, the
//! translate-and-update transition, the seeder and the color histogram.
//! Every function carries a contract over the grid's mathematical view.

pub mod census;
pub mod drift;
pub mod driver;
pub mod grid;
pub mod laws;
pub mod outside;
pub mod rules;
pub mod seed;
