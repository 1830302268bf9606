//! Conway's Game of Life on a toroidal grid, with an optional sustain mode
//! that forces one randomly chosen cell alive after every generation.
//!
//! `rules` holds the model of a generation, `universe` the grid that
//! computes it, `laws` and `patterns` what is proved of the model.
pub mod laws;
pub mod patterns;
mod random;
pub mod rules;
pub mod universe;
