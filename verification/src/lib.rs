//! A verified engine for a match-three puzzle board: a rectangular grid of
//! colored gems supporting swaps, run detection along rows and columns,
//! and gravity-based removal with random refill.

pub mod game;
pub mod gem;
pub mod grid;
pub mod laws;
pub mod runs;
pub mod store;
