//! The arrow-swapping puzzle: a row of cells holds right-pointing arrows,
//! left-pointing arrows and one gap. Arrows slide or jump into the gap, each
//! only in the direction it points, until the two groups have changed sides.
//!
//! `board` holds the mathematical model of a row and its rules, `engine` the
//! executable puzzle with its move history, `session` the screen flow around
//! one engine, and `laws` the theorems that tie the operations together.

pub mod board;
pub mod engine;
pub mod laws;
pub mod session;
