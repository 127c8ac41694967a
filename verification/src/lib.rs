//! A small harness for daily puzzles: a shared puzzle contract, a runner that
//! parses a puzzle's text and computes its two answers, a closed registry of
//! the known puzzles, and the puzzle solvers themselves.

pub mod aoc;
pub mod days;
pub mod input;
pub mod sums;
pub mod text;
