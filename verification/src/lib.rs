//! Core logic of a solver for Wordle-family word puzzles: per-letter feedback
//! classification, an entropy-based guess selector, and the elimination
//! engines for the single-board game and the four-board (quordle) variant.
//!
//! All words are exactly five characters long. The solver proposes a guess,
//! an outside collaborator reports per-position feedback, and the candidate
//! pool is narrowed to the words consistent with that feedback until the
//! hidden word is found or no candidate remains.
#![verifier::loop_isolation(false)]

pub mod engine;
pub mod entropy;
pub mod feedback;
pub mod select;
