//! A small constraint solver over rankings of a fixed set of developers.
//!
//! A `Ranking` is a permutation of the five developers, from best to worst.
//! The solver counts how many of a fixed set of pairwise and positional
//! constraints a ranking violates, and searches for a violation-free ranking
//! by randomized hill climbing.

pub mod rankings;
pub mod solver;
