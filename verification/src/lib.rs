//! A solver for the 3×3×3 cube: states as elements of a finite group, moves as
//! its eighteen generators, and a staged, bounded, iteratively deepened search.

pub mod algorithm;
pub mod cube;
pub mod permutation;
pub mod solver;
pub mod stage;
pub mod table;
