//! Genetic search for placements of N queens on an N x N board.
//!
//! A candidate board is a [`gene::Gene`]: one queen per column, stored as the
//! row of each queen. A [`genetic_algorithm::GeneticAlgorithm`] evolves a
//! population of genes by fitness-proportional selection, single-point
//! crossover and single-position mutation.

pub mod vector;
pub mod rows;
pub mod random;
pub mod gene;
pub mod laws;
pub mod population;
pub mod selection;
pub mod genetic_algorithm;
pub mod cells;
pub mod puzzle;
