//! Evolutionary (genetic) optimization.

pub mod genetic_algorithm;
