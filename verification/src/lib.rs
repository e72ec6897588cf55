//! Population-based metaheuristic optimization: a generational evolutionary
//! engine over an arbitrary candidate representation and a particle swarm
//! optimizer over bounded vectors, both minimizing a black-box cost.
//!
//! All quantities are fixed-point numbers: an `i64` holding the real value
//! times [`fixed::SCALE`].

pub mod evolutionary;
pub mod fixed;
pub mod random;
pub mod scalar;
pub mod swarm;

pub use crate::evolutionary::genetic_algorithm::{Individual, Population};

use vstd::prelude::*;

verus! {

} // verus!
