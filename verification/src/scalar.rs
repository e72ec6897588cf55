//! A minimal concrete candidate: one fixed-point gene, minimized by the
//! square of its value.

use vstd::prelude::*;

use crate::evolutionary::genetic_algorithm::Individual;
use crate::fixed::{COORD_LIMIT, SCALE, clamp, clamp_spec, div_trunc, half};
use crate::random::RandomSource;

verus! {

/// A candidate with a single scalar gene. Its fitness is the square of
/// the gene value (in fixed point), so evolution drives the gene to zero.
#[derive(Clone, Copy, PartialEq, Eq, Structural, Debug)]
pub struct ScalarIndividual {
    /// The gene, a fixed-point scalar; it saturates at the representable
    /// range `[-COORD_LIMIT, COORD_LIMIT]`.
    pub x: i64,
}

impl Individual for ScalarIndividual {
    open spec fn inv(&self) -> bool {
        -COORD_LIMIT <= self.x <= COORD_LIMIT
    }

    open spec fn spec_fitness(&self) -> int {
        (self.x * self.x) / (SCALE as int)
    }

    /// A gene drawn uniformly from `[-10, 10]`.
    fn new_random<R: RandomSource>(rng: &mut R) -> (r: Self)
        ensures
            -10 * SCALE <= r.x <= 10 * SCALE,
    {
        let x = rng.next_between(-10 * SCALE, 10 * SCALE);
        ScalarIndividual { x }
    }

    fn fitness(&self) -> (r: i64) {
        proof {
            assert(self.x * self.x <= COORD_LIMIT * COORD_LIMIT && self.x * self.x >= 0)
                by (nonlinear_arith)
                requires
                    -COORD_LIMIT <= self.x <= COORD_LIMIT,
            ;
        }
        let square = self.x * self.x;
        square / SCALE
    }

    fn duplicate(&self) -> (r: Self) {
        *self
    }

    /// Shift the gene by a uniform step in `[-1, 1]`, saturating at the
    /// representable range.
    fn mutate<R: RandomSource>(&mut self, rng: &mut R)
        ensures
            exists|d: int|
                -SCALE <= d <= SCALE && final(self).x == #[trigger] clamp_spec(
                    old(self).x + d,
                    -COORD_LIMIT as int,
                    COORD_LIMIT as int,
                ),
    {
        let step = rng.next_between(-SCALE, SCALE);
        self.x = clamp(self.x + step, -COORD_LIMIT, COORD_LIMIT);
        proof {
            assert(self.x == clamp_spec(
                old(self).x + step as int,
                -COORD_LIMIT as int,
                COORD_LIMIT as int,
            ));
        }
    }

    /// Averaging crossover: exactly two children, one at the midpoint of
    /// the parents, one at half their difference.
    fn crossover<R: RandomSource>(&self, other: &Self, rng: &mut R) -> (c: Vec<Self>)
        ensures
            c@.len() == 2,
            c@[0].x as int == div_trunc(self.x + other.x, 2),
            c@[1].x as int == div_trunc(self.x - other.x, 2),
    {
        let child1 = ScalarIndividual { x: half(self.x + other.x) };
        let child2 = ScalarIndividual { x: half(self.x - other.x) };
        let mut c: Vec<ScalarIndividual> = Vec::new();
        c.push(child1);
        c.push(child2);
        c
    }
}

} // verus!
