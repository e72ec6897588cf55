//! A particle swarm optimizer over fixed-point vectors with per-dimension
//! bounds.
//!
//! A [`Swarm`] holds particles with position and velocity vectors over an
//! ordered list of named [`Dimension`]s. Each iteration evaluates an
//! [`Objective`] for every particle, updates personal and global bests,
//! then updates every velocity (inertia, cognitive and social terms plus
//! an optional per-dimension [`SearchBias`]) and position, clamping each
//! coordinate into its dimension's bounds.

use vstd::prelude::*;

use crate::fixed::{COEFF_LIMIT, COORD_LIMIT, MAX_DIMS, SCALE, VEL_LIMIT};
use crate::fixed::{clamp_spec, div_scale, div_trunc};
use crate::random::RandomSource;

verus! {

/// One axis of the search space: a name and inclusive bounds.
pub struct Dimension {
    /// The axis name; it carries no meaning for the optimizer.
    pub name: String,
    /// Inclusive lower bound of the axis.
    pub min: i64,
    /// Inclusive upper bound of the axis.
    pub max: i64,
}

/// Valid bounds: ordered, and within the representable coordinate range.
pub open spec fn dims_wf(dims: Seq<Dimension>) -> bool {
    &&& dims.len() <= MAX_DIMS
    &&& forall|i: int| 0 <= i < dims.len() ==> {
        let d = #[trigger] dims[i];
        -COORD_LIMIT <= d.min <= d.max <= COORD_LIMIT
    }
}

/// The vector has one coordinate per dimension, each inside its bounds.
pub open spec fn in_bounds(pos: Seq<i64>, dims: Seq<Dimension>) -> bool {
    &&& pos.len() == dims.len()
    &&& forall|i: int| 0 <= i < dims.len()
        ==> (#[trigger] dims[i]).min <= pos[i] <= dims[i].max
}

/// Every velocity component is inside the representable range.
pub open spec fn vel_bounded(vel: Seq<i64>) -> bool {
    forall|i: int| 0 <= i < vel.len() ==> -VEL_LIMIT <= (#[trigger] vel[i]) <= VEL_LIMIT
}

/// The all-zero vector of length `n`: what a run reports when no
/// evaluation ever improved the initial worst-possible fitness.
pub open spec fn zeroes(n: int) -> Seq<i64> {
    Seq::new(n as nat, |i: int| 0i64)
}

/// The black-box cost to minimize: a pure function of the position.
pub trait Objective {
    /// The cost as a mathematical value.
    spec fn spec_eval(&self, pos: Seq<i64>) -> int;

    /// Evaluate the cost of a position.
    fn eval(&self, pos: &Vec<i64>) -> (r: i64)
        requires
            pos@.len() <= MAX_DIMS,
            forall|i: int| 0 <= i < pos@.len()
                ==> -COORD_LIMIT <= (#[trigger] pos@[i]) <= COORD_LIMIT,
        ensures
            r as int == self.spec_eval(pos@),
    ;
}

/// An optional per-dimension velocity bias, a pure function of the
/// current coordinate, bounded by the representable velocity range.
pub trait SearchBias {
    /// The bias as a mathematical value.
    spec fn spec_bias(&self, x: int) -> int;

    /// Evaluate the bias at a coordinate.
    fn bias(&self, x: i64) -> (r: i64)
        requires
            -COORD_LIMIT <= x <= COORD_LIMIT,
        ensures
            r as int == self.spec_bias(x as int),
            -VEL_LIMIT <= r <= VEL_LIMIT,
    ;
}

/// The absent search bias: always zero.
pub struct NoBias {
}

impl SearchBias for NoBias {
    open spec fn spec_bias(&self, x: int) -> int {
        0
    }

    fn bias(&self, x: i64) -> (r: i64) {
        0
    }
}

/// A search bias that pulls with the same constant force everywhere,
/// saturated at the representable velocity range.
pub struct ConstantBias {
    /// The force to apply, before saturation.
    pub c: i64,
}

impl SearchBias for ConstantBias {
    open spec fn spec_bias(&self, x: int) -> int {
        clamp_spec(self.c as int, -VEL_LIMIT as int, VEL_LIMIT as int)
    }

    fn bias(&self, x: i64) -> (r: i64) {
        crate::fixed::clamp(self.c, -VEL_LIMIT, VEL_LIMIT)
    }
}

/// The sum of squared coordinates, in fixed point: the usual sphere
/// benchmark, minimized at the origin.
pub struct SquareSum {
}

/// The fixed-point sum of squares of a vector.
pub open spec fn spec_square_sum(pos: Seq<i64>) -> int
    decreases pos.len(),
{
    if pos.len() == 0 {
        0
    } else {
        spec_square_sum(pos.drop_last()) + (pos.last() * pos.last()) / (SCALE as int)
    }
}

impl Objective for SquareSum {
    open spec fn spec_eval(&self, pos: Seq<i64>) -> int {
        spec_square_sum(pos)
    }

    fn eval(&self, pos: &Vec<i64>) -> (r: i64) {
        let mut acc: i64 = 0;
        let mut i: usize = 0;
        while i < pos.len()
            invariant
                i <= pos@.len(),
                pos@.len() <= MAX_DIMS,
                forall|j: int| 0 <= j < pos@.len()
                    ==> -COORD_LIMIT <= (#[trigger] pos@[j]) <= COORD_LIMIT,
                acc as int == spec_square_sum(pos@.take(i as int)),
                0 <= acc as int <= (i as int) * 1_000_000_000_000_000,
            decreases pos@.len() - i,
        {
            let x = pos[i];
            proof {
                assert(0 <= x * x <= 1_000_000_000_000_000_000) by (nonlinear_arith)
                    requires
                        -COORD_LIMIT <= x <= COORD_LIMIT,
                ;
                vstd::arithmetic::div_mod::lemma_div_is_ordered(
                    x as int * x as int,
                    1_000_000_000_000_000_000,
                    SCALE as int,
                );
                vstd::arithmetic::div_mod::lemma_div_pos_is_pos(x as int * x as int, SCALE as int);
                assert((i as int) * 1_000_000_000_000_000 <= 4096 * 1_000_000_000_000_000)
                    by (nonlinear_arith)
                    requires
                        0 <= i <= 4096,
                ;
                assert(pos@.take(i + 1 as int).drop_last() =~= pos@.take(i as int));
            }
            let square = x * x;
            acc = acc + square / SCALE;
            i = i + 1;
        }
        proof {
            assert(pos@.take(pos@.len() as int) =~= pos@);
        }
        acc
    }
}

/// The new velocity of one coordinate: inertia times the old velocity,
/// plus the cognitive pull toward the personal best and the social pull
/// toward the global best (each weighted by a fresh uniform draw in
/// `[0, 1)`), plus the bias, saturated at the representable velocity
/// range.
pub open spec fn spec_new_velocity(
    inertia: int,
    v: int,
    cognitive: int,
    r1: int,
    pb: int,
    social: int,
    r2: int,
    gb: int,
    p: int,
    bias: int,
) -> int {
    clamp_spec(
        div_trunc(inertia * v, SCALE as int)
            + div_trunc(div_trunc(cognitive * r1, SCALE as int) * (pb - p), SCALE as int)
            + div_trunc(div_trunc(social * r2, SCALE as int) * (gb - p), SCALE as int)
            + bias,
        -VEL_LIMIT as int,
        VEL_LIMIT as int,
    )
}

/// The new position of one coordinate: the old one moved by the new
/// velocity, clamped hard into the dimension's bounds; the velocity
/// itself is not reset or reflected on clamping.
pub open spec fn spec_new_position(p: int, nv: int, lo: int, hi: int) -> int {
    clamp_spec(p + nv, lo, hi)
}

/// The product of values within the given magnitudes stays within the
/// product of the magnitudes.
proof fn lemma_mul_bound(a: int, b: int, ca: int, cb: int)
    by (nonlinear_arith)
    requires
        -ca <= a <= ca,
        -cb <= b <= cb,
        0 <= ca,
        0 <= cb,
    ensures
        -(ca * cb) <= a * b <= ca * cb,
{
}

/// Truncating division by `SCALE` keeps a magnitude bound, divided.
proof fn lemma_div_trunc_bound(x: int, m: int)
    requires
        0 <= m,
        -m <= x <= m,
    ensures
        -(m / (SCALE as int)) <= div_trunc(x, SCALE as int) <= m / (SCALE as int),
{
    if x >= 0 {
        vstd::arithmetic::div_mod::lemma_div_is_ordered(x, m, SCALE as int);
        vstd::arithmetic::div_mod::lemma_div_pos_is_pos(x, SCALE as int);
    } else {
        vstd::arithmetic::div_mod::lemma_div_is_ordered(-x, m, SCALE as int);
        vstd::arithmetic::div_mod::lemma_div_pos_is_pos(-x, SCALE as int);
    }
}

/// One coordinate of the update pass: the velocity recurrence and the
/// clamped move, exactly as [`spec_new_velocity`] and
/// [`spec_new_position`] state them.
fn step_coord(
    p: i64,
    v: i64,
    pb: i64,
    gb: i64,
    r1: i64,
    r2: i64,
    inertia: i64,
    cognitive: i64,
    social: i64,
    bias: i64,
    lo: i64,
    hi: i64,
) -> (r: (i64, i64))
    requires
        -COORD_LIMIT <= lo <= hi <= COORD_LIMIT,
        lo <= p <= hi,
        -COORD_LIMIT <= pb <= COORD_LIMIT,
        -COORD_LIMIT <= gb <= COORD_LIMIT,
        -VEL_LIMIT <= v <= VEL_LIMIT,
        -VEL_LIMIT <= bias <= VEL_LIMIT,
        0 <= r1 < SCALE,
        0 <= r2 < SCALE,
        -COEFF_LIMIT <= inertia <= COEFF_LIMIT,
        -COEFF_LIMIT <= cognitive <= COEFF_LIMIT,
        -COEFF_LIMIT <= social <= COEFF_LIMIT,
    ensures
        r.1 as int == spec_new_velocity(
            inertia as int, v as int, cognitive as int, r1 as int, pb as int,
            social as int, r2 as int, gb as int, p as int, bias as int,
        ),
        r.0 as int == spec_new_position(p as int, r.1 as int, lo as int, hi as int),
        -VEL_LIMIT <= r.1 <= VEL_LIMIT,
        lo <= r.0 <= hi,
{
    proof {
        lemma_mul_bound(inertia as int, v as int, COEFF_LIMIT as int, VEL_LIMIT as int);
        lemma_mul_bound(cognitive as int, r1 as int, COEFF_LIMIT as int, SCALE as int);
        lemma_mul_bound(social as int, r2 as int, COEFF_LIMIT as int, SCALE as int);
    }
    let t1: i128 = div_scale((inertia as i128) * (v as i128));
    let c1: i128 = div_scale((cognitive as i128) * (r1 as i128));
    let c2: i128 = div_scale((social as i128) * (r2 as i128));
    proof {
        lemma_div_trunc_bound(
            inertia as int * v as int,
            COEFF_LIMIT as int * VEL_LIMIT as int,
        );
        lemma_div_trunc_bound(
            cognitive as int * r1 as int,
            COEFF_LIMIT as int * SCALE as int,
        );
        lemma_div_trunc_bound(social as int * r2 as int, COEFF_LIMIT as int * SCALE as int);
        lemma_mul_bound(c1 as int, pb as int - p as int, 1_000_000_000, 2_000_000_000);
        lemma_mul_bound(c2 as int, gb as int - p as int, 1_000_000_000, 2_000_000_000);
    }
    let t2: i128 = div_scale(c1 * ((pb as i128) - (p as i128)));
    let t3: i128 = div_scale(c2 * ((gb as i128) - (p as i128)));
    proof {
        lemma_div_trunc_bound(
            c1 as int * (pb as int - p as int),
            2_000_000_000_000_000_000,
        );
        lemma_div_trunc_bound(
            c2 as int * (gb as int - p as int),
            2_000_000_000_000_000_000,
        );
    }
    let raw: i128 = t1 + t2 + t3 + (bias as i128);
    let nv: i64 = if raw < -VEL_LIMIT as i128 {
        -VEL_LIMIT
    } else if raw > VEL_LIMIT as i128 {
        VEL_LIMIT
    } else {
        raw as i64
    };
    let moved: i128 = (p as i128) + (nv as i128);
    let np: i64 = if moved < lo as i128 {
        lo
    } else if moved > hi as i128 {
        hi
    } else {
        moved as i64
    };
    (np, nv)
}

/// An element-for-element copy of a coordinate vector.
fn copy_vec(v: &Vec<i64>) -> (r: Vec<i64>)
    ensures
        r@ == v@,
{
    let mut r: Vec<i64> = Vec::new();
    let mut i: usize = 0;
    while i < v.len()
        invariant
            i <= v@.len(),
            r@ == v@.take(i as int),
        decreases v@.len() - i,
    {
        r.push(v[i]);
        proof {
            assert(r@ =~= v@.take(i + 1 as int));
        }
        i = i + 1;
    }
    proof {
        assert(v@.take(v@.len() as int) =~= v@);
    }
    r
}

/// One candidate solution of the swarm: where it is, how it moves, and
/// the best point it has seen.
pub struct Particle {
    /// Current coordinates, one per dimension, always within bounds.
    pub position: Vec<i64>,
    /// Current velocity, one component per dimension.
    pub velocity: Vec<i64>,
    /// The best position this particle has evaluated so far.
    pub best_position: Vec<i64>,
    /// The cost at `best_position`; starts at the worst possible value.
    pub best_fitness: i64,
}

/// Well-formedness of one particle over the dimension list.
pub open spec fn particle_wf(p: Particle, dims: Seq<Dimension>) -> bool {
    &&& in_bounds(p.position@, dims)
    &&& in_bounds(p.best_position@, dims)
    &&& p.velocity@.len() == dims.len()
    &&& vel_bounded(p.velocity@)
}

/// A particle with its position drawn uniformly within each dimension's
/// bounds, a velocity drawn uniformly from `[-1, 1]`, its personal best
/// at the initial position, and the worst possible best fitness.
fn init_particle<R: RandomSource>(dims: &Vec<Dimension>, rng: &mut R) -> (r: Particle)
    requires
        dims_wf(dims@),
    ensures
        particle_wf(r, dims@),
        r.best_position@ == r.position@,
        r.best_fitness == i64::MAX,
        forall|j: int| 0 <= j < r.velocity@.len() ==> -SCALE <= (#[trigger] r.velocity@[j]) <= SCALE,
{
    let mut position: Vec<i64> = Vec::new();
    let mut velocity: Vec<i64> = Vec::new();
    let mut i: usize = 0;
    while i < dims.len()
        invariant
            i <= dims@.len(),
            dims_wf(dims@),
            position@.len() == i,
            velocity@.len() == i,
            forall|j: int| 0 <= j < i
                ==> (#[trigger] dims@[j]).min <= position@[j] <= dims@[j].max,
            forall|j: int| 0 <= j < i ==> -SCALE <= (#[trigger] velocity@[j]) <= SCALE,
        decreases dims@.len() - i,
    {
        position.push(rng.next_between(dims[i].min, dims[i].max));
        velocity.push(rng.next_between(-SCALE, SCALE));
        i = i + 1;
    }
    let best_position = copy_vec(&position);
    Particle { position, velocity, best_position, best_fitness: i64::MAX }
}

/// Why a swarm configuration was rejected.
#[derive(Clone, Copy, PartialEq, Eq, Structural, Debug)]
pub enum ConfigError {
    /// No objective function was supplied; it is mandatory.
    MissingObjective,
    /// The swarm size is zero.
    ZeroSwarmSize,
    /// A dimension's bounds are inverted or outside the representable
    /// range, or there are more dimensions than the representation
    /// supports.
    InvalidDimensions,
    /// A coefficient lies outside the representable range.
    CoefficientOutOfRange,
}

/// All three coefficients are within the representable range.
pub open spec fn coeffs_wf(inertia: i64, cognitive: i64, social: i64) -> bool {
    &&& -COEFF_LIMIT <= inertia <= COEFF_LIMIT
    &&& -COEFF_LIMIT <= cognitive <= COEFF_LIMIT
    &&& -COEFF_LIMIT <= social <= COEFF_LIMIT
}

/// The swarm engine's configuration surface, with the documented
/// defaults; [`SwarmConfig::build`] validates it and makes the swarm.
pub struct SwarmConfig<F: Objective, B: SearchBias> {
    /// The search space; defaults to a single dimension `x` in `[-10, 10]`.
    pub dimensions: Vec<Dimension>,
    /// How many particles; defaults to 100.
    pub swarm_size: usize,
    /// Weight of the previous velocity; defaults to 0.
    pub inertia: i64,
    /// Weight of the pull toward the personal best; defaults to 0.
    pub cognitive: i64,
    /// Weight of the pull toward the global best; defaults to 0.
    pub social: i64,
    /// The cost to minimize; mandatory, so there is no default.
    pub objective: Option<F>,
    /// Optional per-dimension bias terms, applied only when there is
    /// exactly one per dimension; defaults to none.
    pub search: Vec<B>,
}

impl<F: Objective, B: SearchBias> SwarmConfig<F, B> {
    /// The defaults: one dimension `x` in `[-10, 10]`, 100 particles,
    /// zero coefficients, no objective yet, no search bias.
    pub fn new() -> (r: Self)
        ensures
            r.dimensions@.len() == 1,
            r.dimensions@[0].min == -10 * SCALE,
            r.dimensions@[0].max == 10 * SCALE,
            r.swarm_size == 100,
            r.inertia == 0,
            r.cognitive == 0,
            r.social == 0,
            r.objective is None,
            r.search@.len() == 0,
    {
        let mut dimensions: Vec<Dimension> = Vec::new();
        dimensions.push(Dimension { name: "x".to_owned(), min: -10 * SCALE, max: 10 * SCALE });
        SwarmConfig {
            dimensions,
            swarm_size: 100,
            inertia: 0,
            cognitive: 0,
            social: 0,
            objective: None,
            search: Vec::new(),
        }
    }

    /// Replace the dimension list.
    pub fn with_dimensions(self, dimensions: Vec<Dimension>) -> (r: Self)
        ensures
            r == (SwarmConfig { dimensions, ..self }),
    {
        SwarmConfig { dimensions, ..self }
    }

    /// Replace the swarm size.
    pub fn with_swarm_size(self, swarm_size: usize) -> (r: Self)
        ensures
            r == (SwarmConfig { swarm_size, ..self }),
    {
        SwarmConfig { swarm_size, ..self }
    }

    /// Replace the inertia coefficient.
    pub fn with_inertia(self, inertia: i64) -> (r: Self)
        ensures
            r == (SwarmConfig { inertia, ..self }),
    {
        SwarmConfig { inertia, ..self }
    }

    /// Replace the cognitive coefficient.
    pub fn with_cognitive(self, cognitive: i64) -> (r: Self)
        ensures
            r == (SwarmConfig { cognitive, ..self }),
    {
        SwarmConfig { cognitive, ..self }
    }

    /// Replace the social coefficient.
    pub fn with_social(self, social: i64) -> (r: Self)
        ensures
            r == (SwarmConfig { social, ..self }),
    {
        SwarmConfig { social, ..self }
    }

    /// Supply the objective function.
    pub fn with_objective(self, objective: F) -> (r: Self)
        ensures
            r == (SwarmConfig { objective: Some(objective), ..self }),
    {
        SwarmConfig { objective: Some(objective), ..self }
    }

    /// Supply the per-dimension search bias list.
    pub fn with_search(self, search: Vec<B>) -> (r: Self)
        ensures
            r == (SwarmConfig { search, ..self }),
    {
        SwarmConfig { search, ..self }
    }

    /// Whether the dimension list is acceptable.
    fn check_dimensions(&self) -> (r: bool)
        ensures
            r == dims_wf(self.dimensions@),
    {
        if self.dimensions.len() > MAX_DIMS {
            return false;
        }
        let mut i: usize = 0;
        while i < self.dimensions.len()
            invariant
                i <= self.dimensions@.len(),
                forall|j: int| 0 <= j < i ==> {
                    let d = #[trigger] self.dimensions@[j];
                    -COORD_LIMIT <= d.min <= d.max <= COORD_LIMIT
                },
            decreases self.dimensions@.len() - i,
        {
            let d = &self.dimensions[i];
            if d.min < -COORD_LIMIT || d.max > COORD_LIMIT || d.min > d.max {
                return false;
            }
            i = i + 1;
        }
        true
    }

    /// Validate the configuration and build the swarm, initializing
    /// every particle; each error names the first reason, in the order
    /// missing objective, zero size, bad dimensions, bad coefficients.
    pub fn build<R: RandomSource>(self, rng: &mut R) -> (r: Result<Swarm<F, B>, ConfigError>)
        ensures
            r is Ok <==> {
                &&& self.objective is Some
                &&& self.swarm_size >= 1
                &&& dims_wf(self.dimensions@)
                &&& coeffs_wf(self.inertia, self.cognitive, self.social)
            },
            r == Result::<Swarm<F, B>, ConfigError>::Err(ConfigError::MissingObjective)
                <==> self.objective is None,
            r == Result::<Swarm<F, B>, ConfigError>::Err(ConfigError::ZeroSwarmSize)
                <==> self.objective is Some && self.swarm_size == 0,
            r == Result::<Swarm<F, B>, ConfigError>::Err(ConfigError::InvalidDimensions)
                <==> self.objective is Some && self.swarm_size >= 1
                    && !dims_wf(self.dimensions@),
            r == Result::<Swarm<F, B>, ConfigError>::Err(ConfigError::CoefficientOutOfRange)
                <==> self.objective is Some && self.swarm_size >= 1
                    && dims_wf(self.dimensions@)
                    && !coeffs_wf(self.inertia, self.cognitive, self.social),
            r matches Ok(s) ==> {
                &&& s.wf()
                &&& s.spec_dimensions() == self.dimensions@
                &&& s.spec_particles().len() == self.swarm_size
                &&& s.spec_inertia() == self.inertia
                &&& s.spec_cognitive() == self.cognitive
                &&& s.spec_social() == self.social
                &&& self.objective matches Some(f) && s.spec_objective() == f
                &&& s.spec_search() == self.search@
                &&& forall|i: int| 0 <= i < s.spec_particles().len() ==> {
                    let p = #[trigger] s.spec_particles()[i];
                    &&& p.best_fitness == i64::MAX
                    &&& p.best_position@ == p.position@
                    &&& forall|j: int| 0 <= j < p.velocity@.len()
                        ==> -SCALE <= (#[trigger] p.velocity@[j]) <= SCALE
                }
            },
    {
        if self.swarm_size == 0 && self.objective.is_some() {
            return Err(ConfigError::ZeroSwarmSize);
        }
        let dims_ok = self.check_dimensions();
        let SwarmConfig { dimensions, swarm_size, inertia, cognitive, social, objective, search } =
            self;
        let objective = match objective {
            Some(f) => f,
            None => {
                return Err(ConfigError::MissingObjective);
            },
        };
        if !dims_ok {
            return Err(ConfigError::InvalidDimensions);
        }
        if inertia < -COEFF_LIMIT || inertia > COEFF_LIMIT || cognitive < -COEFF_LIMIT
            || cognitive > COEFF_LIMIT || social < -COEFF_LIMIT || social > COEFF_LIMIT {
            return Err(ConfigError::CoefficientOutOfRange);
        }
        let mut particles: Vec<Particle> = Vec::new();
        let mut i: usize = 0;
        while i < swarm_size
            invariant
                i <= swarm_size,
                dims_wf(dimensions@),
                particles@.len() == i,
                forall|j: int| 0 <= j < i ==> particle_wf(#[trigger] particles@[j], dimensions@),
                forall|j: int| 0 <= j < i ==> {
                    let p = #[trigger] particles@[j];
                    &&& p.best_fitness == i64::MAX
                    &&& p.best_position@ == p.position@
                    &&& forall|l: int| 0 <= l < p.velocity@.len()
                        ==> -SCALE <= (#[trigger] p.velocity@[l]) <= SCALE
                },
            decreases swarm_size - i,
        {
            let p = init_particle(&dimensions, rng);
            particles.push(p);
            i = i + 1;
        }
        Ok(Swarm { dimensions, particles, inertia, cognitive, social, objective, search })
    }
}

/// The particle swarm engine.
pub struct Swarm<F: Objective, B: SearchBias> {
    dimensions: Vec<Dimension>,
    particles: Vec<Particle>,
    inertia: i64,
    cognitive: i64,
    social: i64,
    objective: F,
    search: Vec<B>,
}

impl<F: Objective, B: SearchBias> Swarm<F, B> {
    /// The search space.
    pub closed spec fn spec_dimensions(&self) -> Seq<Dimension> {
        self.dimensions@
    }

    /// The particles, in order.
    pub closed spec fn spec_particles(&self) -> Seq<Particle> {
        self.particles@
    }

    /// The inertia coefficient.
    pub closed spec fn spec_inertia(&self) -> i64 {
        self.inertia
    }

    /// The cognitive coefficient.
    pub closed spec fn spec_cognitive(&self) -> i64 {
        self.cognitive
    }

    /// The social coefficient.
    pub closed spec fn spec_social(&self) -> i64 {
        self.social
    }

    /// The objective function.
    pub closed spec fn spec_objective(&self) -> F {
        self.objective
    }

    /// The search bias list.
    pub closed spec fn spec_search(&self) -> Seq<B> {
        self.search@
    }

    /// Well-formedness: valid dimensions, bounded coefficients, and
    /// every particle well formed over the dimensions.
    pub open spec fn wf(&self) -> bool {
        &&& dims_wf(self.spec_dimensions())
        &&& coeffs_wf(self.spec_inertia(), self.spec_cognitive(), self.spec_social())
        &&& forall|i: int| 0 <= i < self.spec_particles().len()
            ==> particle_wf(#[trigger] self.spec_particles()[i], self.spec_dimensions())
    }

    /// How many dimensions the search space has.
    pub fn num_dimensions(&self) -> (r: usize)
        ensures
            r == self.spec_dimensions().len(),
    {
        self.dimensions.len()
    }

    /// How many particles the swarm holds.
    pub fn num_particles(&self) -> (r: usize)
        ensures
            r == self.spec_particles().len(),
    {
        self.particles.len()
    }

    /// The particle at `index`.
    pub fn particle(&self, index: usize) -> (r: &Particle)
        requires
            index < self.spec_particles().len(),
        ensures
            *r == self.spec_particles()[index as int],
    {
        &self.particles[index]
    }

    /// The dimension at `index`.
    pub fn dimension(&self, index: usize) -> (r: &Dimension)
        requires
            index < self.spec_dimensions().len(),
        ensures
            *r == self.spec_dimensions()[index as int],
    {
        &self.dimensions[index]
    }

    /// The global-best pair is coherent: either still the initial
    /// worst-possible value over the zero vector, or a position within
    /// bounds carrying exactly its own cost.
    pub open spec fn gb_ok(&self, gb_pos: Seq<i64>, gb_fit: i64) -> bool {
        &&& gb_pos.len() == self.spec_dimensions().len()
        &&& {
            ||| (gb_fit == i64::MAX && gb_pos == zeroes(self.spec_dimensions().len() as int))
            ||| (in_bounds(gb_pos, self.spec_dimensions())
                && gb_fit as int == self.spec_objective().spec_eval(gb_pos))
        }
    }
}

/// The least cost the objective takes on any of the particles'
/// current positions (the worst possible value if there are none).
pub open spec fn spec_min_eval<F: Objective>(obj: F, ps: Seq<Particle>) -> int
    decreases ps.len(),
{
    if ps.len() == 0 {
        i64::MAX as int
    } else if obj.spec_eval(ps.last().position@) < spec_min_eval(obj, ps.drop_last()) {
        obj.spec_eval(ps.last().position@)
    } else {
        spec_min_eval(obj, ps.drop_last())
    }
}

/// The smaller of two values.
pub open spec fn min2(a: int, b: int) -> int {
    if a <= b {
        a
    } else {
        b
    }
}

/// A vector within per-dimension bounds is within the representable
/// coordinate range.
proof fn lemma_in_bounds_coords(pos: Seq<i64>, dims: Seq<Dimension>)
    requires
        dims_wf(dims),
        in_bounds(pos, dims),
    ensures
        forall|j: int| 0 <= j < pos.len() ==> -COORD_LIMIT <= (#[trigger] pos[j]) <= COORD_LIMIT,
{
    assert forall|j: int| 0 <= j < pos.len() implies
        -COORD_LIMIT <= (#[trigger] pos[j]) <= COORD_LIMIT by {
        assert(dims[j].min <= pos[j] <= dims[j].max);
        assert(-COORD_LIMIT <= dims[j].min <= dims[j].max <= COORD_LIMIT);
    }
}

/// What the evaluation pass does to one particle's personal best:
/// adopt the current position and its cost exactly when the cost
/// strictly improves on the best fitness seen so far.
pub open spec fn personal_best_step<F: Objective>(obj: F, before: Particle, after: Particle) -> bool {
    &&& after.position@ == before.position@
    &&& after.velocity@ == before.velocity@
    &&& if obj.spec_eval(before.position@) < before.best_fitness {
        &&& after.best_fitness as int == obj.spec_eval(before.position@)
        &&& after.best_position@ == before.position@
    } else {
        &&& after.best_fitness == before.best_fitness
        &&& after.best_position@ == before.best_position@
    }
}

impl<F: Objective, B: SearchBias> Swarm<F, B> {
    /// The evaluation pass of one iteration: compute every particle's
    /// cost, fold improvements into the personal bests, and fold the
    /// least cost of the pass into the global best. The pass completes
    /// for all particles before any update pass begins.
    fn evaluate_all(&mut self, gb_pos: &mut Vec<i64>, gb_fit: &mut i64)
        requires
            old(self).wf(),
            old(self).gb_ok(old(gb_pos)@, *old(gb_fit)),
        ensures
            final(self).wf(),
            final(self).spec_dimensions() == old(self).spec_dimensions(),
            final(self).spec_inertia() == old(self).spec_inertia(),
            final(self).spec_cognitive() == old(self).spec_cognitive(),
            final(self).spec_social() == old(self).spec_social(),
            final(self).spec_objective() == old(self).spec_objective(),
            final(self).spec_search() == old(self).spec_search(),
            final(self).spec_particles().len() == old(self).spec_particles().len(),
            forall|i: int| 0 <= i < old(self).spec_particles().len()
                ==> personal_best_step(
                    old(self).spec_objective(),
                    old(self).spec_particles()[i],
                    #[trigger] final(self).spec_particles()[i],
                ),
            final(self).gb_ok(final(gb_pos)@, *final(gb_fit)),
            *final(gb_fit) as int == min2(
                *old(gb_fit) as int,
                spec_min_eval(old(self).spec_objective(), old(self).spec_particles()),
            ),
    {
        let ghost obj = self.spec_objective();
        let ghost before = self.particles@;
        let ghost dims = self.spec_dimensions();
        let n = self.particles.len();
        let mut k: usize = 0;
        while k < n
            invariant
                k <= n,
                n == self.particles@.len(),
                self.particles@.len() == before.len(),
                self.wf(),
                self.spec_dimensions() == dims,
                self.spec_objective() == obj,
                self.spec_inertia() == old(self).spec_inertia(),
                self.spec_cognitive() == old(self).spec_cognitive(),
                self.spec_social() == old(self).spec_social(),
                self.spec_search() == old(self).spec_search(),
                forall|i: int| 0 <= i < k
                    ==> personal_best_step(obj, before[i], #[trigger] self.particles@[i]),
                forall|i: int| k <= i < n ==> #[trigger] self.particles@[i] == before[i],
                self.gb_ok(gb_pos@, *gb_fit),
                *gb_fit as int == min2(*old(gb_fit) as int, spec_min_eval(obj, before.take(k as int))),
            decreases n - k,
        {
            proof {
                assert(particle_wf(self.spec_particles()[k as int], dims));
                lemma_in_bounds_coords(self.spec_particles()[k as int].position@, dims);
            }
            let fit = self.objective.eval(&self.particles[k].position);
            if fit < self.particles[k].best_fitness {
                let np = Particle {
                    position: copy_vec(&self.particles[k].position),
                    velocity: copy_vec(&self.particles[k].velocity),
                    best_position: copy_vec(&self.particles[k].position),
                    best_fitness: fit,
                };
                self.particles[k] = np;
            }
            if fit < *gb_fit {
                *gb_pos = copy_vec(&self.particles[k].position);
                *gb_fit = fit;
            }
            proof {
                assert(before.take(k + 1 as int).drop_last() =~= before.take(k as int));
                assert(before.take(k + 1 as int).last() == before[k as int]);
            }
            k = k + 1;
        }
        proof {
            assert(before.take(n as int) =~= before);
        }
    }

    /// The update pass of one iteration: move every particle by the
    /// velocity recurrence against the given global-best position,
    /// leaving all personal bests as the evaluation pass set them.
    fn update_all<R: RandomSource>(&mut self, gb: &Vec<i64>, rng: &mut R)
        requires
            old(self).wf(),
            gb@.len() == old(self).spec_dimensions().len(),
            forall|i: int| 0 <= i < gb@.len() ==> -COORD_LIMIT <= (#[trigger] gb@[i]) <= COORD_LIMIT,
        ensures
            final(self).wf(),
            final(self).spec_dimensions() == old(self).spec_dimensions(),
            final(self).spec_inertia() == old(self).spec_inertia(),
            final(self).spec_cognitive() == old(self).spec_cognitive(),
            final(self).spec_social() == old(self).spec_social(),
            final(self).spec_objective() == old(self).spec_objective(),
            final(self).spec_search() == old(self).spec_search(),
            final(self).spec_particles().len() == old(self).spec_particles().len(),
            forall|i: int| 0 <= i < old(self).spec_particles().len() ==> {
                &&& (#[trigger] final(self).spec_particles()[i]).best_position@
                    == old(self).spec_particles()[i].best_position@
                &&& final(self).spec_particles()[i].best_fitness
                    == old(self).spec_particles()[i].best_fitness
            },
    {
        let ghost before = self.particles@;
        let n = self.particles.len();
        let mut k: usize = 0;
        while k < n
            invariant
                k <= n,
                n == self.particles@.len(),
                self.particles@.len() == before.len(),
                self.wf(),
                self.spec_dimensions() == old(self).spec_dimensions(),
                self.spec_objective() == old(self).spec_objective(),
                self.spec_inertia() == old(self).spec_inertia(),
                self.spec_cognitive() == old(self).spec_cognitive(),
                self.spec_social() == old(self).spec_social(),
                self.spec_search() == old(self).spec_search(),
                gb@.len() == self.spec_dimensions().len(),
                forall|i: int| 0 <= i < gb@.len()
                    ==> -COORD_LIMIT <= (#[trigger] gb@[i]) <= COORD_LIMIT,
                forall|i: int| 0 <= i < k ==> {
                    &&& (#[trigger] self.particles@[i]).best_position@ == before[i].best_position@
                    &&& self.particles@[i].best_fitness == before[i].best_fitness
                },
                forall|i: int| k <= i < n ==> #[trigger] self.particles@[i] == before[i],
            decreases n - k,
        {
            proof {
                assert(particle_wf(self.spec_particles()[k as int], self.spec_dimensions()));
            }
            let ghost mid = self.particles@;
            let np = move_particle(
                &self.particles[k],
                &self.dimensions,
                gb,
                self.inertia,
                self.cognitive,
                self.social,
                &self.search,
                rng,
            );
            self.particles[k] = np;
            proof {
                assert forall|i: int| 0 <= i < n implies
                    particle_wf(#[trigger] self.spec_particles()[i], self.spec_dimensions()) by {
                    if i != k {
                        assert(self.spec_particles()[i] == mid[i]);
                    }
                }
            }
            k = k + 1;
        }
    }

    /// Run exactly `iterations` iterations, each an evaluation pass
    /// followed by an update pass, and return the global best position
    /// found. The global best lives only within one call; with zero
    /// iterations the swarm is untouched and the zero vector is
    /// returned, as it also is if no evaluation ever improved the
    /// initial worst-possible fitness. After at least one iteration, a
    /// returned position lies within bounds and costs no more than the
    /// cheapest of the initial positions, all of which the first
    /// evaluation pass saw.
    pub fn run<R: RandomSource>(&mut self, iterations: usize, rng: &mut R) -> (r: Vec<i64>)
        requires
            old(self).wf(),
        ensures
            final(self).wf(),
            final(self).spec_dimensions() == old(self).spec_dimensions(),
            final(self).spec_particles().len() == old(self).spec_particles().len(),
            final(self).spec_inertia() == old(self).spec_inertia(),
            final(self).spec_cognitive() == old(self).spec_cognitive(),
            final(self).spec_social() == old(self).spec_social(),
            final(self).spec_objective() == old(self).spec_objective(),
            final(self).spec_search() == old(self).spec_search(),
            r@.len() == old(self).spec_dimensions().len(),
            iterations == 0 ==> *final(self) == *old(self),
            iterations == 0 ==> r@ == zeroes(old(self).spec_dimensions().len() as int),
            r@ == zeroes(old(self).spec_dimensions().len() as int)
                || in_bounds(r@, old(self).spec_dimensions()),
            iterations >= 1 ==> {
                ||| (in_bounds(r@, old(self).spec_dimensions())
                    && old(self).spec_objective().spec_eval(r@) <= spec_min_eval(
                        old(self).spec_objective(),
                        old(self).spec_particles(),
                    ))
                ||| (r@ == zeroes(old(self).spec_dimensions().len() as int)
                    && spec_min_eval(old(self).spec_objective(), old(self).spec_particles())
                        >= i64::MAX)
            },
    {
        let d = self.dimensions.len();
        let mut gb_pos: Vec<i64> = Vec::new();
        let mut i: usize = 0;
        while i < d
            invariant
                i <= d,
                gb_pos@.len() == i,
                forall|j: int| 0 <= j < i ==> (#[trigger] gb_pos@[j]) == 0i64,
            decreases d - i,
        {
            gb_pos.push(0);
            i = i + 1;
        }
        proof {
            assert(gb_pos@ =~= zeroes(d as int));
        }
        let mut gb_fit: i64 = i64::MAX;
        let mut it: usize = 0;
        while it < iterations
            invariant
                it <= iterations,
                self.wf(),
                self.spec_dimensions() == old(self).spec_dimensions(),
                self.spec_dimensions().len() == d,
                self.spec_particles().len() == old(self).spec_particles().len(),
                self.spec_inertia() == old(self).spec_inertia(),
                self.spec_cognitive() == old(self).spec_cognitive(),
                self.spec_social() == old(self).spec_social(),
                self.spec_objective() == old(self).spec_objective(),
                self.spec_search() == old(self).spec_search(),
                self.gb_ok(gb_pos@, gb_fit),
                it == 0 ==> gb_pos@ == zeroes(d as int),
                it == 0 ==> *self == *old(self),
                it >= 1 ==> gb_fit as int <= min2(
                    i64::MAX as int,
                    spec_min_eval(old(self).spec_objective(), old(self).spec_particles()),
                ),
            decreases iterations - it,
        {
            self.evaluate_all(&mut gb_pos, &mut gb_fit);
            proof {
                if gb_fit == i64::MAX && gb_pos@ == zeroes(d as int) {
                    assert forall|j: int| 0 <= j < gb_pos@.len() implies
                        -COORD_LIMIT <= (#[trigger] gb_pos@[j]) <= COORD_LIMIT by {
                        assert(gb_pos@[j] == zeroes(d as int)[j]);
                        assert(zeroes(d as int)[j] == 0i64);
                    }
                } else {
                    assert(in_bounds(gb_pos@, self.spec_dimensions()));
                    lemma_in_bounds_coords(gb_pos@, self.spec_dimensions());
                }
            }
            let snapshot = copy_vec(&gb_pos);
            self.update_all(&snapshot, rng);
            it = it + 1;
        }
        proof {
            if iterations >= 1 {
                let sm = spec_min_eval(old(self).spec_objective(), old(self).spec_particles());
                if gb_fit == i64::MAX && gb_pos@ == zeroes(d as int) {
                    assert(i64::MAX as int <= min2(i64::MAX as int, sm));
                    assert(sm >= i64::MAX);
                } else {
                    assert(in_bounds(gb_pos@, self.spec_dimensions()));
                    assert(self.spec_objective().spec_eval(gb_pos@) == gb_fit as int);
                    assert(gb_fit as int <= sm);
                }
            }
        }
        gb_pos
    }
}

/// One particle moved by one update step: per dimension, fresh uniform
/// draws `r1, r2` in `[0, 1)` feed the velocity recurrence, and the
/// position moves by the new velocity, clamped into bounds. The bias
/// term is taken from the search list only when that list has exactly
/// one entry per dimension, else it is zero.
fn move_particle<B: SearchBias, R: RandomSource>(
    p: &Particle,
    dims: &Vec<Dimension>,
    gb: &Vec<i64>,
    inertia: i64,
    cognitive: i64,
    social: i64,
    search: &Vec<B>,
    rng: &mut R,
) -> (r: Particle)
    requires
        dims_wf(dims@),
        particle_wf(*p, dims@),
        gb@.len() == dims@.len(),
        forall|i: int| 0 <= i < gb@.len() ==> -COORD_LIMIT <= (#[trigger] gb@[i]) <= COORD_LIMIT,
        coeffs_wf(inertia, cognitive, social),
    ensures
        particle_wf(r, dims@),
        r.best_position@ == p.best_position@,
        r.best_fitness == p.best_fitness,
{
    let d = dims.len();
    let use_bias = search.len() == d;
    let mut position: Vec<i64> = Vec::new();
    let mut velocity: Vec<i64> = Vec::new();
    let mut i: usize = 0;
    while i < d
        invariant
            i <= d,
            d == dims@.len(),
            dims_wf(dims@),
            particle_wf(*p, dims@),
            gb@.len() == d,
            forall|j: int| 0 <= j < gb@.len()
                ==> -COORD_LIMIT <= (#[trigger] gb@[j]) <= COORD_LIMIT,
            coeffs_wf(inertia, cognitive, social),
            use_bias ==> search@.len() == d,
            position@.len() == i,
            velocity@.len() == i,
            forall|j: int| 0 <= j < i
                ==> (#[trigger] dims@[j]).min <= position@[j] <= dims@[j].max,
            forall|j: int| 0 <= j < i ==> -VEL_LIMIT <= (#[trigger] velocity@[j]) <= VEL_LIMIT,
        decreases d - i,
    {
        proof {
            lemma_in_bounds_coords(p.position@, dims@);
        }
        let r1 = rng.next_between(0, SCALE - 1);
        let r2 = rng.next_between(0, SCALE - 1);
        let bias = if use_bias {
            search[i].bias(p.position[i])
        } else {
            0
        };
        let step = step_coord(
            p.position[i],
            p.velocity[i],
            p.best_position[i],
            gb[i],
            r1,
            r2,
            inertia,
            cognitive,
            social,
            bias,
            dims[i].min,
            dims[i].max,
        );
        position.push(step.0);
        velocity.push(step.1);
        i = i + 1;
    }
    Particle {
        position,
        velocity,
        best_position: copy_vec(&p.best_position),
        best_fitness: p.best_fitness,
    }
}

} // verus!
