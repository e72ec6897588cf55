//! Tests of the particle swarm engine.

use gpo::random::Lcg;
use gpo::swarm::{
    ConfigError, ConstantBias, Dimension, NoBias, Objective, SquareSum, SwarmConfig,
};

fn dim(name: &str, min: i64, max: i64) -> Dimension {
    Dimension { name: name.to_owned(), min, max }
}

#[test]
fn run_zero_iterations_returns_zero_vector() {
    let mut rng = Lcg::new(1);
    let mut swarm = SwarmConfig::<SquareSum, NoBias>::new()
        .with_dimensions(vec![dim("x", -10_000, 10_000), dim("y", -10_000, 10_000)])
        .with_swarm_size(10)
        .with_objective(SquareSum {})
        .build(&mut rng)
        .unwrap();
    let before: Vec<(Vec<i64>, Vec<i64>, Vec<i64>, i64)> = (0..swarm.num_particles())
        .map(|i| {
            let p = swarm.particle(i);
            (p.position.clone(), p.velocity.clone(), p.best_position.clone(), p.best_fitness)
        })
        .collect();
    let best = swarm.run(0, &mut rng);
    assert_eq!(best, vec![0, 0]);
    // Zero iterations leave the swarm untouched.
    for (i, (pos, vel, bp, bf)) in before.iter().enumerate() {
        let p = swarm.particle(i);
        assert_eq!(&p.position, pos);
        assert_eq!(&p.velocity, vel);
        assert_eq!(&p.best_position, bp);
        assert_eq!(p.best_fitness, *bf);
    }
}

#[test]
fn particles_start_with_worst_best_fitness_and_unit_velocity() {
    let mut rng = Lcg::new(21);
    let swarm = SwarmConfig::<SquareSum, NoBias>::new()
        .with_dimensions(vec![dim("x", -10_000, 10_000), dim("y", 2_000, 4_000)])
        .with_swarm_size(12)
        .with_objective(SquareSum {})
        .build(&mut rng)
        .unwrap();
    for i in 0..swarm.num_particles() {
        let p = swarm.particle(i);
        assert_eq!(p.best_fitness, i64::MAX);
        assert_eq!(p.best_position, p.position);
        for j in 0..swarm.num_dimensions() {
            // Velocity is drawn from [-1, 1] whatever the bounds are.
            assert!((-1_000..=1_000).contains(&p.velocity[j]));
        }
    }
}

#[test]
fn returned_best_costs_no_more_than_any_initial_position() {
    let mut rng = Lcg::new(33);
    let mut swarm = SwarmConfig::<SquareSum, NoBias>::new()
        .with_dimensions(vec![dim("x", -10_000, 10_000), dim("y", -10_000, 10_000)])
        .with_swarm_size(15)
        .with_inertia(500)
        .with_cognitive(1_000)
        .with_social(1_000)
        .with_objective(SquareSum {})
        .build(&mut rng)
        .unwrap();
    let initial_min = (0..swarm.num_particles())
        .map(|i| SquareSum {}.eval(&swarm.particle(i).position))
        .min()
        .unwrap();
    let best = swarm.run(3, &mut rng);
    assert!(SquareSum {}.eval(&best) <= initial_min);
}

#[test]
fn positions_stay_within_bounds_after_every_run() {
    let mut rng = Lcg::new(17);
    let dims = vec![dim("x", -10_000, 10_000), dim("y", 5_000, 7_000)];
    let mut swarm = SwarmConfig::<SquareSum, NoBias>::new()
        .with_dimensions(dims)
        .with_swarm_size(20)
        .with_inertia(800)
        .with_cognitive(1_500)
        .with_social(1_500)
        .with_objective(SquareSum {})
        .build(&mut rng)
        .unwrap();
    for _ in 0..5 {
        swarm.run(10, &mut rng);
        for i in 0..swarm.num_particles() {
            let p = swarm.particle(i);
            for j in 0..swarm.num_dimensions() {
                let d = swarm.dimension(j);
                assert!(d.min <= p.position[j] && p.position[j] <= d.max);
                assert!(d.min <= p.best_position[j] && p.best_position[j] <= d.max);
            }
        }
    }
}

#[test]
fn swarm_converges_near_the_origin() {
    let mut rng = Lcg::new(42);
    let mut swarm = SwarmConfig::<SquareSum, NoBias>::new()
        .with_dimensions(vec![dim("x", -10_000, 10_000), dim("y", -10_000, 10_000)])
        .with_swarm_size(60)
        .with_inertia(500)
        .with_cognitive(1_000)
        .with_social(1_000)
        .with_objective(SquareSum {})
        .build(&mut rng)
        .unwrap();
    let best = swarm.run(1_200, &mut rng);
    assert_eq!(best.len(), 2);
    assert!(best[0].abs() < 500, "x = {}", best[0]);
    assert!(best[1].abs() < 500, "y = {}", best[1]);
    let cost = SquareSum {}.eval(&best);
    assert!(cost <= 500, "cost = {}", cost);
}

#[test]
fn constant_bias_drives_particles_to_the_upper_bound() {
    let mut rng = Lcg::new(3);
    // No inertia, no pulls: the bias alone moves every particle up by
    // 0.1 per iteration until the hard clamp at the bound stops it.
    let mut swarm = SwarmConfig::<SquareSum, ConstantBias>::new()
        .with_dimensions(vec![dim("x", 0, 10_000)])
        .with_swarm_size(8)
        .with_objective(SquareSum {})
        .with_search(vec![ConstantBias { c: 100 }])
        .build(&mut rng)
        .unwrap();
    swarm.run(200, &mut rng);
    for i in 0..swarm.num_particles() {
        assert_eq!(swarm.particle(i).position[0], 10_000);
    }
}

#[test]
fn bias_list_of_wrong_length_is_ignored() {
    let mut rng = Lcg::new(4);
    // Two dimensions but one bias entry: the feature gate stays closed,
    // and with zero coefficients nothing ever moves.
    let mut swarm = SwarmConfig::<SquareSum, ConstantBias>::new()
        .with_dimensions(vec![dim("x", 0, 10_000), dim("y", 0, 10_000)])
        .with_swarm_size(5)
        .with_objective(SquareSum {})
        .with_search(vec![ConstantBias { c: 100 }])
        .build(&mut rng)
        .unwrap();
    let before: Vec<i64> = (0..swarm.num_particles())
        .map(|i| swarm.particle(i).position[0])
        .collect();
    swarm.run(50, &mut rng);
    let after: Vec<i64> = (0..swarm.num_particles())
        .map(|i| swarm.particle(i).position[0])
        .collect();
    assert_eq!(before, after);
}

#[test]
fn missing_objective_is_rejected() {
    let mut rng = Lcg::new(5);
    let r = SwarmConfig::<SquareSum, NoBias>::new().build(&mut rng);
    assert_eq!(r.err().unwrap(), ConfigError::MissingObjective);
}

#[test]
fn zero_swarm_size_is_rejected() {
    let mut rng = Lcg::new(6);
    let r = SwarmConfig::<SquareSum, NoBias>::new()
        .with_objective(SquareSum {})
        .with_swarm_size(0)
        .build(&mut rng);
    assert_eq!(r.err().unwrap(), ConfigError::ZeroSwarmSize);
}

#[test]
fn inverted_dimension_bounds_are_rejected() {
    let mut rng = Lcg::new(7);
    let r = SwarmConfig::<SquareSum, NoBias>::new()
        .with_dimensions(vec![dim("x", 10_000, -10_000)])
        .with_objective(SquareSum {})
        .build(&mut rng);
    assert_eq!(r.err().unwrap(), ConfigError::InvalidDimensions);
}

#[test]
fn oversized_coefficient_is_rejected() {
    let mut rng = Lcg::new(8);
    let r = SwarmConfig::<SquareSum, NoBias>::new()
        .with_objective(SquareSum {})
        .with_inertia(2_000_000_000)
        .build(&mut rng);
    assert_eq!(r.err().unwrap(), ConfigError::CoefficientOutOfRange);
}

#[test]
fn default_configuration_matches_the_documentation() {
    let c = SwarmConfig::<SquareSum, NoBias>::new();
    assert_eq!(c.dimensions.len(), 1);
    assert_eq!(c.dimensions[0].name, "x");
    assert_eq!(c.dimensions[0].min, -10_000);
    assert_eq!(c.dimensions[0].max, 10_000);
    assert_eq!(c.swarm_size, 100);
    assert_eq!(c.inertia, 0);
    assert_eq!(c.cognitive, 0);
    assert_eq!(c.social, 0);
    assert!(c.objective.is_none());
    assert_eq!(c.search.len(), 0);
}

#[test]
fn square_sum_evaluates_exactly() {
    // 2.0 squared plus 3.0 squared is 13.0.
    assert_eq!(SquareSum {}.eval(&vec![2_000, -3_000]), 13_000);
    assert_eq!(SquareSum {}.eval(&vec![]), 0);
}
