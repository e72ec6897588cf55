//! Tests of the evolutionary engine.

use gpo::evolutionary::genetic_algorithm::{Selection, Tournament, best_of_indices};
use gpo::random::{Lcg, RandomSource};
use gpo::scalar::ScalarIndividual;
use gpo::{Individual, Population};

fn genes(p: &Population<ScalarIndividual, Tournament>) -> Vec<i64> {
    let mut out = Vec::new();
    for i in 0..p.size() {
        out.push(p.get(i).x);
    }
    out
}

#[test]
fn population_size_preserved_across_run() {
    let mut rng = Lcg::new(1);
    let mut p = Population::<ScalarIndividual, Tournament>::new(7, 300, Tournament { k: 3 }, &mut rng);
    assert_eq!(p.size(), 7);
    p.run(3, &mut rng);
    assert_eq!(p.size(), 7);
    let mut q = Population::<ScalarIndividual, Tournament>::new_random(5, &mut rng);
    q.run(2, &mut rng);
    assert_eq!(q.size(), 5);
}

#[test]
fn elitism_carries_top_individuals_unchanged() {
    let mut rng = Lcg::new(7);
    // Elitism fraction 0.5 of 6 individuals: the top 3 must survive as is.
    let mut p = Population::<ScalarIndividual, Tournament>::new(6, 500, Tournament { k: 3 }, &mut rng);
    p.sort();
    let top: Vec<i64> = genes(&p)[..3].to_vec();
    p.run_generation(&mut rng);
    let after = genes(&p);
    assert_eq!(&after[..3], &top[..]);
}

#[test]
fn best_fitness_never_regresses_with_elitism() {
    let mut rng = Lcg::new(11);
    // floor(30 * 0.1) = 3 elite individuals each generation.
    let mut p = Population::<ScalarIndividual, Tournament>::new(30, 100, Tournament { k: 3 }, &mut rng);
    let mut last = p.get_best().fitness();
    for _ in 0..20 {
        p.run(1, &mut rng);
        let best = p.get_best().fitness();
        assert!(best <= last);
        last = best;
    }
}

#[test]
fn tournament_of_one_is_a_uniform_draw() {
    let individuals = vec![
        ScalarIndividual { x: 5000 },
        ScalarIndividual { x: -2000 },
        ScalarIndividual { x: 100 },
        ScalarIndividual { x: 9000 },
    ];
    for seed in 0..50u64 {
        let mut a = Lcg::new(seed);
        let mut b = Lcg::new(seed);
        let picked = Tournament { k: 1 }.select(&individuals, &mut a);
        let drawn = b.next_index(individuals.len());
        assert_eq!(picked, drawn);
    }
}

#[test]
fn best_of_single_index_is_that_index() {
    let individuals = vec![
        ScalarIndividual { x: 5000 },
        ScalarIndividual { x: -2000 },
        ScalarIndividual { x: 100 },
    ];
    // Index 0 holds the worst individual; with one candidate it still wins.
    assert_eq!(best_of_indices(&individuals, &vec![0]), 0);
    assert_eq!(best_of_indices(&individuals, &vec![0, 2]), 2);
    assert_eq!(best_of_indices(&individuals, &vec![1, 2, 0]), 2);
    assert_eq!(best_of_indices(&individuals, &vec![1, 0]), 1);
}

#[test]
fn best_of_indices_ties_go_to_the_earliest_drawn() {
    // Genes 2.0 and -2.0 have equal fitness: the first drawn index wins.
    let individuals = vec![ScalarIndividual { x: 2000 }, ScalarIndividual { x: -2000 }];
    assert_eq!(best_of_indices(&individuals, &vec![1, 0]), 1);
    assert_eq!(best_of_indices(&individuals, &vec![0, 1]), 0);
    assert_eq!(best_of_indices(&individuals, &vec![1, 1, 0, 0]), 1);
}

#[test]
fn run_zero_generations_leaves_population_as_constructed() {
    let mut rng = Lcg::new(3);
    let mut p = Population::<ScalarIndividual, Tournament>::new(5, 400, Tournament { k: 3 }, &mut rng);
    let before = genes(&p);
    p.run(0, &mut rng);
    assert_eq!(genes(&p), before);
    p.evolve(0, &mut rng);
    assert_eq!(genes(&p), before);
}

#[test]
fn evolution_drives_scalar_gene_toward_zero() {
    let mut rng = Lcg::new(2024);
    // Population 200, tournament of 3, elitism 0.1, 200 generations.
    let mut p = Population::<ScalarIndividual, Tournament>::new(200, 100, Tournament { k: 3 }, &mut rng);
    p.run(200, &mut rng);
    let best = p.get_best();
    assert!(best.x.abs() < 500, "gene {} not near zero", best.x);
    assert!(best.fitness() < 250, "cost {} not near zero", best.fitness());
}

#[test]
fn scalar_fitness_is_the_squared_gene() {
    assert_eq!(ScalarIndividual { x: 2000 }.fitness(), 4000);
    assert_eq!(ScalarIndividual { x: -3000 }.fitness(), 9000);
    assert_eq!(ScalarIndividual { x: 0 }.fitness(), 0);
}

#[test]
fn scalar_crossover_averages_the_parents() {
    let mut rng = Lcg::new(5);
    let a = ScalarIndividual { x: 4000 };
    let b = ScalarIndividual { x: 2000 };
    let children = a.crossover(&b, &mut rng);
    assert_eq!(children.len(), 2);
    assert_eq!(children[0].x, 3000);
    assert_eq!(children[1].x, 1000);
}

#[test]
fn sort_is_stable_for_equal_fitness() {
    let mut rng = Lcg::new(9);
    let mut p = Population::<ScalarIndividual, Tournament>::new(3, 0, Tournament { k: 3 }, &mut rng);
    // Overwrite the genes: 2.0 and -2.0 have equal fitness, 1.0 is best.
    *p.get_mut(0) = ScalarIndividual { x: 2000 };
    *p.get_mut(1) = ScalarIndividual { x: -2000 };
    *p.get_mut(2) = ScalarIndividual { x: 1000 };
    p.sort();
    assert_eq!(genes(&p), vec![1000, 2000, -2000]);
}

#[test]
fn best_individual_finds_the_minimum_without_sorting() {
    let mut rng = Lcg::new(13);
    let mut p = Population::<ScalarIndividual, Tournament>::new(4, 0, Tournament { k: 3 }, &mut rng);
    *p.get_mut(0) = ScalarIndividual { x: 7000 };
    *p.get_mut(1) = ScalarIndividual { x: -500 };
    *p.get_mut(2) = ScalarIndividual { x: 6000 };
    *p.get_mut(3) = ScalarIndividual { x: 800 };
    assert_eq!(p.best_individual().x, -500);
    // The order was not disturbed.
    assert_eq!(genes(&p), vec![7000, -500, 6000, 800]);
}
