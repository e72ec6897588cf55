//! Tests of the random sources and the fixed-point helpers.

use gpo::fixed::{clamp, div_scale, half};
use gpo::random::{Lcg, RandomSource, ThreadRandom};

#[test]
fn lcg_is_deterministic_for_a_seed() {
    let mut a = Lcg::new(99);
    let mut b = Lcg::new(99);
    for _ in 0..100 {
        assert_eq!(a.next_index(17), b.next_index(17));
        assert_eq!(a.next_between(-5_000, 5_000), b.next_between(-5_000, 5_000));
    }
}

#[test]
fn lcg_draws_stay_in_range() {
    let mut rng = Lcg::new(123);
    for _ in 0..1_000 {
        let i = rng.next_index(10);
        assert!(i < 10);
        let v = rng.next_between(-5, 7);
        assert!((-5..=7).contains(&v));
    }
    assert_eq!(rng.next_index(1), 0);
    assert_eq!(rng.next_between(3, 3), 3);
}

#[test]
fn lcg_draws_are_not_constant() {
    let mut rng = Lcg::new(77);
    let first = rng.next_between(0, 1_000_000);
    let mut saw_other = false;
    for _ in 0..50 {
        if rng.next_between(0, 1_000_000) != first {
            saw_other = true;
        }
    }
    assert!(saw_other);
}

#[test]
fn thread_random_draws_stay_in_range() {
    let mut rng = ThreadRandom::new();
    for _ in 0..200 {
        let i = rng.next_index(5);
        assert!(i < 5);
        let v = rng.next_between(-2_000, 2_000);
        assert!((-2_000..=2_000).contains(&v));
    }
    assert_eq!(rng.next_index(1), 0);
    assert_eq!(rng.next_between(42, 42), 42);
}

#[test]
fn fixed_point_helpers_truncate_toward_zero() {
    assert_eq!(half(5), 2);
    assert_eq!(half(-5), -2);
    assert_eq!(half(4), 2);
    assert_eq!(half(-4), -2);
    assert_eq!(div_scale(1_999), 1);
    assert_eq!(div_scale(-1_999), -1);
    assert_eq!(div_scale(-3_000), -3);
    assert_eq!(clamp(15, 0, 10), 10);
    assert_eq!(clamp(-15, -10, 10), -10);
    assert_eq!(clamp(5, 0, 10), 5);
}
