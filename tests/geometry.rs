use breakout::geometry::{aabb_collision, isqrt, Vec2};
use breakout::rng::{simple_rand, RandCounter};

fn v(x: f32, y: f32) -> Vec2 {
    Vec2::new((x * 1000.0).round() as i32, (y * 1000.0).round() as i32)
}

#[test]
fn collision_aabb_collision_overlapping() {
    assert!(aabb_collision(v(0.0, 0.0), v(10.0, 10.0), v(5.0, 5.0), v(10.0, 10.0)));
}

#[test]
fn collision_aabb_collision_non_overlapping() {
    assert!(!aabb_collision(v(0.0, 0.0), v(10.0, 10.0), v(20.0, 20.0), v(10.0, 10.0)));
}

#[test]
fn aabb_collision_touching_edge() {
    assert!(!aabb_collision(v(0.0, 0.0), v(10.0, 10.0), v(10.0, 0.0), v(10.0, 10.0)));
}

#[test]
fn aabb_collision_contained() {
    assert!(aabb_collision(v(0.0, 0.0), v(20.0, 20.0), v(1.0, 1.0), v(2.0, 2.0)));
}

#[test]
fn utils_aabb_collision_overlapping() {
    assert!(aabb_collision(v(0.0, 0.0), v(10.0, 10.0), v(5.0, 5.0), v(10.0, 10.0)));
}

#[test]
fn utils_aabb_collision_non_overlapping() {
    assert!(!aabb_collision(v(0.0, 0.0), v(10.0, 10.0), v(20.0, 20.0), v(10.0, 10.0)));
}

#[test]
fn aabb_touching_corner_and_tiny_overlap() {
    assert!(!aabb_collision(v(0.0, 0.0), v(10.0, 10.0), v(10.0, 10.0), v(10.0, 10.0)));
    assert!(!aabb_collision(v(0.0, 0.0), v(10.0, 10.0), v(0.0, 10.0), v(10.0, 10.0)));
    assert!(aabb_collision(Vec2::new(0, 0), Vec2::new(10, 10), Vec2::new(9, 9), Vec2::new(10, 10)));
    assert!(aabb_collision(Vec2::new(0, 0), Vec2::new(11, 11), Vec2::new(10, 10), Vec2::new(10, 10)));
}

fn fraction(r: u32) -> f64 {
    r as f64 / 0x7FFF_FFFF as f64
}

#[test]
fn collision_simple_rand_range() {
    for seed in 0..1000 {
        let val = fraction(simple_rand(seed));
        assert!(val >= 0.0 && val < 1.0, "seed {seed} produced {val}");
    }
}

#[test]
fn collision_simple_rand_deterministic() {
    assert_eq!(simple_rand(42), simple_rand(42));
    assert_eq!(simple_rand(0), simple_rand(0));
}

#[test]
fn utils_simple_rand_range() {
    for seed in 0..1000 {
        let val = fraction(simple_rand(seed));
        assert!(val >= 0.0 && val < 1.0, "seed {seed} produced {val}");
    }
}

#[test]
fn utils_simple_rand_deterministic() {
    assert_eq!(simple_rand(42), simple_rand(42));
}

#[test]
fn rand_f32_in_range() {
    let mut rng = RandCounter::new();
    for _ in 0..100 {
        let val = fraction(rng.next_roll());
        assert!(val >= 0.0 && val < 1.0);
    }
}

#[test]
fn simple_rand_known_values() {
    assert_eq!(simple_rand(0), 12345);
    assert_eq!(simple_rand(1), 1103527590 & 0x7FFF_FFFF);
}

#[test]
fn rand_counter_advances() {
    let mut rng = RandCounter::new();
    let a = rng.next_roll();
    let b = rng.next_roll();
    assert_eq!(a, simple_rand(54321));
    assert_eq!(b, simple_rand(54322));
    assert_eq!(rng.counter, 54323);
}

#[test]
fn integer_square_root() {
    assert_eq!(isqrt(0), 0);
    assert_eq!(isqrt(15), 3);
    assert_eq!(isqrt(16), 4);
    assert_eq!(isqrt(u64::MAX), 4294967295);
}
