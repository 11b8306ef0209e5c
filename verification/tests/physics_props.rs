//! Tests of the fixed-point force law.

use nbodysimulation::physics::Body;
use nbodysimulation::physics::Vec3;
use nbodysimulation::physics::gravitational_force;

fn body(mass: i64, p: (i64, i64, i64), v: (i64, i64, i64)) -> Body {
    Body {
        mass,
        position: Vec3 { x: p.0, y: p.1, z: p.2 },
        velocity: Vec3 { x: v.0, y: v.1, z: v.2 },
    }
}

const S: i64 = 1_000_000;

#[test]
fn force_antisymmetry_concrete() {
    // A: mass 5000 at the origin; B: mass 100000 at (2, 10, 10).
    let a = body(5000 * S, (0, 0, 0), (0, 0, 0));
    let b = body(100_000 * S, (2 * S, 10 * S, 10 * S), (0, 0, 0));
    let fab = gravitational_force(&a, &b);
    let fba = gravitational_force(&b, &a);
    assert_eq!(fab.x, -fba.x);
    assert_eq!(fab.y, -fba.y);
    assert_eq!(fab.z, -fba.z);
}

#[test]
fn force_two_body_scenario() {
    // The magnitude must be G * 5000 * 100000 / (2^2 + 10^2 + 10^2), about
    // 1.636e-4, and the force on A must point along A - B (the fixed
    // convention: the engine's net force on a body i sums the values
    // gravitational_force(other, body_i), which point toward `other`).
    let a = body(5000 * S, (0, 0, 0), (0, 0, 0));
    let b = body(100_000 * S, (2 * S, 10 * S, 10 * S), (0, 0, 0));
    let f = gravitational_force(&a, &b);
    assert_eq!((f.x, f.y, f.z), (-22, -114, -114));
    // magnitude^2 in micro-units^2: ~ (163.6)^2
    let m2 = f.x * f.x + f.y * f.y + f.z * f.z;
    assert_eq!(m2, 22 * 22 + 2 * 114 * 114);
    // direction is proportional to A - B = -(2, 10, 10)
    assert_eq!(f.y, f.z);
    assert!(f.x > f.y && f.x < 0);
}

#[test]
fn force_zero_for_inert_body() {
    let a = body(0, (0, 0, 0), (0, 0, 0));
    let b = body(100_000 * S, (2 * S, 10 * S, 10 * S), (0, 0, 0));
    let f = gravitational_force(&a, &b);
    assert_eq!((f.x, f.y, f.z), (0, 0, 0));
    let g = gravitational_force(&b, &a);
    assert_eq!((g.x, g.y, g.z), (0, 0, 0));
}

#[test]
fn force_zero_near_collision() {
    // distance^2 = 300 micro-units^2, far below the threshold of 10^9.
    let a = body(5000 * S, (0, 0, 0), (0, 0, 0));
    let b = body(100_000 * S, (10, 10, 10), (0, 0, 0));
    let f = gravitational_force(&a, &b);
    assert_eq!((f.x, f.y, f.z), (0, 0, 0));
}

#[test]
fn force_zero_on_self() {
    // a body coincides with itself, so the near-collision rule gives zero
    let a = body(5000 * S, (3 * S, 4 * S, 5 * S), (0, 0, 0));
    let f = gravitational_force(&a, &a);
    assert_eq!((f.x, f.y, f.z), (0, 0, 0));
}

#[test]
fn force_small_pair_exact() {
    let b1 = body(1000 * S, (S, 2 * S, 3 * S), (0, 0, 0));
    let b2 = body(2000 * S, (4 * S, 6 * S, 8 * S), (0, 0, 0));
    let f = gravitational_force(&b1, &b2);
    assert_eq!((f.x, f.y, f.z), (0, -1, -1));
}
