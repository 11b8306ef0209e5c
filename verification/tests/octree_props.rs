//! Tests of the octree: aggregation, coverage, boundary handling, and the
//! Barnes-Hut traversal.

use nbodysimulation::octree::Corner;
use nbodysimulation::octree::bounding_box_with_center;
use nbodysimulation::octree::create_octree_sequential;
use nbodysimulation::physics::Body;
use nbodysimulation::physics::Vec3;
use nbodysimulation::physics::gravitational_force;

const S: i64 = 1_000_000;

fn body(mass: i64, p: (i64, i64, i64)) -> Body {
    Body {
        mass,
        position: Vec3 { x: p.0, y: p.1, z: p.2 },
        velocity: Vec3 { x: 0, y: 0, z: 0 },
    }
}

#[test]
fn octree_mass_conservation() {
    // total mass is the exact sum; the center of mass is the exact
    // mass-weighted centroid with one truncated division per component.
    let bodies = vec![
        body(1000 * S, (S, 2 * S, 3 * S)),
        body(2000 * S, (4 * S, 6 * S, 8 * S)),
    ];
    let root = create_octree_sequential(&bodies);
    assert_eq!(root.total_mass(), 3000 * S);
    assert_eq!(root.population(), 2);
    let com = root.center_of_mass();
    assert_eq!((com.x, com.y, com.z), (3_000_000, 4_666_666, 6_333_333));
}

#[test]
fn octree_mass_conservation_many() {
    let bodies = vec![
        body(10 * S, (0, 0, 0)),
        body(20 * S, (-5 * S, 7 * S, -2 * S)),
        body(30 * S, (9 * S, -9 * S, S)),
        body(0, (S, S, S)),
        body(40 * S, (3 * S, 3 * S, 3 * S)),
    ];
    let root = create_octree_sequential(&bodies);
    assert_eq!(root.total_mass(), 100 * S);
    assert_eq!(root.population(), 5);
}

#[test]
fn octree_find_every_inserted_body() {
    let bodies = vec![
        body(1000 * S, (S, 2 * S, 3 * S)),
        body(2000 * S, (4 * S, 6 * S, 8 * S)),
        body(3000 * S, (-4 * S, -6 * S, -8 * S)),
        body(500 * S, (S + 1, 2 * S, 3 * S)),
    ];
    let root = create_octree_sequential(&bodies);
    for b in &bodies {
        let found = root.find(&b.position);
        match found {
            Some(f) => {
                assert_eq!(f.mass, b.mass);
                assert_eq!((f.position.x, f.position.y, f.position.z), (
                    b.position.x,
                    b.position.y,
                    b.position.z,
                ));
            }
            None => panic!("inserted body not reachable by octant descent"),
        }
    }
    // a position nobody occupies
    let miss = root.find(&Vec3 { x: 7 * S, y: 7 * S, z: 7 * S });
    assert!(miss.is_none());
}

#[test]
fn octree_two_bodies_one_unit_apart() {
    // the tightest separable pair: positions differing by one micro-unit
    // must end up in distinct leaves
    let bodies = vec![body(10 * S, (0, 0, 0)), body(20 * S, (1, 0, 0))];
    let root = create_octree_sequential(&bodies);
    assert_eq!(root.population(), 2);
    assert!(root.find(&Vec3 { x: 0, y: 0, z: 0 }).is_some());
    assert!(root.find(&Vec3 { x: 1, y: 0, z: 0 }).is_some());
    assert!(root.find(&Vec3 { x: 2, y: 0, z: 0 }).is_none());
}

#[test]
fn octree_boundary_point_goes_to_lower_half() {
    // a point exactly on the three split planes: the half-open convention
    // sends a coordinate equal to the center to the west/south/bottom
    // side, so the octant is Bsw -- deterministically, never dropped or
    // duplicated
    let bodies = vec![body(10 * S, (-4 * S, -4 * S, -4 * S)), body(20 * S, (4 * S, 4 * S, 4 * S))];
    let root = create_octree_sequential(&bodies);
    // the exact geometric center of the root cube sits on all three
    // split planes
    let c = root.geometric_center();
    assert!(root.within_box(&c));
    assert_eq!(root.fits_in_corner(&c), Corner::Bsw);
    // one unit up on every axis lands in the upper halves
    let up = Vec3 { x: c.x + 1, y: c.y + 1, z: c.z + 1 };
    assert_eq!(root.fits_in_corner(&up), Corner::Tne);
    // both inserted bodies stay reachable despite the boundary
    assert!(root.find(&bodies[0].position).is_some());
    assert!(root.find(&bodies[1].position).is_some());
}

#[test]
fn octree_root_is_leaf_for_single_body() {
    let bodies = vec![body(10 * S, (3 * S, 3 * S, 3 * S))];
    let root = create_octree_sequential(&bodies);
    assert!(root.is_leaf());
    assert_eq!(root.population(), 1);
    assert_eq!(root.total_mass(), 10 * S);
    let com = root.center_of_mass();
    assert_eq!((com.x, com.y, com.z), (3 * S, 3 * S, 3 * S));
}

#[test]
fn octree_subdivides_on_second_body() {
    let bodies = vec![
        body(10 * S, (-3 * S, -3 * S, -3 * S)),
        body(20 * S, (3 * S, 3 * S, 3 * S)),
    ];
    let root = create_octree_sequential(&bodies);
    assert!(!root.is_leaf());
    // the two bodies sit in opposite corners, so at least two child slots
    // are occupied over all eight corners
    let corners = [
        Corner::Tnw,
        Corner::Tne,
        Corner::Tsw,
        Corner::Tse,
        Corner::Bnw,
        Corner::Bne,
        Corner::Bsw,
        Corner::Bse,
    ];
    let mut occupied = 0;
    for k in corners.iter() {
        if root.child(k).is_some() {
            occupied += 1;
        }
    }
    assert_eq!(occupied, 2);
}

#[test]
fn barnes_hut_theta_zero_equals_exact_sum() {
    let bodies = vec![
        body(1000 * S, (S, 2 * S, 3 * S)),
        body(2000 * S, (4 * S, 6 * S, 8 * S)),
        body(3000 * S, (-4 * S, -6 * S, -8 * S)),
        body(1500 * S, (9 * S, -2 * S, 5 * S)),
    ];
    let root = create_octree_sequential(&bodies);
    for target in &bodies {
        let approx = root.approximate_force(target, 0);
        let mut ex = (0i64, 0i64, 0i64);
        for other in &bodies {
            let f = gravitational_force(other, target);
            ex = (ex.0 + f.x, ex.1 + f.y, ex.2 + f.z);
        }
        assert_eq!((approx.x, approx.y, approx.z), ex);
    }
}

#[test]
fn barnes_hut_large_theta_uses_aggregates() {
    // a far-away cluster collapses to its center of mass when theta is
    // large; the result is the pairwise force against the pseudo-body
    let cluster_a = body(1_000_000 * S, (100 * S, 100 * S, 100 * S));
    let cluster_b = body(1_000_000 * S, (101 * S, 101 * S, 101 * S));
    let target = body(1_000_000 * S, (-100 * S, -100 * S, -100 * S));
    let bodies = vec![cluster_a, cluster_b, target];
    let root = create_octree_sequential(&bodies);
    let theta_huge = 100 * S;
    let f = root.approximate_force(&target, theta_huge);
    // with theta = 0 the same tree gives the exact sum; with a huge theta
    // the values may differ, but both must pull toward the cluster
    // (positive components of the net force on the target are impossible
    // under the engine's sign convention, where the per-source terms
    // point from the target toward nothing -- the stored direction is
    // source-minus-target negated; here we only check consistency of the
    // aggregate path)
    let exact = root.approximate_force(&target, 0);
    assert!(f.x > 0 && f.y > 0 && f.z > 0);
    assert!(exact.x > 0 && exact.y > 0 && exact.z > 0);
}

#[test]
fn bounding_box_is_exact_min_max() {
    // the corners are the attained componentwise minima and maxima, not
    // just any enclosing box
    let bodies = vec![
        body(10 * S, (S, 5 * S, -2 * S)),
        body(20 * S, (-3 * S, 2 * S, 4 * S)),
        body(30 * S, (0, 7 * S, 0)),
    ];
    let (lo, hi, mid) = bounding_box_with_center(&bodies);
    assert_eq!((lo.x, lo.y, lo.z), (-3 * S, 2 * S, -2 * S));
    assert_eq!((hi.x, hi.y, hi.z), (S, 7 * S, 4 * S));
    assert_eq!((mid.x, mid.y, mid.z), (-S, 4 * S + 500_000, S));
}

#[test]
fn octree_root_cube_is_deterministic() {
    // the root cube is pinned by the bodies: the smallest power of two
    // above the largest extent plus one, centered one unit below the
    // minimum corner plus half the side
    let bodies = vec![body(10 * S, (-4 * S, -4 * S, -4 * S)), body(20 * S, (4 * S, 4 * S, 4 * S))];
    let root = create_octree_sequential(&bodies);
    assert_eq!(root.side_length(), 8_388_608);
    let c = root.geometric_center();
    assert_eq!((c.x, c.y, c.z), (194_303, 194_303, 194_303));
}
