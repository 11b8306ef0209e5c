//! Tests of the ForceBuffer, the WorkPartitioner, the coordinator state
//! machine, and the tick protocol.

use nbodysimulation::engine::Coordinator;
use nbodysimulation::engine::barnes_hut_tick;
use nbodysimulation::engine::Msg;
use nbodysimulation::engine::Phase;
use nbodysimulation::engine::compute_force_msgs;
use nbodysimulation::engine::force_phase;
use nbodysimulation::engine::force_phase_reference;
use nbodysimulation::engine::integrate_body;
use nbodysimulation::engine::integrate_with_index;
use nbodysimulation::engine::sequential_loop;
use nbodysimulation::engine::snapshot;
use nbodysimulation::engine::tick;
use nbodysimulation::forces::ForceBuffer;
use nbodysimulation::octree::create_octree_sequential;
use nbodysimulation::partition::make_assignments;
use nbodysimulation::physics::Body;
use nbodysimulation::physics::Vec3;
use nbodysimulation::physics::gravitational_force;

const S: i64 = 1_000_000;

fn body(mass: i64, p: (i64, i64, i64), v: (i64, i64, i64)) -> Body {
    Body {
        mass,
        position: Vec3 { x: p.0, y: p.1, z: p.2 },
        velocity: Vec3 { x: v.0, y: v.1, z: v.2 },
    }
}

fn sample_bodies() -> Vec<Body> {
    vec![
        body(1000 * S, (S, 2 * S, 3 * S), (0, 0, 0)),
        body(2000 * S, (4 * S, 6 * S, 8 * S), (0, 0, 0)),
        body(3000 * S, (-4 * S, -6 * S, -8 * S), (0, 0, 0)),
        body(1500 * S, (9 * S, -2 * S, 5 * S), (0, 0, 0)),
        body(0, (2 * S, 2 * S, 2 * S), (0, 0, 0)),
    ]
}

#[test]
fn buffer_antisymmetry() {
    let mut buf = ForceBuffer::new(3);
    let f = Vec3 { x: 5, y: -7, z: 11 };
    buf.set_pair(0, 2, f);
    let a = buf.at(0, 2);
    let b = buf.at(2, 0);
    assert_eq!((a.x, a.y, a.z), (5, -7, 11));
    assert_eq!((b.x, b.y, b.z), (-5, 7, -11));
    // untouched entries stay zero, the diagonal in particular
    let d = buf.at(1, 1);
    assert_eq!((d.x, d.y, d.z), (0, 0, 0));
}

#[test]
fn buffer_net_force_sums_column() {
    let mut buf = ForceBuffer::new(3);
    buf.set_pair(0, 1, Vec3 { x: 1, y: 2, z: 3 });
    buf.set_pair(0, 2, Vec3 { x: 10, y: 20, z: 30 });
    // net on 0 sums entry(j, 0): -(1,2,3) from j=1 and -(10,20,30) from j=2
    let n0 = buf.net_force_on(0);
    assert_eq!((n0.x, n0.y, n0.z), (-11, -22, -33));
    let n1 = buf.net_force_on(1);
    assert_eq!((n1.x, n1.y, n1.z), (1, 2, 3));
}

#[test]
fn partition_ranges_and_pairs() {
    let works = make_assignments(5, 2);
    assert_eq!(works.len(), 2);
    assert_eq!((works[0].begin, works[0].end), (0, 2));
    assert_eq!((works[1].begin, works[1].end), (2, 5));
    // the union of the worklists is every ordered pair below 5, once
    let mut pairs: Vec<(usize, usize)> = Vec::new();
    for w in &works {
        for p in &w.pairs {
            pairs.push(*p);
        }
    }
    pairs.sort();
    let expected: Vec<(usize, usize)> = vec![
        (0, 1),
        (0, 2),
        (0, 3),
        (0, 4),
        (1, 2),
        (1, 3),
        (1, 4),
        (2, 3),
        (2, 4),
        (3, 4),
    ];
    assert_eq!(pairs, expected);
}

#[test]
fn partition_single_worker_takes_everything() {
    let works = make_assignments(4, 1);
    assert_eq!(works.len(), 1);
    assert_eq!((works[0].begin, works[0].end), (0, 4));
    assert_eq!(works[0].pairs.len(), 6);
}

#[test]
fn force_phase_matches_reference_for_any_worker_count() {
    let bodies = sample_bodies();
    let n = bodies.len();
    let mut reference = ForceBuffer::new(n);
    force_phase_reference(&bodies, &mut reference);
    for w in 1..4usize {
        let works = make_assignments(n, w);
        let mut buf = ForceBuffer::new(n);
        force_phase(&bodies, &works, &mut buf);
        for i in 0..n {
            for j in 0..n {
                let a = buf.at(i, j);
                let b = reference.at(i, j);
                assert_eq!((a.x, a.y, a.z), (b.x, b.y, b.z));
            }
        }
    }
}

#[test]
fn force_phase_entries_are_pairwise_forces() {
    let bodies = sample_bodies();
    let n = bodies.len();
    let mut buf = ForceBuffer::new(n);
    force_phase_reference(&bodies, &mut buf);
    for i in 0..n {
        for j in 0..n {
            let e = buf.at(i, j);
            if i == j {
                assert_eq!((e.x, e.y, e.z), (0, 0, 0));
            } else if i < j {
                let f = gravitational_force(&bodies[i], &bodies[j]);
                assert_eq!((e.x, e.y, e.z), (f.x, f.y, f.z));
            } else {
                let f = gravitational_force(&bodies[j], &bodies[i]);
                assert_eq!((e.x, e.y, e.z), (-f.x, -f.y, -f.z));
            }
        }
    }
}

#[test]
fn integrate_body_exact() {
    // mass 2.0, net force (1.0, -2.0, 0) micro-scaled, dt = 1.0:
    // a = net/m = (0.5, -1.0, 0); v' = a*dt; p' = v'*dt
    let b = body(2 * S, (0, 0, 0), (0, 0, 0));
    let net = Vec3 { x: 1_000_000, y: -2_000_000, z: 0 };
    let r = integrate_body(&b, &net, S);
    assert_eq!((r.velocity.x, r.velocity.y, r.velocity.z), (500_000, -1_000_000, 0));
    assert_eq!((r.position.x, r.position.y, r.position.z), (500_000, -1_000_000, 0));
    assert_eq!(r.mass, b.mass);
}

#[test]
fn integrate_body_skips_inert() {
    let b = body(0, (3 * S, 4 * S, 5 * S), (7, 8, 9));
    let net = Vec3 { x: 1_000_000, y: 1_000_000, z: 1_000_000 };
    let r = integrate_body(&b, &net, S);
    assert_eq!((r.position.x, r.position.y, r.position.z), (3 * S, 4 * S, 5 * S));
    assert_eq!((r.velocity.x, r.velocity.y, r.velocity.z), (7, 8, 9));
}

#[test]
fn tick_equals_sequential_loop() {
    let start = sample_bodies();
    let n = start.len();

    let mut seq_bodies = start.clone();
    let mut seq_buf = ForceBuffer::new(n);
    sequential_loop(&mut seq_bodies, &mut seq_buf, S);

    for w in 1..4usize {
        let works = make_assignments(n, w);
        let mut par_bodies = start.clone();
        let mut par_buf = ForceBuffer::new(n);
        tick(&mut par_bodies, &mut par_buf, &works, S);
        for i in 0..n {
            assert_eq!(par_bodies[i].mass, seq_bodies[i].mass);
            assert_eq!(par_bodies[i].position.x, seq_bodies[i].position.x);
            assert_eq!(par_bodies[i].position.y, seq_bodies[i].position.y);
            assert_eq!(par_bodies[i].position.z, seq_bodies[i].position.z);
            assert_eq!(par_bodies[i].velocity.x, seq_bodies[i].velocity.x);
            assert_eq!(par_bodies[i].velocity.y, seq_bodies[i].velocity.y);
            assert_eq!(par_bodies[i].velocity.z, seq_bodies[i].velocity.z);
        }
    }
}

#[test]
fn coordinator_phase_machine() {
    let mut c = Coordinator::new(2);
    let mut bodies = sample_bodies();
    let n = bodies.len();
    let mut buf = ForceBuffer::new(n);
    assert_eq!(c.phase, Phase::ComputingForces);
    assert!(c.is_running());

    // a Force message lands in the buffer during the Force Phase
    c.handle_msg(&Msg::Force(0, 1, Vec3 { x: 9, y: 9, z: 9 }), &mut bodies, &mut buf);
    let e = buf.at(0, 1);
    assert_eq!((e.x, e.y, e.z), (9, 9, 9));

    // a Pos message during the Force Phase changes nothing
    let before = bodies[2];
    c.handle_msg(
        &Msg::Pos(2, Vec3 { x: 1, y: 1, z: 1 }, Vec3 { x: 2, y: 2, z: 2 }),
        &mut bodies,
        &mut buf,
    );
    assert_eq!(bodies[2].position.x, before.position.x);

    // two Stop messages complete the rendezvous and flip the phase
    c.handle_msg(&Msg::Stop, &mut bodies, &mut buf);
    assert_eq!(c.phase, Phase::ComputingForces);
    assert_eq!(c.stop_count, 1);
    c.handle_msg(&Msg::Stop, &mut bodies, &mut buf);
    assert_eq!(c.phase, Phase::ComputingPositions);
    assert_eq!(c.stop_count, 0);

    // now a Pos message applies
    c.handle_msg(
        &Msg::Pos(2, Vec3 { x: 1, y: 1, z: 1 }, Vec3 { x: 2, y: 2, z: 2 }),
        &mut bodies,
        &mut buf,
    );
    assert_eq!(bodies[2].velocity.x, 1);
    assert_eq!(bodies[2].position.x, 2);
    assert_eq!(bodies[2].mass, before.mass);

    // the shutdown signal is observable at the phase boundary
    c.request_shutdown();
    assert!(!c.is_running());
}

#[test]
fn worker_force_messages() {
    let bodies = sample_bodies();
    let works = make_assignments(bodies.len(), 2);
    let msgs = compute_force_msgs(&bodies, &works[0].pairs);
    assert_eq!(msgs.len(), works[0].pairs.len() + 1);
    assert_eq!(msgs[msgs.len() - 1], Msg::Stop);
    match msgs[0] {
        Msg::Force(i, j, f) => {
            let (pi, pj) = works[0].pairs[0];
            assert_eq!((i, j), (pi, pj));
            let g = gravitational_force(&bodies[pi], &bodies[pj]);
            assert_eq!((f.x, f.y, f.z), (g.x, g.y, g.z));
        }
        _ => panic!("first message must carry a force"),
    }
}

#[test]
fn mirror_symmetric_system_stays_mirrored() {
    // equal masses, mirrored positions and velocities about the origin:
    // the state stays mirror-symmetric after any number of ticks
    let a = body(3000 * S, (S, 2 * S, 3 * S), (100, -200, 300));
    let m = body(3000 * S, (-S, -2 * S, -3 * S), (-100, 200, -300));
    let mut bodies = vec![a, m];
    let mut buf = ForceBuffer::new(2);
    for _ in 0..5 {
        sequential_loop(&mut bodies, &mut buf, S);
        assert_eq!(bodies[0].mass, bodies[1].mass);
        assert_eq!(bodies[0].position.x, -bodies[1].position.x);
        assert_eq!(bodies[0].position.y, -bodies[1].position.y);
        assert_eq!(bodies[0].position.z, -bodies[1].position.z);
        assert_eq!(bodies[0].velocity.x, -bodies[1].velocity.x);
        assert_eq!(bodies[0].velocity.y, -bodies[1].velocity.y);
        assert_eq!(bodies[0].velocity.z, -bodies[1].velocity.z);
    }
}

#[test]
fn snapshot_reads_mass_and_position() {
    let bodies = sample_bodies();
    let snap = snapshot(&bodies);
    assert_eq!(snap.len(), bodies.len());
    for (k, (mass, pos)) in snap.iter().enumerate() {
        assert_eq!(*mass, bodies[k].mass);
        assert_eq!(pos.x, bodies[k].position.x);
    }
}

#[test]
fn approximate_mode_with_theta_zero_matches_exact_mode() {
    // the Barnes-Hut Position Phase with opening angle zero must move the
    // bodies exactly where the pairwise mode moves them
    let start = vec![
        body(1000 * S, (S, 2 * S, 3 * S), (5, -5, 5)),
        body(2000 * S, (4 * S, 6 * S, 8 * S), (0, 0, 0)),
        body(3000 * S, (-4 * S, -6 * S, -8 * S), (0, 7, 0)),
        body(1500 * S, (9 * S, -2 * S, 5 * S), (0, 0, -7)),
    ];
    let n = start.len();

    let mut exact = start.clone();
    let mut buf = ForceBuffer::new(n);
    sequential_loop(&mut exact, &mut buf, S);

    let root = create_octree_sequential(&start);
    let mut approx = start.clone();
    integrate_with_index(&mut approx, &root, 0, n, 0, S);

    for i in 0..n {
        assert_eq!(approx[i].position.x, exact[i].position.x);
        assert_eq!(approx[i].position.y, exact[i].position.y);
        assert_eq!(approx[i].position.z, exact[i].position.z);
        assert_eq!(approx[i].velocity.x, exact[i].velocity.x);
        assert_eq!(approx[i].velocity.y, exact[i].velocity.y);
        assert_eq!(approx[i].velocity.z, exact[i].velocity.z);
    }
}

#[test]
fn barnes_hut_tick_with_theta_zero_matches_sequential_loop() {
    let start = vec![
        body(1000 * S, (S, 2 * S, 3 * S), (5, -5, 5)),
        body(2000 * S, (4 * S, 6 * S, 8 * S), (0, 0, 0)),
        body(3000 * S, (-4 * S, -6 * S, -8 * S), (0, 7, 0)),
    ];
    let n = start.len();

    let mut exact = start.clone();
    let mut buf = ForceBuffer::new(n);
    sequential_loop(&mut exact, &mut buf, S);

    let mut approx = start.clone();
    barnes_hut_tick(&mut approx, 0, S);

    for i in 0..n {
        assert_eq!(approx[i].position.x, exact[i].position.x);
        assert_eq!(approx[i].position.y, exact[i].position.y);
        assert_eq!(approx[i].position.z, exact[i].position.z);
        assert_eq!(approx[i].velocity.x, exact[i].velocity.x);
        assert_eq!(approx[i].velocity.y, exact[i].velocity.y);
        assert_eq!(approx[i].velocity.z, exact[i].velocity.z);
    }
}
