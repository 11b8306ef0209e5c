//! The tick protocol: Force Phase, Position Phase, and the coordinator
//! state machine of the message-passing realization.
//!
//! One tick advances the simulation by the fixed timestep `dt`: first all
//! pairwise forces are written into the ForceBuffer (exactly, from the
//! worker worklists or from the sequential reference loop — both yield
//! the same buffer), then every body integrates its net force with
//! semi-implicit Euler (velocity first, then position), skipping inert
//! bodies. Workers only ever write the disjoint partition the
//! WorkPartitioner assigned to them; the message-passing coordinator
//! applies their `Force`/`Pos` messages and flips phase once every worker
//! has sent `Stop`.

use vstd::prelude::*;

use crate::forces::ForceBuffer;
use crate::octree::POP_CAP;
use crate::octree::Octree_member;
use crate::octree::THETA_MAX;
use crate::octree::all_valid;
use crate::partition::Assigned_work;
use crate::partition::covers_all_pairs;
use crate::partition::listed;
use crate::partition::pair_at;
use crate::partition::pairs_valid;
use crate::partition::lemma_ranges_ordered;
use crate::partition::ranges_exact;
use crate::physics::Body;
use crate::physics::BodyView;
use crate::physics::COORD_LIMIT;
use crate::physics::FORCE_LIMIT;
use crate::physics::MASS_LIMIT;
use crate::physics::MASS_PRODUCT_CAP;
use crate::physics::SCALE;
use crate::physics::V3;
use crate::physics::Vec3;
use crate::physics::gravitational_force;
use crate::physics::spec_gravitational_force;
use crate::physics::tdiv;
use crate::physics::v3_bounded;
use crate::physics::valid_body;

verus! {

/// Largest admissible timestep (fixed-point; 1000 seconds).
pub const DT_MAX: i64 = 1_000_000_000;

/// Largest magnitude of a net-force component: `POP_CAP * FORCE_LIMIT`.
pub const NET_FORCE_LIMIT: i64 = 667_430_000_000_000_000;

/// The two phases of the cyclic tick state machine.
#[derive(Clone, Copy, Debug, PartialEq, Eq, Structural)]
pub enum Phase {
    ComputingForces,
    ComputingPositions,
}

/// A worker-to-coordinator message: a force value for a pair, a new
/// velocity and position for a body, or the end of the worker's share of
/// the current phase.
#[derive(Clone, Copy, Debug, PartialEq, Eq, Structural)]
pub enum Msg {
    Force(usize, usize, Vec3),
    Pos(usize, Vec3, Vec3),
    Stop,
}

/// Clamps `x` into `[-lim, lim]`.
pub open spec fn clamp(x: int, lim: int) -> int {
    if x < -lim {
        -lim
    } else if x > lim {
        lim
    } else {
        x
    }
}

/// One semi-implicit Euler step for a single body under net force `net`:
/// `v += (net / mass) * dt; p += v * dt`, all in fixed point with
/// truncated division, velocity and position clamped into the coordinate
/// range. An inert body (mass 0) is left untouched.
pub open spec fn spec_integrate(b: BodyView, net: V3, dt: int) -> BodyView {
    if b.mass == 0 {
        b
    } else {
        let vx = clamp(
            b.velocity.x + tdiv(tdiv(net.x * SCALE, b.mass) * dt, SCALE as int),
            COORD_LIMIT as int,
        );
        let vy = clamp(
            b.velocity.y + tdiv(tdiv(net.y * SCALE, b.mass) * dt, SCALE as int),
            COORD_LIMIT as int,
        );
        let vz = clamp(
            b.velocity.z + tdiv(tdiv(net.z * SCALE, b.mass) * dt, SCALE as int),
            COORD_LIMIT as int,
        );
        let px = clamp(b.position.x + tdiv(vx * dt, SCALE as int), COORD_LIMIT as int);
        let py = clamp(b.position.y + tdiv(vy * dt, SCALE as int), COORD_LIMIT as int);
        let pz = clamp(b.position.z + tdiv(vz * dt, SCALE as int), COORD_LIMIT as int);
        BodyView {
            mass: b.mass,
            position: V3 { x: px, y: py, z: pz },
            velocity: V3 { x: vx, y: vy, z: vz },
        }
    }
}

/// Division truncated toward zero, on machine integers.
fn tdiv128(a: i128, b: i128) -> (r: i128)
    requires
        1 <= b,
        a > i128::MIN,
    ensures
        r as int == tdiv(a as int, b as int),
        0 <= a ==> 0 <= r <= a,
        a < 0 ==> a <= r <= 0,
{
    if a >= 0 {
        proof {
            vstd::arithmetic::div_mod::lemma_div_nonincreasing(a as int, b as int);
            vstd::arithmetic::div_mod::lemma_div_pos_is_pos(a as int, b as int);
        }
        ((a as u128) / (b as u128)) as i128
    } else {
        let m: i128 = -a;
        proof {
            vstd::arithmetic::div_mod::lemma_div_nonincreasing(m as int, b as int);
            vstd::arithmetic::div_mod::lemma_div_pos_is_pos(m as int, b as int);
        }
        -(((m as u128) / (b as u128)) as i128)
    }
}

/// Clamps `x` into `[-lim, lim]`.
fn clamp128(x: i128, lim: i64) -> (r: i64)
    requires
        0 <= lim,
    ensures
        r as int == clamp(x as int, lim as int),
{
    if x < -(lim as i128) {
        -lim
    } else if x > lim as i128 {
        lim
    } else {
        x as i64
    }
}

/// One semi-implicit Euler step for a single body (see `spec_integrate`).
pub fn integrate_body(b: &Body, net: &Vec3, dt: i64) -> (r: Body)
    requires
        valid_body(b@),
        v3_bounded(net@, NET_FORCE_LIMIT as int),
        0 <= dt <= DT_MAX,
    ensures
        r@ == spec_integrate(b@, net@, dt as int),
        valid_body(r@),
        r@.mass == b@.mass,
{
    if b.mass == 0 {
        return *b;
    }
    let vx: i64 = integrate_axis(b.velocity.x, net.x, b.mass, dt);
    let vy: i64 = integrate_axis(b.velocity.y, net.y, b.mass, dt);
    let vz: i64 = integrate_axis(b.velocity.z, net.z, b.mass, dt);
    let px: i64 = advance_axis(b.position.x, vx, dt);
    let py: i64 = advance_axis(b.position.y, vy, dt);
    let pz: i64 = advance_axis(b.position.z, vz, dt);
    Body { mass: b.mass, position: Vec3 { x: px, y: py, z: pz }, velocity: Vec3 { x: vx, y: vy, z: vz } }
}

/// The velocity update along one axis:
/// `clamp(v + ((net * SCALE) / mass) * dt / SCALE)`.
fn integrate_axis(v: i64, net: i64, mass: i64, dt: i64) -> (r: i64)
    requires
        -COORD_LIMIT <= v <= COORD_LIMIT,
        -NET_FORCE_LIMIT <= net <= NET_FORCE_LIMIT,
        1 <= mass <= MASS_LIMIT,
        0 <= dt <= DT_MAX,
    ensures
        r as int == clamp(v + tdiv(tdiv(net * SCALE, mass as int) * dt, SCALE as int),
            COORD_LIMIT as int),
        -COORD_LIMIT <= r <= COORD_LIMIT,
{
    proof {
        assert(-0x8000_0000_0000_0000_0000_0000int <= (net as int) * (SCALE as int)
            <= 0x8000_0000_0000_0000_0000_0000int) by (nonlinear_arith)
            requires -NET_FORCE_LIMIT as int <= (net as int) <= NET_FORCE_LIMIT as int;
    }
    let num: i128 = (net as i128) * (SCALE as i128);
    let acc: i128 = tdiv128(num, mass as i128);
    proof {
        assert(-0x1_0000_0000_0000_0000_0000_0000_0000_0000int / 4 <= (acc as int) * (dt as int)
            <= 0x1_0000_0000_0000_0000_0000_0000_0000_0000int / 4) by (nonlinear_arith)
            requires
                -0x8000_0000_0000_0000_0000_0000int <= (acc as int)
                    <= 0x8000_0000_0000_0000_0000_0000int,
                0 <= (dt as int) <= DT_MAX as int,
        ;
    }
    let prod: i128 = acc * (dt as i128);
    let dv: i128 = tdiv128(prod, SCALE as i128);
    clamp128((v as i128) + dv, COORD_LIMIT)
}

/// The position update along one axis: `clamp(p + v * dt / SCALE)`.
fn advance_axis(p: i64, v: i64, dt: i64) -> (r: i64)
    requires
        -COORD_LIMIT <= p <= COORD_LIMIT,
        -COORD_LIMIT <= v <= COORD_LIMIT,
        0 <= dt <= DT_MAX,
    ensures
        r as int == clamp(p + tdiv((v as int) * dt, SCALE as int), COORD_LIMIT as int),
        -COORD_LIMIT <= r <= COORD_LIMIT,
{
    proof {
        assert(-0x8000_0000_0000_0000_0000_0000int <= (v as int) * (dt as int)
            <= 0x8000_0000_0000_0000_0000_0000int) by (nonlinear_arith)
            requires
                -COORD_LIMIT as int <= (v as int) <= COORD_LIMIT as int,
                0 <= (dt as int) <= DT_MAX as int,
        ;
    }
    let prod: i128 = (v as i128) * (dt as i128);
    let pd: i128 = tdiv128(prod, SCALE as i128);
    clamp128((p as i128) + pd, COORD_LIMIT)
}

/// The reference value of the buffer entry `(i, j)` over a body set: zero
/// on the diagonal, the pairwise force for `i < j`, its negation for
/// `i > j`.
pub open spec fn ref_entry(bs: Seq<Body>, i: int, j: int) -> V3 {
    if i == j {
        V3::zero()
    } else if i < j {
        spec_gravitational_force(bs[i]@, bs[j]@)
    } else {
        spec_gravitational_force(bs[j]@, bs[i]@).neg()
    }
}

/// The reference net force on body `i`: the sum of `ref_entry(j, i)` over
/// `j < k`.
pub open spec fn ref_net_prefix(bs: Seq<Body>, i: int, k: int) -> V3
    decreases k,
{
    if k <= 0 {
        V3::zero()
    } else {
        ref_net_prefix(bs, i, k - 1).plus(ref_entry(bs, k - 1, i))
    }
}

/// A buffer holds exactly the reference forces for a body set.
pub open spec fn buffer_is_reference(f: ForceBuffer, bs: Seq<Body>) -> bool {
    &&& f.wf()
    &&& f.spec_n() == bs.len()
    &&& forall|i: int, j: int|
        0 <= i < bs.len() && 0 <= j < bs.len() ==> #[trigger] f.entry(i, j) == ref_entry(bs, i, j)
}

/// In a reference buffer, the column sums are the reference net forces.
pub proof fn lemma_reference_net(f: ForceBuffer, bs: Seq<Body>, i: int, k: int)
    requires
        buffer_is_reference(f, bs),
        0 <= i < bs.len(),
        0 <= k <= bs.len(),
    ensures
        f.net_on_prefix(i, k) == ref_net_prefix(bs, i, k),
    decreases k,
{
    if k > 0 {
        lemma_reference_net(f, bs, i, k - 1);
    }
}

/// Two masses below the per-body limit multiply out under the force law's
/// product cap.
proof fn lemma_body_product_cap(ma: int, mb: int)
    requires
        0 <= ma <= MASS_LIMIT as int,
        0 <= mb <= MASS_LIMIT as int,
    ensures
        ma * mb <= MASS_PRODUCT_CAP as int,
{
    assert(ma * mb <= MASS_PRODUCT_CAP as int) by (nonlinear_arith)
        requires
            0 <= ma <= MASS_LIMIT as int,
            0 <= mb <= MASS_LIMIT as int,
    ;
}

/// The exact single-threaded Force Phase: computes every unordered pair
/// once, in lexicographic order, and writes both triangle entries.
#[verifier::rlimit(100)]
#[verifier::spinoff_prover]
pub fn force_phase_reference(bodies: &Vec<Body>, forces: &mut ForceBuffer)
    requires
        all_valid(bodies@),
        old(forces).wf(),
        old(forces).spec_n() == bodies@.len(),
    ensures
        buffer_is_reference(*final(forces), bodies@),
{
    let n: usize = bodies.len();
    let mut i: usize = 0;
    while i < n
        invariant
            n as int == bodies@.len(),
            all_valid(bodies@),
            forces.wf(),
            forces.spec_n() == n as int,
            i <= n,
            forall|a: int, b: int|
                0 <= a < b < n as int && a < i as int ==> #[trigger] forces.entry(a, b)
                    == ref_entry(bodies@, a, b) && forces.entry(b, a) == ref_entry(bodies@, b, a),
        decreases n - i,
    {
        let mut j: usize = i + 1;
        while j < n
            invariant
                n as int == bodies@.len(),
                all_valid(bodies@),
                forces.wf(),
                forces.spec_n() == n as int,
                i < n,
                i + 1 <= j <= n,
                forall|a: int, b: int|
                    0 <= a < b < n as int && (a < i as int || (a == i as int && b < j as int))
                        ==> #[trigger] forces.entry(a, b) == ref_entry(bodies@, a, b)
                        && forces.entry(b, a) == ref_entry(bodies@, b, a),
            decreases n - j,
        {
            proof {
                assert(valid_body(bodies@[i as int]@));
                assert(valid_body(bodies@[j as int]@));
                lemma_body_product_cap(bodies@[i as int]@.mass, bodies@[j as int]@.mass);
            }
            let f = gravitational_force(&bodies[i], &bodies[j]);
            forces.set_pair(i, j, f);
            j = j + 1;
        }
        i = i + 1;
    }
    proof {
        assert forall|a: int, b: int| 0 <= a < n as int && 0 <= b < n as int implies
            #[trigger] forces.entry(a, b) == ref_entry(bodies@, a, b) by {
            if a == b {
            } else if a < b {
                assert(forces.entry(a, b) == ref_entry(bodies@, a, b));
            } else {
                assert(forces.entry(b, a) == ref_entry(bodies@, b, a));
            }
        }
    }
}

/// The pair `(a, b)` appears at a worklist position lexicographically
/// before `(t, m)`.
pub open spec fn processed_before(
    works: Seq<Assigned_work>,
    t: int,
    m: int,
    a: int,
    b: int,
) -> bool {
    exists|t2: int, m2: int|
        0 <= t2 < works.len() && 0 <= m2 < works[t2].pairs@.len() && (t2 < t || (t2 == t && m2
            < m)) && #[trigger] works[t2].pairs@[m2] == pair_at(a, b)
}

/// The Force Phase over partitioned worklists, processed worker by
/// worker. Because every pair's value is a pure function of the (read
/// only) body set and distinct pairs write disjoint entries, the result
/// is exactly the reference buffer — for any worker count and any
/// assignment that covers all pairs. This is the determinism guarantee of
/// the two-phase protocol.
#[verifier::rlimit(100)]
#[verifier::spinoff_prover]
pub fn force_phase(bodies: &Vec<Body>, works: &Vec<Assigned_work>, forces: &mut ForceBuffer)
    requires
        all_valid(bodies@),
        old(forces).wf(),
        old(forces).spec_n() == bodies@.len(),
        pairs_valid(works@, bodies@.len() as int),
        covers_all_pairs(works@, bodies@.len() as int),
    ensures
        buffer_is_reference(*final(forces), bodies@),
{
    let n: usize = bodies.len();
    let nw: usize = works.len();
    let mut t: usize = 0;
    while t < nw
        invariant
            n as int == bodies@.len(),
            all_valid(bodies@),
            forces.wf(),
            forces.spec_n() == n as int,
            t <= nw,
            nw as int == works@.len(),
            pairs_valid(works@, n as int),
            forall|a: int, b: int|
                0 <= a < b < n as int && processed_before(works@, t as int, 0, a, b)
                    ==> #[trigger] forces.entry(a, b) == ref_entry(bodies@, a, b)
                    && forces.entry(b, a) == ref_entry(bodies@, b, a),
        decreases nw - t,
    {
        let pair_count: usize = works[t].pairs.len();
        let mut m: usize = 0;
        while m < pair_count
            invariant
                n as int == bodies@.len(),
                all_valid(bodies@),
                forces.wf(),
                forces.spec_n() == n as int,
                t < nw,
                nw as int == works@.len(),
                m <= pair_count,
                pair_count as int == works@[t as int].pairs@.len(),
                pairs_valid(works@, n as int),
                forall|a: int, b: int|
                    0 <= a < b < n as int && processed_before(works@, t as int, m as int, a, b)
                        ==> #[trigger] forces.entry(a, b) == ref_entry(bodies@, a, b)
                        && forces.entry(b, a) == ref_entry(bodies@, b, a),
            decreases pair_count - m,
        {
            let (pi, pj) = works[t].pairs[m];
            proof {
                assert(works@[t as int].pairs@[m as int] == (pi, pj));
                assert(valid_body(bodies@[pi as int]@));
                assert(valid_body(bodies@[pj as int]@));
                lemma_body_product_cap(bodies@[pi as int]@.mass, bodies@[pj as int]@.mass);
            }
            let f = gravitational_force(&bodies[pi], &bodies[pj]);
            forces.set_pair(pi, pj, f);
            proof {
                assert forall|a: int, b: int|
                    0 <= a < b < n as int && processed_before(works@, t as int, m as int + 1, a, b)
                        implies #[trigger] forces.entry(a, b) == ref_entry(bodies@, a, b)
                        && forces.entry(b, a) == ref_entry(bodies@, b, a) by {
                    let (t2, m2) = choose|t2: int, m2: int|
                        0 <= t2 < works@.len() && 0 <= m2 < works@[t2].pairs@.len() && (t2
                            < t as int || (t2 == t as int && m2 < m as int + 1)) && (
                        #[trigger] works@[t2].pairs@[m2]) == pair_at(a, b);
                    if t2 == t as int && m2 == m as int {
                        assert(a == pi as int && b == pj as int);
                    } else {
                        assert(processed_before(works@, t as int, m as int, a, b));
                        if (a == pi as int && b == pj as int) || (a == pj as int && b
                            == pi as int) {
                        } else {
                        }
                    }
                }
            }
            m = m + 1;
        }
        proof {
            assert forall|a: int, b: int|
                0 <= a < b < n as int && processed_before(works@, t as int + 1, 0, a, b) implies
                #[trigger] forces.entry(a, b) == ref_entry(bodies@, a, b) && forces.entry(b, a)
                == ref_entry(bodies@, b, a) by {
                let (t2, m2) = choose|t2: int, m2: int|
                    0 <= t2 < works@.len() && 0 <= m2 < works@[t2].pairs@.len() && (t2
                        < t as int + 1 || (t2 == t as int + 1 && m2 < 0)) && (
                    #[trigger] works@[t2].pairs@[m2]) == pair_at(a, b);
                assert(processed_before(works@, t as int, pair_count as int, a, b));
            }
        }
        t = t + 1;
    }
    proof {
        assert forall|a: int, b: int| 0 <= a < n as int && 0 <= b < n as int implies
            #[trigger] forces.entry(a, b) == ref_entry(bodies@, a, b) by {
            if a < b {
                assert(listed(works@, a, b));
                let (t2, m2) = choose|t2: int, m2: int|
                    0 <= t2 < works@.len() && 0 <= m2 < works@[t2].pairs@.len() && (
                    #[trigger] works@[t2].pairs@[m2]) == pair_at(a, b);
                assert(processed_before(works@, nw as int, 0, a, b));
            } else if b < a {
                assert(listed(works@, b, a));
                let (t2, m2) = choose|t2: int, m2: int|
                    0 <= t2 < works@.len() && 0 <= m2 < works@[t2].pairs@.len() && (
                    #[trigger] works@[t2].pairs@[m2]) == pair_at(b, a);
                assert(processed_before(works@, nw as int, 0, b, a));
            }
        }
    }
}

/// Any two buffers filled by a Force Phase over the same bodies are
/// identical, whatever the worker count: the partitioned fill equals the
/// single-threaded reference fill.
pub proof fn lemma_force_phase_deterministic(b1: ForceBuffer, b2: ForceBuffer, bs: Seq<Body>)
    requires
        buffer_is_reference(b1, bs),
        buffer_is_reference(b2, bs),
    ensures
        b1.data@ == b2.data@,
        b1.spec_n() == b2.spec_n(),
{
    let n = bs.len() as int;
    assert forall|k: int| 0 <= k < b1.data@.len() implies b1.data@[k] == b2.data@[k] by {
        assert(0 < n) by (nonlinear_arith)
            requires 0 <= n, 0 < n * n;
        vstd::arithmetic::div_mod::lemma_fundamental_div_mod(k, n);
        vstd::arithmetic::div_mod::lemma_mod_division_less_than_divisor(k, n);
        let i = k / n;
        let j = k % n;
        vstd::arithmetic::div_mod::lemma_multiply_divide_lt(k, n, n);
        assert(b1.entry(i, j) == b2.entry(i, j));
        assert(i * n + j == k);
        assert(b1.data@[k]@ == b2.data@[k]@);
    }
    assert(b1.data@ =~= b2.data@);
}

/// The phase the cyclic state machine moves to at a full rendezvous.
pub open spec fn next_phase(p: Phase) -> Phase {
    match p {
        Phase::ComputingForces => Phase::ComputingPositions,
        Phase::ComputingPositions => Phase::ComputingForces,
    }
}

/// A message is well-formed for a simulation of `n` bodies.
pub open spec fn msg_ok(m: Msg, n: int) -> bool {
    match m {
        Msg::Force(i, j, f) => i != j && (i as int) < n && (j as int) < n && v3_bounded(
            f@,
            FORCE_LIMIT as int,
        ),
        Msg::Pos(i, v, p) => (i as int) < n && v3_bounded(v@, COORD_LIMIT as int) && v3_bounded(
            p@,
            COORD_LIMIT as int,
        ),
        Msg::Stop => true,
    }
}

/// The coordinator of the message-passing realization: applies worker
/// messages to the shared state and advances the phase once every worker
/// has reported `Stop` for the current phase.
pub struct Coordinator {
    pub phase: Phase,
    pub stop_count: usize,
    pub n_workers: usize,
    pub running: bool,
}

impl Coordinator {
    /// The stop count is always mid-rendezvous.
    pub open spec fn wf(self) -> bool {
        1 <= self.n_workers && self.stop_count < self.n_workers
    }

    /// A fresh coordinator: Force Phase, no worker done yet.
    pub fn new(n_workers: usize) -> (r: Coordinator)
        requires
            1 <= n_workers,
        ensures
            r.wf(),
            r.phase == Phase::ComputingForces,
            r.stop_count == 0,
            r.n_workers == n_workers,
            r.running,
    {
        Coordinator { phase: Phase::ComputingForces, stop_count: 0, n_workers, running: true }
    }

    /// The shutdown signal: once cleared, every worker leaves its loop at
    /// the next phase boundary instead of entering the rendezvous again.
    pub fn request_shutdown(&mut self)
        ensures
            !final(self).running,
            final(self).phase == old(self).phase,
            final(self).stop_count == old(self).stop_count,
            final(self).n_workers == old(self).n_workers,
    {
        self.running = false;
    }

    /// Is the engine still running?
    pub fn is_running(&self) -> (r: bool)
        ensures
            r == self.running,
    {
        self.running
    }

    /// Applies one worker message, exactly as the tick state machine
    /// prescribes: a `Force` message writes both triangle entries during
    /// the Force Phase, a `Pos` message updates one body during the
    /// Position Phase, a message of the wrong phase changes nothing, and
    /// the `n_workers`-th `Stop` flips the phase and resets the count.
    pub fn handle_msg(&mut self, msg: &Msg, bodies: &mut Vec<Body>, forces: &mut ForceBuffer)
        requires
            old(self).wf(),
            old(forces).wf(),
            old(bodies)@.len() == old(forces).spec_n(),
            msg_ok(*msg, old(forces).spec_n()),
        ensures
            final(self).wf(),
            final(self).n_workers == old(self).n_workers,
            final(self).running == old(self).running,
            final(forces).wf(),
            final(forces).spec_n() == old(forces).spec_n(),
            final(bodies)@.len() == old(bodies)@.len(),
            match *msg {
                Msg::Force(i, j, f) => {
                    &&& final(bodies)@ == old(bodies)@
                    &&& *final(self) == *old(self)
                    &&& if old(self).phase == Phase::ComputingForces {
                        &&& final(forces).entry(i as int, j as int) == f@
                        &&& final(forces).entry(j as int, i as int) == f@.neg()
                        &&& forall|a: int, b: int|
                            0 <= a < old(forces).spec_n() && 0 <= b < old(forces).spec_n() && !(a
                                == i as int && b == j as int) && !(a == j as int && b == i as int)
                                ==> #[trigger] final(forces).entry(a, b) == old(forces).entry(a, b)
                    } else {
                        *final(forces) == *old(forces)
                    }
                },
                Msg::Pos(i, v, p) => {
                    &&& *final(forces) == *old(forces)
                    &&& *final(self) == *old(self)
                    &&& if old(self).phase == Phase::ComputingPositions {
                        final(bodies)@ == old(bodies)@.update(
                            i as int,
                            Body {
                                mass: old(bodies)@[i as int].mass,
                                position: p,
                                velocity: v,
                            },
                        )
                    } else {
                        final(bodies)@ == old(bodies)@
                    }
                },
                Msg::Stop => {
                    &&& final(bodies)@ == old(bodies)@
                    &&& *final(forces) == *old(forces)
                    &&& if old(self).stop_count + 1 == old(self).n_workers {
                        final(self).stop_count == 0 && final(self).phase == next_phase(
                            old(self).phase,
                        )
                    } else {
                        final(self).stop_count == old(self).stop_count + 1 && final(self).phase
                            == old(self).phase
                    }
                },
            },
    {
        match *msg {
            Msg::Force(i, j, f) => {
                if self.phase == Phase::ComputingForces {
                    forces.set_pair(i, j, f);
                }
            },
            Msg::Pos(i, v, p) => {
                if self.phase == Phase::ComputingPositions {
                    let m: i64 = bodies[i].mass;
                    let slot = &mut bodies[i];
                    *slot = Body { mass: m, position: p, velocity: v };
                }
            },
            Msg::Stop => {
                if self.stop_count + 1 == self.n_workers {
                    self.stop_count = 0;
                    self.phase = match self.phase {
                        Phase::ComputingForces => Phase::ComputingPositions,
                        Phase::ComputingPositions => Phase::ComputingForces,
                    };
                } else {
                    self.stop_count = self.stop_count + 1;
                }
            },
        }
    }
}

/// A worker's Force Phase: one `Force` message per assigned pair, holding
/// the exact pairwise force, followed by `Stop`.
pub fn compute_force_msgs(bodies: &Vec<Body>, pairs: &Vec<(usize, usize)>) -> (r: Vec<Msg>)
    requires
        all_valid(bodies@),
        forall|k: int|
            0 <= k < pairs@.len() ==> (#[trigger] pairs@[k]).0 < pairs@[k].1 && (
            pairs@[k].1 as int) < bodies@.len(),
    ensures
        r@.len() == pairs@.len() + 1,
        forall|k: int|
            0 <= k < pairs@.len() ==> (#[trigger] r@[k]) == Msg::Force(
                pairs@[k].0,
                pairs@[k].1,
                Vec3 {
                    x: spec_gravitational_force(
                        bodies@[pairs@[k].0 as int]@,
                        bodies@[pairs@[k].1 as int]@,
                    ).x as i64,
                    y: spec_gravitational_force(
                        bodies@[pairs@[k].0 as int]@,
                        bodies@[pairs@[k].1 as int]@,
                    ).y as i64,
                    z: spec_gravitational_force(
                        bodies@[pairs@[k].0 as int]@,
                        bodies@[pairs@[k].1 as int]@,
                    ).z as i64,
                },
            ) && msg_ok(r@[k], bodies@.len() as int),
        r@[pairs@.len() as int] == Msg::Stop,
{
    let mut r: Vec<Msg> = Vec::new();
    let count: usize = pairs.len();
    let mut k: usize = 0;
    while k < count
        invariant
            all_valid(bodies@),
            count as int == pairs@.len(),
            k <= count,
            r@.len() == k as int,
            forall|t: int|
                0 <= t < pairs@.len() ==> (#[trigger] pairs@[t]).0 < pairs@[t].1 && (
                pairs@[t].1 as int) < bodies@.len(),
            forall|t: int|
                0 <= t < k as int ==> (#[trigger] r@[t]) == Msg::Force(
                    pairs@[t].0,
                    pairs@[t].1,
                    Vec3 {
                        x: spec_gravitational_force(
                            bodies@[pairs@[t].0 as int]@,
                            bodies@[pairs@[t].1 as int]@,
                        ).x as i64,
                        y: spec_gravitational_force(
                            bodies@[pairs@[t].0 as int]@,
                            bodies@[pairs@[t].1 as int]@,
                        ).y as i64,
                        z: spec_gravitational_force(
                            bodies@[pairs@[t].0 as int]@,
                            bodies@[pairs@[t].1 as int]@,
                        ).z as i64,
                    },
                ) && msg_ok(r@[t], bodies@.len() as int),
        decreases count - k,
    {
        let (pi, pj) = pairs[k];
        proof {
            assert(valid_body(bodies@[pi as int]@));
            assert(valid_body(bodies@[pj as int]@));
            lemma_body_product_cap(bodies@[pi as int]@.mass, bodies@[pj as int]@.mass);
        }
        let f = gravitational_force(&bodies[pi], &bodies[pj]);
        r.push(Msg::Force(pi, pj, f));
        k = k + 1;
    }
    r.push(Msg::Stop);
    r
}

/// A worker's Position Phase over its assigned body range: one `Pos`
/// message per body with its integrated velocity and position, followed
/// by `Stop`. Inert bodies get a message restating their old state.
pub fn compute_position_msgs(
    local: &Vec<Body>,
    forces: &ForceBuffer,
    begin: usize,
    end: usize,
    dt: i64,
) -> (r: Vec<Msg>)
    requires
        forces.wf(),
        local@.len() == forces.spec_n(),
        begin <= end,
        end as int <= local@.len(),
        all_valid(local@),
        0 <= dt <= DT_MAX,
    ensures
        r@.len() == end - begin + 1,
        forall|k: int|
            0 <= k < end - begin ==> (#[trigger] r@[k]) == ({
                let nb = spec_integrate(
                    local@[begin + k]@,
                    forces.net_on_prefix(begin + k, forces.spec_n()),
                    dt as int,
                );
                Msg::Pos(
                    (begin + k) as usize,
                    Vec3 { x: nb.velocity.x as i64, y: nb.velocity.y as i64, z: nb.velocity.z as i64 },
                    Vec3 { x: nb.position.x as i64, y: nb.position.y as i64, z: nb.position.z as i64 },
                )
            }) && msg_ok(r@[k], local@.len() as int),
        r@[(end - begin) as int] == Msg::Stop,
{
    let mut r: Vec<Msg> = Vec::new();
    let mut i: usize = begin;
    while i < end
        invariant
            forces.wf(),
            local@.len() == forces.spec_n(),
            begin <= i <= end,
            end as int <= local@.len(),
            all_valid(local@),
            0 <= dt <= DT_MAX,
            r@.len() == i - begin,
            forall|k: int|
                0 <= k < i - begin ==> (#[trigger] r@[k]) == ({
                    let nb = spec_integrate(
                        local@[begin + k]@,
                        forces.net_on_prefix(begin + k, forces.spec_n()),
                        dt as int,
                    );
                    Msg::Pos(
                        (begin + k) as usize,
                        Vec3 {
                            x: nb.velocity.x as i64,
                            y: nb.velocity.y as i64,
                            z: nb.velocity.z as i64,
                        },
                        Vec3 {
                            x: nb.position.x as i64,
                            y: nb.position.y as i64,
                            z: nb.position.z as i64,
                        },
                    )
                }) && msg_ok(r@[k], local@.len() as int),
        decreases end - i,
    {
        let net = forces.net_force_on(i);
        proof {
            assert(forces.spec_n() * (FORCE_LIMIT as int) <= (POP_CAP as int) * (
            FORCE_LIMIT as int)) by (nonlinear_arith)
                requires 0 <= forces.spec_n() <= POP_CAP as int;
            assert(valid_body(local@[i as int]@));
        }
        let nb = integrate_body(&local[i], &net, dt);
        r.push(Msg::Pos(i, nb.velocity, nb.position));
        i = i + 1;
    }
    r.push(Msg::Stop);
    r
}

/// The Position Phase over one body range: every body of `[begin, end)`
/// integrates the net force the buffer holds for it; everything outside
/// the range is untouched.
pub fn integrate_range(
    bodies: &mut Vec<Body>,
    forces: &ForceBuffer,
    begin: usize,
    end: usize,
    dt: i64,
)
    requires
        forces.wf(),
        old(bodies)@.len() == forces.spec_n(),
        begin <= end,
        end as int <= old(bodies)@.len(),
        forall|i: int| begin <= i < end ==> valid_body((#[trigger] old(bodies)@[i])@),
        0 <= dt <= DT_MAX,
    ensures
        final(bodies)@.len() == old(bodies)@.len(),
        forall|i: int|
            begin <= i < end ==> ((#[trigger] final(bodies)@[i])@ == spec_integrate(
                old(bodies)@[i]@,
                forces.net_on_prefix(i, forces.spec_n()),
                dt as int,
            ) && valid_body(final(bodies)@[i]@)),
        forall|i: int|
            0 <= i < old(bodies)@.len() && !(begin <= i < end)
                ==> (#[trigger] final(bodies)@[i]) == old(bodies)@[i],
{
    let ghost obs = bodies@;
    let mut k: usize = begin;
    while k < end
        invariant
            forces.wf(),
            bodies@.len() == forces.spec_n(),
            begin <= k <= end,
            end as int <= bodies@.len(),
            forall|i: int| begin <= i < end ==> valid_body((#[trigger] obs[i])@),
            0 <= dt <= DT_MAX,
            obs.len() == bodies@.len(),
            forall|i: int|
                begin <= i < k ==> ((#[trigger] bodies@[i])@ == spec_integrate(
                    obs[i]@,
                    forces.net_on_prefix(i, forces.spec_n()),
                    dt as int,
                ) && valid_body(bodies@[i]@)),
            forall|i: int|
                0 <= i < obs.len() && !(begin <= i < k) ==> (#[trigger] bodies@[i]) == obs[i],
        decreases end - k,
    {
        let net = forces.net_force_on(k);
        proof {
            assert(forces.spec_n() * (FORCE_LIMIT as int) <= (POP_CAP as int) * (
            FORCE_LIMIT as int)) by (nonlinear_arith)
                requires 0 <= forces.spec_n() <= POP_CAP as int;
            assert(bodies@[k as int] == obs[k as int]);
        }
        let nb = integrate_body(&bodies[k], &net, dt);
        let slot = &mut bodies[k];
        *slot = nb;
        k = k + 1;
    }
}

/// The approximate-mode Position Phase over one body range: every body of
/// `[begin, end)` integrates the Barnes-Hut net force that the spatial
/// index yields for it at opening angle `theta`; everything outside the
/// range is untouched. This is the worker assignment of the approximate
/// mode: a contiguous range of target bodies, each evaluated by one
/// traversal of the shared index.
pub fn integrate_with_index(
    bodies: &mut Vec<Body>,
    root: &Octree_member,
    begin: usize,
    end: usize,
    theta: i64,
    dt: i64,
)
    requires
        root.wf(),
        begin <= end,
        end as int <= old(bodies)@.len(),
        forall|i: int| begin <= i < end ==> valid_body((#[trigger] old(bodies)@[i])@),
        0 <= theta <= THETA_MAX,
        0 <= dt <= DT_MAX,
    ensures
        final(bodies)@.len() == old(bodies)@.len(),
        forall|i: int|
            begin <= i < end ==> ((#[trigger] final(bodies)@[i])@ == spec_integrate(
                old(bodies)@[i]@,
                root.spec_approximate_force(old(bodies)@[i]@, theta as int),
                dt as int,
            ) && valid_body(final(bodies)@[i]@)),
        forall|i: int|
            0 <= i < old(bodies)@.len() && !(begin <= i < end)
                ==> (#[trigger] final(bodies)@[i]) == old(bodies)@[i],
{
    let ghost obs = bodies@;
    let mut k: usize = begin;
    while k < end
        invariant
            root.wf(),
            begin <= k <= end,
            end as int <= bodies@.len(),
            bodies@.len() == obs.len(),
            forall|i: int| begin <= i < end ==> valid_body((#[trigger] obs[i])@),
            0 <= theta <= THETA_MAX,
            0 <= dt <= DT_MAX,
            forall|i: int|
                begin <= i < k ==> ((#[trigger] bodies@[i])@ == spec_integrate(
                    obs[i]@,
                    root.spec_approximate_force(obs[i]@, theta as int),
                    dt as int,
                ) && valid_body(bodies@[i]@)),
            forall|i: int|
                0 <= i < obs.len() && !(begin <= i < k) ==> (#[trigger] bodies@[i]) == obs[i],
        decreases end - k,
    {
        proof {
            assert(bodies@[k as int] == obs[k as int]);
        }
        let net = root.approximate_force(&bodies[k], theta);
        proof {
            assert(root.bodies().len() * (FORCE_LIMIT as int) <= (POP_CAP as int) * (
            FORCE_LIMIT as int)) by (nonlinear_arith)
                requires 0 <= root.bodies().len() <= POP_CAP as int;
        }
        let nb = integrate_body(&bodies[k], &net, dt);
        let slot = &mut bodies[k];
        *slot = nb;
        k = k + 1;
    }
}

/// What one tick does to the body set: every body moves by one
/// semi-implicit Euler step under its exact reference net force.
pub open spec fn tick_post(old_bs: Seq<Body>, new_bs: Seq<Body>, dt: int) -> bool {
    &&& new_bs.len() == old_bs.len()
    &&& forall|i: int|
        0 <= i < old_bs.len() ==> (#[trigger] new_bs[i])@ == spec_integrate(
            old_bs[i]@,
            ref_net_prefix(old_bs, i, old_bs.len() as int),
            dt,
        )
}

/// One full tick of the sequential reference realization: the exact
/// O(n^2) Force Phase, then integration of every body.
pub fn sequential_loop(bodies: &mut Vec<Body>, forces: &mut ForceBuffer, dt: i64)
    requires
        all_valid(old(bodies)@),
        old(forces).wf(),
        old(forces).spec_n() == old(bodies)@.len(),
        0 <= dt <= DT_MAX,
    ensures
        buffer_is_reference(*final(forces), old(bodies)@),
        tick_post(old(bodies)@, final(bodies)@, dt as int),
        all_valid(final(bodies)@),
{
    let ghost obs = bodies@;
    force_phase_reference(bodies, forces);
    let n: usize = bodies.len();
    integrate_range(bodies, forces, 0, n, dt);
    proof {
        assert forall|i: int| 0 <= i < obs.len() implies (#[trigger] bodies@[i])@
            == spec_integrate(obs[i]@, ref_net_prefix(obs, i, obs.len() as int), dt as int) by {
            lemma_reference_net(*forces, obs, i, obs.len() as int);
        }
        assert forall|i: int| 0 <= i < bodies@.len() implies valid_body(
            (#[trigger] bodies@[i])@,
        ) by {}
    }
}

/// One full tick of the partitioned realization: the worklist Force
/// Phase, then the Position Phase worker range by worker range. The
/// outcome is exactly `tick_post` — the same as the sequential loop, for
/// any worker count.
#[verifier::rlimit(100)]
#[verifier::spinoff_prover]
pub fn tick(bodies: &mut Vec<Body>, forces: &mut ForceBuffer, works: &Vec<Assigned_work>, dt: i64)
    requires
        all_valid(old(bodies)@),
        old(forces).wf(),
        old(forces).spec_n() == old(bodies)@.len(),
        pairs_valid(works@, old(bodies)@.len() as int),
        covers_all_pairs(works@, old(bodies)@.len() as int),
        ranges_exact(works@, old(bodies)@.len() as int, works@.len() as int),
        1 <= works@.len(),
        0 <= dt <= DT_MAX,
    ensures
        buffer_is_reference(*final(forces), old(bodies)@),
        tick_post(old(bodies)@, final(bodies)@, dt as int),
        all_valid(final(bodies)@),
{
    let ghost obs = bodies@;
    force_phase(bodies, works, forces);
    let n: usize = bodies.len();
    let nw: usize = works.len();
    let mut t: usize = 0;
    while t < nw
        invariant
            buffer_is_reference(*forces, obs),
            obs.len() == n as int,
            bodies@.len() == n as int,
            all_valid(obs),
            nw as int == works@.len(),
            1 <= nw,
            t <= nw,
            ranges_exact(works@, n as int, nw as int),
            0 <= dt <= DT_MAX,
            t < nw ==> works@[t as int].begin as int <= n as int,
            forall|i: int|
                0 <= i < (if t as int == nw as int {
                    n as int
                } else {
                    works@[t as int].begin as int
                }) ==> (#[trigger] bodies@[i])@ == spec_integrate(
                    obs[i]@,
                    forces.net_on_prefix(i, n as int),
                    dt as int,
                ) && valid_body(bodies@[i]@),
            forall|i: int|
                (if t as int == nw as int {
                    n as int
                } else {
                    works@[t as int].begin as int
                }) <= i < n as int ==> (#[trigger] bodies@[i]) == obs[i],
        decreases nw - t,
    {
        let begin: usize = works[t].begin;
        let end: usize = works[t].end;
        proof {
            if (t as int) < nw as int - 1 {
                lemma_ranges_ordered(works@, n as int, nw as int, t as int, nw as int - 1);
                assert(works@[t as int].end as int <= works@[nw as int - 1].begin as int);
            }
            assert(end as int <= n as int);
        }
        integrate_range(bodies, forces, begin, end, dt);
        t = t + 1;
    }
    proof {
        assert forall|i: int| 0 <= i < obs.len() implies (#[trigger] bodies@[i])@
            == spec_integrate(obs[i]@, ref_net_prefix(obs, i, obs.len() as int), dt as int) by {
            lemma_reference_net(*forces, obs, i, obs.len() as int);
        }
    }
}

/// The per-tick snapshot handed to the renderer between ticks: the mass
/// and position of every body, as a fresh copy.
pub fn snapshot(bodies: &Vec<Body>) -> (r: Vec<(i64, Vec3)>)
    ensures
        r@.len() == bodies@.len(),
        forall|i: int|
            0 <= i < bodies@.len() ==> (#[trigger] r@[i]).0 == bodies@[i].mass && r@[i].1
                == bodies@[i].position,
{
    let mut r: Vec<(i64, Vec3)> = Vec::new();
    let n: usize = bodies.len();
    let mut i: usize = 0;
    while i < n
        invariant
            n as int == bodies@.len(),
            i <= n,
            r@.len() == i as int,
            forall|k: int|
                0 <= k < i as int ==> (#[trigger] r@[k]).0 == bodies@[k].mass && r@[k].1
                    == bodies@[k].position,
        decreases n - i,
    {
        let b = bodies[i];
        r.push((b.mass, b.position));
        i = i + 1;
    }
    r
}

/// The reference net force on body `i` is exactly the pairwise force sum
/// over the whole body set (the self term being zero).
pub proof fn lemma_ref_net_is_force_sum(bs: Seq<Body>, i: int, k: int)
    requires
        all_valid(bs),
        0 <= i < bs.len(),
        0 <= k <= bs.len(),
    ensures
        ref_net_prefix(bs, i, k) == crate::octree::spec_force_sum(bs.subrange(0, k), bs[i]@),
    decreases k,
{
    let pre = bs.subrange(0, k);
    if k == 0 {
        assert(pre =~= Seq::<Body>::empty());
    } else {
        lemma_ref_net_is_force_sum(bs, i, k - 1);
        assert(pre.drop_last() =~= bs.subrange(0, k - 1));
        assert(pre.last() == bs[k - 1]);
        if k - 1 == i {
            crate::physics::lemma_force_self_zero(bs[i]@);
        } else if k - 1 > i {
            assert(valid_body(bs[i]@));
            assert(valid_body(bs[k - 1]@));
            lemma_body_product_cap(bs[i]@.mass, bs[k - 1]@.mass);
            crate::physics::lemma_force_antisymmetry(bs[i]@, bs[k - 1]@);
            assert(spec_gravitational_force(bs[i]@, bs[k - 1]@).neg()
                =~= spec_gravitational_force(bs[k - 1]@, bs[i]@));
        }
    }
}

/// The end-to-end bridge between the two force modes: over the same body
/// set, a Barnes-Hut traversal with opening angle zero yields exactly the
/// reference net force of the pairwise mode.
pub proof fn lemma_barnes_hut_net_matches_reference(t: Octree_member, bs: Seq<Body>, i: int)
    requires
        t.wf(),
        all_valid(bs),
        t.bodies().to_multiset() == bs.to_multiset(),
        0 <= i < bs.len(),
    ensures
        t.spec_approximate_force(bs[i]@, 0) == ref_net_prefix(bs, i, bs.len() as int),
{
    assert(valid_body(bs[i]@));
    crate::octree::lemma_theta_zero_exact(t, bs[i]@);
    crate::octree::lemma_force_sum_permutation(t.bodies(), bs, bs[i]@);
    lemma_ref_net_is_force_sum(bs, i, bs.len() as int);
    assert(bs.subrange(0, bs.len() as int) =~= bs);
}

/// One full tick of the approximate mode: the spatial index is rebuilt
/// from the current bodies, and every body integrates the force of one
/// Barnes-Hut traversal of that index — the index is the deterministic
/// `spec_build` tree of the body set, so the whole tick is a function of
/// the bodies, the opening angle and the timestep. With opening angle
/// zero the outcome is exactly `tick_post`, the same as the pairwise
/// modes.
#[verifier::rlimit(100)]
#[verifier::spinoff_prover]
pub fn barnes_hut_tick(bodies: &mut Vec<Body>, theta: i64, dt: i64)
    requires
        1 <= old(bodies)@.len() <= POP_CAP,
        all_valid(old(bodies)@),
        crate::octree::distinct_positions(old(bodies)@),
        crate::octree::mass_sum(old(bodies)@) <= crate::physics::TOTAL_MASS_CAP,
        0 <= theta <= THETA_MAX,
        0 <= dt <= DT_MAX,
    ensures
        final(bodies)@.len() == old(bodies)@.len(),
        all_valid(final(bodies)@),
        crate::octree::built_over(crate::octree::spec_build(old(bodies)@), old(bodies)@),
        forall|i: int|
            0 <= i < old(bodies)@.len() ==> (#[trigger] final(bodies)@[i])@ == spec_integrate(
                old(bodies)@[i]@,
                crate::octree::spec_build(old(bodies)@).spec_approximate_force(
                    old(bodies)@[i]@,
                    theta as int,
                ),
                dt as int,
            ),
        theta == 0 ==> tick_post(old(bodies)@, final(bodies)@, dt as int),
{
    let ghost obs = bodies@;
    let root = crate::octree::create_octree_sequential(bodies);
    let n: usize = bodies.len();
    integrate_with_index(bodies, &root, 0, n, theta, dt);
    proof {
        let t = *root;
        assert(t == crate::octree::spec_build(obs));
        assert(crate::octree::built_over(t, obs) && forall|i: int|
            0 <= i < obs.len() ==> (#[trigger] bodies@[i])@ == spec_integrate(
                obs[i]@,
                t.spec_approximate_force(obs[i]@, theta as int),
                dt as int,
            ));
        if theta == 0 {
            assert forall|i: int| 0 <= i < obs.len() implies (#[trigger] bodies@[i])@
                == spec_integrate(obs[i]@, ref_net_prefix(obs, i, obs.len() as int), dt as int) by {
                lemma_barnes_hut_net_matches_reference(t, obs, i);
            }
        }
    }
}

/// The point reflection of a body about the origin.
pub open spec fn mirror(b: BodyView) -> BodyView {
    BodyView { mass: b.mass, position: b.position.neg(), velocity: b.velocity.neg() }
}

/// Clamping commutes with negation (the limits are symmetric).
pub proof fn lemma_clamp_neg(x: int, lim: int)
    requires
        0 <= lim,
    ensures
        clamp(-x, lim) == -clamp(x, lim),
{
}

/// Integration commutes with the point reflection: a mirrored body under
/// the mirrored net force moves to the mirrored state.
pub proof fn lemma_integrate_mirror(b: BodyView, net: V3, dt: int)
    requires
        0 <= b.mass,
        0 <= dt,
    ensures
        spec_integrate(mirror(b), net.neg(), dt) == mirror(spec_integrate(b, net, dt)),
{
    if b.mass == 0 {
    } else {
        let m = b.mass;
        let ax = tdiv(net.x * SCALE, m);
        let ay = tdiv(net.y * SCALE, m);
        let az = tdiv(net.z * SCALE, m);
        assert((-net.x) * SCALE == -(net.x * SCALE)) by (nonlinear_arith);
        assert((-net.y) * SCALE == -(net.y * SCALE)) by (nonlinear_arith);
        assert((-net.z) * SCALE == -(net.z * SCALE)) by (nonlinear_arith);
        crate::physics::lemma_tdiv_neg(net.x * SCALE, m);
        crate::physics::lemma_tdiv_neg(net.y * SCALE, m);
        crate::physics::lemma_tdiv_neg(net.z * SCALE, m);
        assert((-ax) * dt == -(ax * dt)) by (nonlinear_arith);
        assert((-ay) * dt == -(ay * dt)) by (nonlinear_arith);
        assert((-az) * dt == -(az * dt)) by (nonlinear_arith);
        crate::physics::lemma_tdiv_neg(ax * dt, SCALE as int);
        crate::physics::lemma_tdiv_neg(ay * dt, SCALE as int);
        crate::physics::lemma_tdiv_neg(az * dt, SCALE as int);
        lemma_clamp_neg(
            b.velocity.x + tdiv(ax * dt, SCALE as int),
            COORD_LIMIT as int,
        );
        lemma_clamp_neg(
            b.velocity.y + tdiv(ay * dt, SCALE as int),
            COORD_LIMIT as int,
        );
        lemma_clamp_neg(
            b.velocity.z + tdiv(az * dt, SCALE as int),
            COORD_LIMIT as int,
        );
        let vx = clamp(b.velocity.x + tdiv(ax * dt, SCALE as int), COORD_LIMIT as int);
        let vy = clamp(b.velocity.y + tdiv(ay * dt, SCALE as int), COORD_LIMIT as int);
        let vz = clamp(b.velocity.z + tdiv(az * dt, SCALE as int), COORD_LIMIT as int);
        assert((-vx) * dt == -(vx * dt)) by (nonlinear_arith);
        assert((-vy) * dt == -(vy * dt)) by (nonlinear_arith);
        assert((-vz) * dt == -(vz * dt)) by (nonlinear_arith);
        crate::physics::lemma_tdiv_neg(vx * dt, SCALE as int);
        crate::physics::lemma_tdiv_neg(vy * dt, SCALE as int);
        crate::physics::lemma_tdiv_neg(vz * dt, SCALE as int);
        lemma_clamp_neg(b.position.x + tdiv(vx * dt, SCALE as int), COORD_LIMIT as int);
        lemma_clamp_neg(b.position.y + tdiv(vy * dt, SCALE as int), COORD_LIMIT as int);
        lemma_clamp_neg(b.position.z + tdiv(vz * dt, SCALE as int), COORD_LIMIT as int);
    }
}

/// A mirror-symmetric two-body system stays mirror-symmetric: in the
/// state `[a, mirror(a)]`, the tick moves the second body to exactly the
/// mirror of where it moves the first. By induction over ticks, the
/// system remains mirror-symmetric about the origin forever.
pub proof fn lemma_mirror_symmetric_step(a: Body, m: Body, dt: int)
    requires
        m@ == mirror(a@),
        0 <= a@.mass,
        0 <= dt <= DT_MAX as int,
    ensures
        spec_integrate(m@, ref_net_prefix(seq![a, m], 1, 2), dt) == mirror(
            spec_integrate(a@, ref_net_prefix(seq![a, m], 0, 2), dt),
        ),
{
    let s = seq![a, m];
    assert(s[0] == a && s[1] == m);
    reveal_with_fuel(ref_net_prefix, 3);
    let g = spec_gravitational_force(a@, m@);
    let net0 = ref_net_prefix(s, 0, 2);
    let net1 = ref_net_prefix(s, 1, 2);
    assert(ref_entry(s, 0, 0) == V3::zero());
    assert(ref_entry(s, 1, 1) == V3::zero());
    assert(ref_entry(s, 1, 0) == g.neg());
    assert(ref_entry(s, 0, 1) == g);
    assert(net0 == V3::zero().plus(ref_entry(s, 0, 0)).plus(ref_entry(s, 1, 0)));
    assert(net1 == V3::zero().plus(ref_entry(s, 0, 1)).plus(ref_entry(s, 1, 1)));
    assert(net1 == net0.neg());
    lemma_integrate_mirror(a@, net0, dt);
    assert(spec_integrate(m@, net1, dt) == mirror(spec_integrate(a@, net0, dt)));
}

/// Packaging of the mirror law with the tick contract: if a tick takes
/// the two-body state `[a, mirror(a)]` to a new state, the new state is
/// again of the form `[a', mirror(a')]` — so, by induction over ticks,
/// the symmetric system remains mirror-symmetric after any number of
/// ticks.
pub proof fn lemma_tick_preserves_mirror(
    a: Body,
    m: Body,
    old_bs: Seq<Body>,
    new_bs: Seq<Body>,
    dt: int,
)
    requires
        old_bs == seq![a, m],
        m@ == mirror(a@),
        0 <= a@.mass,
        tick_post(old_bs, new_bs, dt),
        0 <= dt <= DT_MAX as int,
    ensures
        new_bs.len() == 2,
        new_bs[1]@ == mirror(new_bs[0]@),
{
    assert(old_bs[0] == a && old_bs[1] == m);
    lemma_mirror_symmetric_step(a, m, dt);
}

} // verus!
