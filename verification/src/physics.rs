//! Geometry and physics primitives.
//!
//! Scalars are fixed-point: an `i64` value `s` stands for the real number
//! `s / SCALE`. The gravitational constant is the rational `G_NUM / G_DEN`.
//! The force law short-circuits to zero for inert (mass 0) bodies and for
//! near-collisions (squared distance below `EPS_D2`), so it is total and
//! never divides by zero.

use vstd::prelude::*;

verus! {

/// Fixed-point scale: one unit is `1 / SCALE` of the real quantity.
pub const SCALE: i64 = 1_000_000;

/// Largest magnitude of a position or velocity component.
pub const COORD_LIMIT: i64 = 1_000_000_000_000;

/// Largest mass of a single body.
pub const MASS_LIMIT: i64 = 1_000_000_000_000;

/// Largest total mass over all bodies of a simulation.
pub const TOTAL_MASS_CAP: i64 = 1_000_000_000_000_000;

/// Largest admissible product of the two masses handed to the force law
/// (`MASS_LIMIT * TOTAL_MASS_CAP`, so a body against a whole cluster fits).
pub const MASS_PRODUCT_CAP: i128 = 1_000_000_000_000_000_000_000_000_000;

/// Numerator of the gravitational constant: `G = G_NUM / G_DEN`.
pub const G_NUM: i64 = 66_743;

/// Denominator of the gravitational constant.
pub const G_DEN: i128 = 1_000_000_000_000_000;

/// Near-collision threshold on the squared distance (units of `1/SCALE^2`);
/// below it the force law degrades to zero instead of blowing up.
pub const EPS_D2: i128 = 1_000_000_000;

/// Largest magnitude of one component of a pairwise force:
/// `G_NUM * MASS_PRODUCT_CAP * SCALE / (G_DEN * EPS_D2)`.
pub const FORCE_LIMIT: i64 = 66_743_000_000_000;

/// A 3-vector of fixed-point scalars.
#[derive(Clone, Copy, Debug, PartialEq, Eq, Structural)]
pub struct Vec3 {
    pub x: i64,
    pub y: i64,
    pub z: i64,
}

/// The mathematical model of a `Vec3`: a 3-vector of unbounded integers.
#[verifier::ext_equal]
pub ghost struct V3 {
    pub x: int,
    pub y: int,
    pub z: int,
}

impl View for Vec3 {
    type V = V3;

    open spec fn view(&self) -> V3 {
        V3 { x: self.x as int, y: self.y as int, z: self.z as int }
    }
}

impl V3 {
    pub open spec fn zero() -> V3 {
        V3 { x: 0, y: 0, z: 0 }
    }

    pub open spec fn neg(self) -> V3 {
        V3 { x: -self.x, y: -self.y, z: -self.z }
    }

    pub open spec fn plus(self, o: V3) -> V3 {
        V3 { x: self.x + o.x, y: self.y + o.y, z: self.z + o.z }
    }
}

/// The zero vector is neutral for vector addition.
pub proof fn lemma_plus_zero(v: V3)
    ensures
        V3::zero().plus(v) == v,
        v.plus(V3::zero()) == v,
{
    assert(V3::zero().plus(v) =~= v);
    assert(v.plus(V3::zero()) =~= v);
}

/// All components within `bound` in magnitude.
pub open spec fn v3_bounded(v: V3, bound: int) -> bool {
    -bound <= v.x <= bound && -bound <= v.y <= bound && -bound <= v.z <= bound
}

/// A point mass: inert when `mass == 0` (skipped by force and integration,
/// but kept in storage so indices stay stable).
#[derive(Clone, Copy, Debug, PartialEq, Eq, Structural)]
pub struct Body {
    pub mass: i64,
    pub position: Vec3,
    pub velocity: Vec3,
}

/// The mathematical model of a `Body`.
pub ghost struct BodyView {
    pub mass: int,
    pub position: V3,
    pub velocity: V3,
}

impl View for Body {
    type V = BodyView;

    open spec fn view(&self) -> BodyView {
        BodyView { mass: self.mass as int, position: self.position@, velocity: self.velocity@ }
    }
}

/// The state space of the engine: nonnegative bounded mass, bounded
/// position and velocity.
pub open spec fn valid_body(b: BodyView) -> bool {
    &&& 0 <= b.mass <= MASS_LIMIT
    &&& v3_bounded(b.position, COORD_LIMIT as int)
    &&& v3_bounded(b.velocity, COORD_LIMIT as int)
}

/// Squared distance between two points, in units of `1/SCALE^2`.
pub open spec fn dist2(a: V3, b: V3) -> int {
    (a.x - b.x) * (a.x - b.x) + (a.y - b.y) * (a.y - b.y) + (a.z - b.z) * (a.z - b.z)
}

/// Division truncated toward zero (what `/` does on machine integers),
/// defined for positive divisors.
pub open spec fn tdiv(a: int, b: int) -> int {
    if a >= 0 {
        a / b
    } else {
        -((-a) / b)
    }
}

/// Floor of the square root of `n`.
pub open spec fn sqrt_floor(n: int) -> int
    decreases n,
{
    if n <= 0 {
        0
    } else {
        let r = sqrt_floor(n - 1);
        if (r + 1) * (r + 1) <= n {
            r + 1
        } else {
            r
        }
    }
}

/// `sqrt_floor` really is the floor of the square root.
pub proof fn lemma_sqrt_floor(n: int)
    requires
        n >= 0,
    ensures
        sqrt_floor(n) >= 0,
        sqrt_floor(n) * sqrt_floor(n) <= n,
        n < (sqrt_floor(n) + 1) * (sqrt_floor(n) + 1),
    decreases n,
{
    if n > 0 {
        lemma_sqrt_floor(n - 1);
        let r = sqrt_floor(n - 1);
        if (r + 1) * (r + 1) <= n {
            assert(n - 1 < (r + 1) * (r + 1));
            assert((r + 2) * (r + 2) > (r + 1) * (r + 1)) by (nonlinear_arith)
                requires r >= 0;
        }
    }
}

/// Any `r` with `r^2 <= n < (r+1)^2` is `sqrt_floor(n)`.
pub proof fn lemma_sqrt_unique(n: int, r: int)
    requires
        n >= 0,
        r >= 0,
        r * r <= n,
        n < (r + 1) * (r + 1),
    ensures
        r == sqrt_floor(n),
{
    lemma_sqrt_floor(n);
    let s = sqrt_floor(n);
    if r < s {
        assert((r + 1) * (r + 1) <= s * s) by (nonlinear_arith)
            requires 0 <= r, r + 1 <= s;
    }
    if s < r {
        assert((s + 1) * (s + 1) <= r * r) by (nonlinear_arith)
            requires 0 <= s, s + 1 <= r;
    }
}

/// Magnitude of the gravitational force between masses `ma` and `mb` at
/// squared distance `d2 > 0`, in fixed-point units.
pub open spec fn force_magnitude(ma: int, mb: int, d2: int) -> int {
    (G_NUM * ma * mb * SCALE) / (G_DEN * d2)
}

/// The inputs the force law is specified for: nonnegative masses whose
/// product fits the arithmetic, and in-range positions.
pub open spec fn grav_args_ok(a: BodyView, b: BodyView) -> bool {
    &&& 0 <= a.mass
    &&& 0 <= b.mass
    &&& a.mass * b.mass <= MASS_PRODUCT_CAP
    &&& v3_bounded(a.position, COORD_LIMIT as int)
    &&& v3_bounded(b.position, COORD_LIMIT as int)
}

/// The force exerted on `a` by `b`, directed along `a.position - b.position`
/// (the sign convention of the engine: the net force on a body is summed
/// from the forces `gravitational_force(other, body)`).
///
/// Zero when either body is inert or the two are closer than `EPS_D2`;
/// otherwise the magnitude `G * ma * mb / d2` along the unit vector, with
/// every division truncated toward zero.
pub open spec fn spec_gravitational_force(a: BodyView, b: BodyView) -> V3 {
    let d2 = dist2(a.position, b.position);
    if a.mass == 0 || b.mass == 0 || d2 < EPS_D2 {
        V3::zero()
    } else {
        let f = force_magnitude(a.mass, b.mass, d2);
        let n = sqrt_floor(d2);
        V3 {
            x: tdiv(f * (a.position.x - b.position.x), n),
            y: tdiv(f * (a.position.y - b.position.y), n),
            z: tdiv(f * (a.position.z - b.position.z), n),
        }
    }
}

/// `tdiv` flips sign with its dividend.
pub proof fn lemma_tdiv_neg(a: int, b: int)
    requires
        0 < b,
    ensures
        tdiv(-a, b) == -tdiv(a, b),
{
}

/// A quotient bounded through its numerator: `|tdiv(m, d)| <= bound` when
/// `|m| <= d * bound`.
pub proof fn lemma_tdiv_bound(m: int, d: int, bound: int)
    requires
        1 <= d,
        0 <= bound,
        -(d * bound) <= m <= d * bound,
    ensures
        -bound <= tdiv(m, d) <= bound,
{
    let a = if m >= 0 { m } else { -m };
    vstd::arithmetic::div_mod::lemma_multiply_divide_le(a, d, bound);
    vstd::arithmetic::div_mod::lemma_div_pos_is_pos(a, d);
    if m < 0 {
        lemma_tdiv_neg(a, d);
    }
}

/// A quotient of a bounded product: `|tdiv(f * d, n)| <= f` when `|d| <= n`.
pub proof fn lemma_tdiv_product_bound(f: int, d: int, n: int)
    requires
        0 <= f,
        1 <= n,
        -n <= d <= n,
    ensures
        -f <= tdiv(f * d, n) <= f,
{
    let m = if d >= 0 { d } else { -d };
    assert(0 <= f * m <= n * f) by (nonlinear_arith)
        requires 0 <= f, 0 <= m <= n;
    vstd::arithmetic::div_mod::lemma_multiply_divide_le(f * m, n, f);
    vstd::arithmetic::div_mod::lemma_div_pos_is_pos(f * m, n);
    if d >= 0 {
        assert(tdiv(f * d, n) == (f * m) / n);
    } else {
        assert(f * d == -(f * m)) by (nonlinear_arith)
            requires m == -d;
        lemma_tdiv_neg(f * m, n);
    }
}

/// Each coordinate difference is at most the floored norm.
pub proof fn lemma_component_le_norm(d: int, d2: int)
    requires
        0 <= d2,
        d * d <= d2,
    ensures
        -sqrt_floor(d2) <= d <= sqrt_floor(d2),
{
    lemma_sqrt_floor(d2);
    let n = sqrt_floor(d2);
    let m = if d >= 0 { d } else { -d };
    assert(m * m == d * d) by (nonlinear_arith)
        requires m == d || m == -d;
    if m > n {
        assert((n + 1) * (n + 1) <= m * m) by (nonlinear_arith)
            requires 0 <= n, n + 1 <= m;
    }
}

/// The floored square root of a positive number is positive.
pub proof fn lemma_sqrt_floor_pos(n: int)
    requires
        1 <= n,
    ensures
        1 <= sqrt_floor(n),
    decreases n,
{
    if n == 1 {
        let r = sqrt_floor(0);
        assert(r == 0);
        assert((r + 1) * (r + 1) == 1) by (nonlinear_arith)
            requires r == 0;
        assert(sqrt_floor(1) == 1);
    } else {
        lemma_sqrt_floor_pos(n - 1);
    }
}

/// The force magnitude is nonnegative and at most `FORCE_LIMIT`.
pub proof fn lemma_force_magnitude_bounds(ma: int, mb: int, d2: int)
    requires
        1 <= ma,
        1 <= mb,
        ma * mb <= MASS_PRODUCT_CAP,
        EPS_D2 <= d2,
    ensures
        0 <= force_magnitude(ma, mb, d2) <= FORCE_LIMIT,
{
    let num = G_NUM * ma * mb * SCALE;
    let den = G_DEN * d2;
    let num_cap = G_NUM * MASS_PRODUCT_CAP * SCALE;
    assert(0 < num <= num_cap) by (nonlinear_arith)
        requires
            num == G_NUM * ma * mb * SCALE,
            num_cap == G_NUM * MASS_PRODUCT_CAP * SCALE,
            1 <= ma,
            1 <= mb,
            ma * mb <= MASS_PRODUCT_CAP,
    ;
    assert(0 < G_DEN * EPS_D2 <= den) by (nonlinear_arith)
        requires den == G_DEN * d2, EPS_D2 <= d2;
    vstd::arithmetic::div_mod::lemma_div_pos_is_pos(num, den);
    vstd::arithmetic::div_mod::lemma_div_is_ordered(num, num_cap, den);
    vstd::arithmetic::div_mod::lemma_div_is_ordered_by_denominator(
        num_cap,
        G_DEN * EPS_D2,
        den,
    );
    assert(num_cap == 66_743_000_000_000_000_000_000_000_000_000_000_000int) by (nonlinear_arith)
        requires num_cap == G_NUM * MASS_PRODUCT_CAP * SCALE;
    assert(G_DEN * EPS_D2 == 1_000_000_000_000_000_000_000_000int) by (nonlinear_arith);
    assert(66_743_000_000_000_000_000_000_000_000_000_000_000int
        / 1_000_000_000_000_000_000_000_000int == FORCE_LIMIT as int);
}

/// Every component of the pairwise force lies within `FORCE_LIMIT`.
pub proof fn lemma_force_bounded(a: BodyView, b: BodyView)
    requires
        grav_args_ok(a, b),
    ensures
        v3_bounded(spec_gravitational_force(a, b), FORCE_LIMIT as int),
{
    let d2 = dist2(a.position, b.position);
    if a.mass == 0 || b.mass == 0 || d2 < EPS_D2 {
    } else {
        assert(1 <= a.mass && 1 <= b.mass);
        lemma_force_magnitude_bounds(a.mass, b.mass, d2);
        let f = force_magnitude(a.mass, b.mass, d2);
        let n = sqrt_floor(d2);
        let dx = a.position.x - b.position.x;
        let dy = a.position.y - b.position.y;
        let dz = a.position.z - b.position.z;
        assert(dx * dx <= d2 && dy * dy <= d2 && dz * dz <= d2) by (nonlinear_arith)
            requires d2 == dx * dx + dy * dy + dz * dz;
        assert(d2 >= 1);
        lemma_sqrt_floor(d2);
        lemma_sqrt_floor_pos(d2);
        lemma_component_le_norm(dx, d2);
        lemma_component_le_norm(dy, d2);
        lemma_component_le_norm(dz, d2);
        lemma_tdiv_product_bound(f, dx, n);
        lemma_tdiv_product_bound(f, dy, n);
        lemma_tdiv_product_bound(f, dz, n);
    }
}

/// Newton's third law, exactly: the force on `a` from `b` is the negation
/// of the force on `b` from `a`.
pub proof fn lemma_force_antisymmetry(a: BodyView, b: BodyView)
    requires
        grav_args_ok(a, b),
    ensures
        spec_gravitational_force(a, b) == spec_gravitational_force(b, a).neg(),
{
    let pa = a.position;
    let pb = b.position;
    assert((pa.x - pb.x) * (pa.x - pb.x) == (pb.x - pa.x) * (pb.x - pa.x)) by (nonlinear_arith);
    assert((pa.y - pb.y) * (pa.y - pb.y) == (pb.y - pa.y) * (pb.y - pa.y)) by (nonlinear_arith);
    assert((pa.z - pb.z) * (pa.z - pb.z) == (pb.z - pa.z) * (pb.z - pa.z)) by (nonlinear_arith);
    let d2ab = dist2(a.position, b.position);
    let d2ba = dist2(b.position, a.position);
    assert(d2ab == d2ba);
    if a.mass == 0 || b.mass == 0 || d2ab < EPS_D2 {
    } else {
        assert(G_NUM * a.mass * b.mass * SCALE == G_NUM * b.mass * a.mass * SCALE)
            by (nonlinear_arith);
        let f = force_magnitude(a.mass, b.mass, d2ab);
        let n = sqrt_floor(d2ab);
        assert(EPS_D2 <= d2ab);
        lemma_sqrt_floor_pos(d2ab);
        let dx = a.position.x - b.position.x;
        let dy = a.position.y - b.position.y;
        let dz = a.position.z - b.position.z;
        assert(f * (b.position.x - a.position.x) == -(f * dx)) by (nonlinear_arith)
            requires dx == a.position.x - b.position.x;
        assert(f * (b.position.y - a.position.y) == -(f * dy)) by (nonlinear_arith)
            requires dy == a.position.y - b.position.y;
        assert(f * (b.position.z - a.position.z) == -(f * dz)) by (nonlinear_arith)
            requires dz == a.position.z - b.position.z;
        lemma_tdiv_neg(f * dx, n);
        lemma_tdiv_neg(f * dy, n);
        lemma_tdiv_neg(f * dz, n);
    }
}

/// Zero-force degeneracy: an inert body, or a near-collision, yields the
/// zero vector.
pub proof fn lemma_force_zero_degenerate(a: BodyView, b: BodyView)
    requires
        a.mass == 0 || b.mass == 0 || dist2(a.position, b.position) < EPS_D2,
    ensures
        spec_gravitational_force(a, b) == V3::zero(),
{
}


/// A body exerts no force on itself: the distance is zero, far below the
/// near-collision threshold.
pub proof fn lemma_force_self_zero(b: BodyView)
    ensures
        spec_gravitational_force(b, b) == V3::zero(),
{
    assert(dist2(b.position, b.position) == 0) by (nonlinear_arith);
}

/// Floor of the square root, by binary search.
pub fn isqrt(n: u128) -> (r: u64)
    requires
        n < 0x1_0000_0000_0000_0000_0000_0000,
    ensures
        r as int == sqrt_floor(n as int),
        (r as int) * (r as int) <= n as int,
        (n as int) < (r as int + 1) * (r as int + 1),
        r < 0x1_0000_0000_0000,
{
    if n == 0 {
        proof {
            lemma_sqrt_unique(0, 0);
        }
        return 0;
    }
    let mut lo: u64 = 0;
    let mut hi: u64 = 0x1_0000_0000_0000;
    proof {
        assert((hi as int) * (hi as int) > n as int);
    }
    while lo + 1 < hi
        invariant
            lo < hi,
            hi <= 0x1_0000_0000_0000,
            (lo as int) * (lo as int) <= n as int,
            (n as int) < (hi as int) * (hi as int),
        decreases hi - lo,
    {
        let mid: u64 = lo + (hi - lo) / 2;
        assert(lo < mid < hi);
        proof {
            assert((mid as int) * (mid as int) <= 0x1_0000_0000_0000_0000_0000_0000int)
                by (nonlinear_arith)
                requires 0 <= (mid as int) <= 0x1_0000_0000_0000int;
        }
        if (mid as u128) * (mid as u128) <= n {
            lo = mid;
        } else {
            hi = mid;
        }
    }
    proof {
        assert(hi == lo + 1);
        lemma_sqrt_unique(n as int, lo as int);
    }
    lo
}

impl Vec3 {
    /// The zero vector.
    pub fn zero() -> (r: Vec3)
        ensures
            r@ == V3::zero(),
    {
        Vec3 { x: 0, y: 0, z: 0 }
    }

    /// Component-wise negation.
    pub fn neg(&self) -> (r: Vec3)
        requires
            self.x > i64::MIN,
            self.y > i64::MIN,
            self.z > i64::MIN,
        ensures
            r@ == self@.neg(),
    {
        Vec3 { x: -self.x, y: -self.y, z: -self.z }
    }

    /// Component-wise sum.
    pub fn plus(&self, o: &Vec3) -> (r: Vec3)
        requires
            i64::MIN <= self.x + o.x <= i64::MAX,
            i64::MIN <= self.y + o.y <= i64::MAX,
            i64::MIN <= self.z + o.z <= i64::MAX,
        ensures
            r@ == self@.plus(o@),
    {
        Vec3 { x: self.x + o.x, y: self.y + o.y, z: self.z + o.z }
    }
}

/// The force exerted on `a` by `b`; see `spec_gravitational_force` for the
/// exact value. Total for inert bodies and near-collisions (zero there).
pub fn gravitational_force(a: &Body, b: &Body) -> (r: Vec3)
    requires
        grav_args_ok(a@, b@),
    ensures
        r@ == spec_gravitational_force(a@, b@),
        v3_bounded(r@, FORCE_LIMIT as int),
{
    proof {
        lemma_force_bounded(a@, b@);
    }
    if a.mass == 0 || b.mass == 0 {
        return Vec3::zero();
    }
    let dx: i64 = a.position.x - b.position.x;
    let dy: i64 = a.position.y - b.position.y;
    let dz: i64 = a.position.z - b.position.z;
    proof {
        assert(0 <= (dx as int) * (dx as int) <= 4_000_000_000_000_000_000_000_000int)
            by (nonlinear_arith)
            requires -2_000_000_000_000int <= dx as int <= 2_000_000_000_000int;
        assert(0 <= (dy as int) * (dy as int) <= 4_000_000_000_000_000_000_000_000int)
            by (nonlinear_arith)
            requires -2_000_000_000_000int <= dy as int <= 2_000_000_000_000int;
        assert(0 <= (dz as int) * (dz as int) <= 4_000_000_000_000_000_000_000_000int)
            by (nonlinear_arith)
            requires -2_000_000_000_000int <= dz as int <= 2_000_000_000_000int;
    }
    let d2: i128 = (dx as i128) * (dx as i128) + (dy as i128) * (dy as i128) + (dz as i128) * (
    dz as i128);
    if d2 < EPS_D2 {
        return Vec3::zero();
    }
    let ghost sd2 = dist2(a@.position, b@.position);
    assert(d2 == sd2);
    let mprod: u128 = (a.mass as u128) * (b.mass as u128);
    assert(mprod <= MASS_PRODUCT_CAP as u128);
    let gm: u128 = (G_NUM as u128) * mprod;
    proof {
        assert((G_NUM as int) * (mprod as int)
            <= 66_743_000_000_000_000_000_000_000_000_000int) by (nonlinear_arith)
            requires 0 <= (mprod as int) <= 1_000_000_000_000_000_000_000_000_000int;
    }
    let num: u128 = gm * (SCALE as u128);
    proof {
        assert((gm as int) * (SCALE as int)
            <= 66_743_000_000_000_000_000_000_000_000_000_000_000int) by (nonlinear_arith)
            requires 0 <= (gm as int) <= 66_743_000_000_000_000_000_000_000_000_000int;
        assert(num as int == G_NUM * a@.mass * b@.mass * SCALE) by (nonlinear_arith)
            requires num as int == (G_NUM * (a@.mass * b@.mass)) * SCALE;
    }
    let q1: u128 = num / (G_DEN as u128);
    let f: u128 = q1 / (d2 as u128);
    proof {
        vstd::arithmetic::div_mod::lemma_div_denominator(num as int, G_DEN as int, d2 as int);
        assert(f as int == force_magnitude(a@.mass, b@.mass, sd2));
        lemma_force_magnitude_bounds(a@.mass, b@.mass, sd2);
    }
    let norm: u64 = isqrt(d2 as u128);
    proof {
        lemma_sqrt_floor(sd2);
        lemma_sqrt_floor_pos(sd2);
        assert((dx as int) * (dx as int) <= sd2 && (dy as int) * (dy as int) <= sd2
            && (dz as int) * (dz as int) <= sd2) by (nonlinear_arith)
            requires
                sd2 == (dx as int) * (dx as int) + (dy as int) * (dy as int) + (dz as int) * (
                dz as int),
        ;
        lemma_component_le_norm(dx as int, sd2);
        lemma_component_le_norm(dy as int, sd2);
        lemma_component_le_norm(dz as int, sd2);
    }
    let fx: i64 = force_component(f, dx, norm);
    let fy: i64 = force_component(f, dy, norm);
    let fz: i64 = force_component(f, dz, norm);
    Vec3 { x: fx, y: fy, z: fz }
}

/// One signed component of the force: `tdiv(f * d, norm)`.
fn force_component(f: u128, d: i64, norm: u64) -> (r: i64)
    requires
        f <= FORCE_LIMIT as u128,
        1 <= norm < 0x1_0000_0000_0000,
        -norm <= d <= norm,
    ensures
        r as int == tdiv(f as int * d as int, norm as int),
        -(f as int) <= r as int <= f as int,
{
    proof {
        lemma_tdiv_product_bound(f as int, d as int, norm as int);
    }
    if d >= 0 {
        proof {
            assert((f as int) * (d as int) <= 0x1_0000_0000_0000_0000_0000_0000_0000int)
                by (nonlinear_arith)
                requires 0 <= (f as int) <= FORCE_LIMIT as int, 0 <= (d as int) < 0x1_0000_0000_0000int;
        }
        let mag: u128 = f * (d as u128) / (norm as u128);
        mag as i64
    } else {
        let m: u64 = (-d) as u64;
        proof {
            assert((f as int) * (m as int) <= 0x1_0000_0000_0000_0000_0000_0000_0000int)
                by (nonlinear_arith)
                requires 0 <= (f as int) <= FORCE_LIMIT as int, 0 <= (m as int) < 0x1_0000_0000_0000int;
        }
        let mag: u128 = f * (m as u128) / (norm as u128);
        proof {
            assert(f as int * d as int == -(f as int * m as int)) by (nonlinear_arith)
                requires m as int == -(d as int);
            lemma_tdiv_neg(f as int * m as int, norm as int);
        }
        -(mag as i64)
    }
}

} // verus!
