//! The spatial index: a recursive octree over cubes with power-of-two side
//! lengths, with exact mass and mass-moment aggregation, and the
//! Barnes-Hut force-evaluation traversal.
//!
//! Cube membership is half-open along each axis: a point `p` lies in the
//! cube centered at `c` with side `s` when `c - s/2 < p <= c + s/2`
//! (stated over doubled differences so that odd side lengths need no
//! fractions). A side-1 cube therefore holds exactly its center point,
//! which is what stops the subdivision: two bodies at distinct fixed-point
//! positions always separate before the side length reaches 1.
//!
//! Naming of the eight octants: `t`/`b` for top (+z) / bottom, `n`/`s` for
//! north (+y) / south, `e`/`w` for east (+x) / west.

use vstd::multiset::Multiset;
use vstd::prelude::*;

use crate::physics::Body;
use crate::physics::BodyView;
use crate::physics::COORD_LIMIT;
use crate::physics::FORCE_LIMIT;
use crate::physics::MASS_PRODUCT_CAP;
use crate::physics::SCALE;
use crate::physics::MASS_LIMIT;
use crate::physics::TOTAL_MASS_CAP;
use crate::physics::V3;
use crate::physics::Vec3;
use crate::physics::v3_bounded;
use crate::physics::valid_body;

verus! {

broadcast use
    vstd::seq_lib::group_to_multiset_ensures,
    vstd::multiset::group_multiset_axioms;

/// Largest admissible cube side (a power of two comfortably above the
/// whole coordinate range).
pub const SIDE_MAX: i64 = 4_398_046_511_104;

/// Every cube center of a well-formed tree with side `s` lies within
/// `CENTER_BOUND - s` in each coordinate.
pub const CENTER_BOUND: i64 = COORD_LIMIT + 2 * SIDE_MAX;

/// Largest number of bodies a tree may hold.
pub const POP_CAP: usize = 10_000;

/// One of the eight sub-cubes of a cube, split by its three center planes.
#[derive(Clone, Copy, Debug, PartialEq, Eq, Structural)]
pub enum Corner {
    Tnw,
    Tne,
    Tsw,
    Tse,
    Bnw,
    Bne,
    Bsw,
    Bse,
}

/// Does the corner lie in the east (+x) half?
pub open spec fn corner_east(k: Corner) -> bool {
    match k {
        Corner::Tne | Corner::Tse | Corner::Bne | Corner::Bse => true,
        _ => false,
    }
}

/// Does the corner lie in the north (+y) half?
pub open spec fn corner_north(k: Corner) -> bool {
    match k {
        Corner::Tnw | Corner::Tne | Corner::Bnw | Corner::Bne => true,
        _ => false,
    }
}

/// Does the corner lie in the top (+z) half?
pub open spec fn corner_top(k: Corner) -> bool {
    match k {
        Corner::Tnw | Corner::Tne | Corner::Tsw | Corner::Tse => true,
        _ => false,
    }
}

/// The corner with the given east/north/top flags.
pub open spec fn corner_from_flags(e: bool, n: bool, t: bool) -> Corner {
    if t {
        if n {
            if e {
                Corner::Tne
            } else {
                Corner::Tnw
            }
        } else {
            if e {
                Corner::Tse
            } else {
                Corner::Tsw
            }
        }
    } else {
        if n {
            if e {
                Corner::Bne
            } else {
                Corner::Bnw
            }
        } else {
            if e {
                Corner::Bse
            } else {
                Corner::Bsw
            }
        }
    }
}

/// Half-open membership along one axis: `c - s/2 < p <= c + s/2`, stated
/// over doubled differences.
pub open spec fn in_half_open(c: int, s: int, p: int) -> bool {
    -s < 2 * (p - c) && 2 * (p - c) <= s
}

/// Membership in the cube centered at `center` with side `side`.
pub open spec fn in_cube(center: V3, side: int, p: V3) -> bool {
    &&& in_half_open(center.x, side, p.x)
    &&& in_half_open(center.y, side, p.y)
    &&& in_half_open(center.z, side, p.z)
}

/// `s` is a power of two.
pub open spec fn is_pow2(s: int) -> bool
    decreases s,
{
    if s < 1 {
        false
    } else if s == 1 {
        true
    } else {
        s % 2 == 0 && is_pow2(s / 2)
    }
}

/// A well-formed cube: power-of-two side, bounded, with a center that
/// leaves room for all descendants' centers.
pub open spec fn box_ok(center: V3, side: int) -> bool {
    &&& is_pow2(side)
    &&& 1 <= side <= SIDE_MAX
    &&& v3_bounded(center, CENTER_BOUND - side)
}

/// The octant of `p` relative to `center`: the `>` comparison against the
/// center decides each axis, so points exactly on a split plane always go
/// to the lower (west/south/bottom) half.
pub open spec fn corner_of(center: V3, p: V3) -> Corner {
    corner_from_flags(p.x > center.x, p.y > center.y, p.z > center.z)
}

/// The center of a child cube along one axis. For sides divisible by four
/// both offsets are `s/4`; for side 2 the upper child is centered one unit
/// up and the lower child on the parent center, which matches the two
/// single-point halves of a side-2 interval.
pub open spec fn axis_child_center(c: int, s: int, up: bool) -> int {
    if up {
        c + (s / 2 - s / 4)
    } else {
        c - s / 4
    }
}

/// The center of the child cube in corner `k`.
pub open spec fn child_center(center: V3, s: int, k: Corner) -> V3 {
    V3 {
        x: axis_child_center(center.x, s, corner_east(k)),
        y: axis_child_center(center.y, s, corner_north(k)),
        z: axis_child_center(center.z, s, corner_top(k)),
    }
}

/// Arithmetic facts about halving a power of two.
pub proof fn lemma_pow2_split(s: int)
    requires
        is_pow2(s),
        s >= 2,
    ensures
        s % 2 == 0,
        is_pow2(s / 2),
        1 <= s / 2,
        s == 2 * (s / 2),
        s == 2 ==> s / 2 == 1 && s / 4 == 0,
        s >= 4 ==> s % 4 == 0 && 1 <= s / 4 && s / 2 == 2 * (s / 4) && s == 4 * (s / 4),
{
    vstd::arithmetic::div_mod::lemma_fundamental_div_mod(s, 2);
    if s >= 4 {
        reveal_with_fuel(is_pow2, 3);
        assert(s / 2 >= 2);
        assert((s / 2) % 2 == 0);
        vstd::arithmetic::div_mod::lemma_fundamental_div_mod(s / 2, 2);
        vstd::arithmetic::div_mod::lemma_div_denominator(s, 2, 2);
        vstd::arithmetic::div_mod::lemma_fundamental_div_mod(s, 4);
    }
}

/// Descending into the octant of `p` keeps `p` inside; every other octant
/// excludes it.
pub proof fn lemma_axis_descend(c: int, s: int, p: int)
    requires
        is_pow2(s),
        s >= 2,
        in_half_open(c, s, p),
    ensures
        p > c ==> in_half_open(axis_child_center(c, s, true), s / 2, p),
        p <= c ==> in_half_open(axis_child_center(c, s, false), s / 2, p),
        p > c ==> !in_half_open(axis_child_center(c, s, false), s / 2, p),
        p <= c ==> !in_half_open(axis_child_center(c, s, true), s / 2, p),
{
    lemma_pow2_split(s);
}

/// A point inside a child cube is inside the parent cube.
pub proof fn lemma_axis_nest(c: int, s: int, p: int, up: bool)
    requires
        is_pow2(s),
        s >= 2,
        in_half_open(axis_child_center(c, s, up), s / 2, p),
    ensures
        in_half_open(c, s, p),
{
    lemma_pow2_split(s);
}

/// A side-1 cube holds exactly its center.
pub proof fn lemma_unit_cube(center: V3, p: V3)
    requires
        in_cube(center, 1, p),
    ensures
        p == center,
{
}

/// The corner flags determine the corner.
pub proof fn lemma_corner_from_flags(k: Corner)
    ensures
        k == corner_from_flags(corner_east(k), corner_north(k), corner_top(k)),
{
}

/// Cube-level version of `lemma_axis_descend`: `p` lies in exactly the
/// child cube of its own octant.
pub proof fn lemma_cube_descend(center: V3, s: int, p: V3)
    requires
        is_pow2(s),
        s >= 2,
        in_cube(center, s, p),
    ensures
        in_cube(child_center(center, s, corner_of(center, p)), s / 2, p),
        forall|k: Corner| k != corner_of(center, p)
            ==> !in_cube(child_center(center, s, k), s / 2, p),
{
    lemma_axis_descend(center.x, s, p.x);
    lemma_axis_descend(center.y, s, p.y);
    lemma_axis_descend(center.z, s, p.z);
    assert forall|k: Corner| k != corner_of(center, p) implies !in_cube(
        child_center(center, s, k),
        s / 2,
        p,
    ) by {
        lemma_corner_from_flags(k);
    }
}

/// Cube-level version of `lemma_axis_nest`.
pub proof fn lemma_cube_nest(center: V3, s: int, p: V3, k: Corner)
    requires
        is_pow2(s),
        s >= 2,
        in_cube(child_center(center, s, k), s / 2, p),
    ensures
        in_cube(center, s, p),
{
    lemma_axis_nest(center.x, s, p.x, corner_east(k));
    lemma_axis_nest(center.y, s, p.y, corner_north(k));
    lemma_axis_nest(center.z, s, p.z, corner_top(k));
}

/// The child cube of a well-formed cube is well-formed.
pub proof fn lemma_child_box_ok(center: V3, s: int, k: Corner)
    requires
        box_ok(center, s),
        s >= 2,
    ensures
        box_ok(child_center(center, s, k), s / 2),
{
    lemma_pow2_split(s);
}

/// Exact mass-weighted position sum, held in `i128` per component.
#[derive(Clone, Copy, Debug, PartialEq, Eq, Structural)]
pub struct MassMoment {
    pub x: i128,
    pub y: i128,
    pub z: i128,
}

impl View for MassMoment {
    type V = V3;

    open spec fn view(&self) -> V3 {
        V3 { x: self.x as int, y: self.y as int, z: self.z as int }
    }
}

/// The contribution of one body to the mass moment.
pub open spec fn body_moment(b: Body) -> V3 {
    V3 {
        x: b.mass * b.position.x,
        y: b.mass * b.position.y,
        z: b.mass * b.position.z,
    }
}

/// Sum of the masses of a sequence of bodies.
pub open spec fn mass_sum(s: Seq<Body>) -> int
    decreases s.len(),
{
    if s.len() == 0 {
        0
    } else {
        mass_sum(s.drop_last()) + s.last().mass
    }
}

/// Sum of the mass moments of a sequence of bodies.
pub open spec fn moment_sum(s: Seq<Body>) -> V3
    decreases s.len(),
{
    if s.len() == 0 {
        V3::zero()
    } else {
        moment_sum(s.drop_last()).plus(body_moment(s.last()))
    }
}

/// Every body of the sequence is a valid engine state.
pub open spec fn all_valid(s: Seq<Body>) -> bool {
    forall|i: int| 0 <= i < s.len() ==> valid_body(#[trigger] s[i]@)
}

/// No body of the sequence sits at position `p`.
pub open spec fn excludes_position(s: Seq<Body>, p: V3) -> bool {
    forall|i: int| 0 <= i < s.len() ==> (#[trigger] s[i]).position@ != p
}

/// `mass_sum` distributes over concatenation.
pub proof fn lemma_mass_sum_concat(a: Seq<Body>, b: Seq<Body>)
    ensures
        mass_sum(a + b) == mass_sum(a) + mass_sum(b),
    decreases b.len(),
{
    if b.len() == 0 {
        assert(a + b =~= a);
    } else {
        lemma_mass_sum_concat(a, b.drop_last());
        assert((a + b).drop_last() =~= a + b.drop_last());
        assert((a + b).last() == b.last());
    }
}

/// `moment_sum` distributes over concatenation.
pub proof fn lemma_moment_sum_concat(a: Seq<Body>, b: Seq<Body>)
    ensures
        moment_sum(a + b) == moment_sum(a).plus(moment_sum(b)),
    decreases b.len(),
{
    if b.len() == 0 {
        assert(a + b =~= a);
    } else {
        lemma_moment_sum_concat(a, b.drop_last());
        assert((a + b).drop_last() =~= a + b.drop_last());
        assert((a + b).last() == b.last());
    }
}

/// Masses of valid bodies are nonnegative, so their sum is.
pub proof fn lemma_mass_sum_nonneg(s: Seq<Body>)
    requires
        all_valid(s),
    ensures
        mass_sum(s) >= 0,
    decreases s.len(),
{
    if s.len() > 0 {
        assert(all_valid(s.drop_last())) by {
            assert(forall|i: int| 0 <= i < s.len() - 1 ==> s.drop_last()[i] == s[i]);
        }
        lemma_mass_sum_nonneg(s.drop_last());
        assert(valid_body(s[s.len() - 1]@));
        assert(s.last() == s[s.len() - 1]);
    }
}

/// The moment of a sequence of valid bodies is bounded by its length times
/// the largest single-body moment.
pub proof fn lemma_moment_sum_bound(s: Seq<Body>)
    requires
        all_valid(s),
    ensures
        v3_bounded(moment_sum(s), s.len() * (MASS_LIMIT as int) * (COORD_LIMIT as int)),
    decreases s.len(),
{
    let k = (MASS_LIMIT as int) * (COORD_LIMIT as int);
    assert(k == 1_000_000_000_000_000_000_000_000int);
    if s.len() == 0 {
    } else {
        assert(all_valid(s.drop_last())) by {
            assert(forall|i: int| 0 <= i < s.len() - 1 ==> s.drop_last()[i] == s[i]);
        }
        lemma_moment_sum_bound(s.drop_last());
        let b = s.last();
        assert(valid_body(b@));
        assert(v3_bounded(body_moment(b), k)) by (nonlinear_arith)
            requires
                0 <= (b.mass as int) <= MASS_LIMIT as int,
                v3_bounded(b.position@, COORD_LIMIT as int),
                k == (MASS_LIMIT as int) * (COORD_LIMIT as int),
        ;
        assert((s.len() - 1) * k + k == s.len() * k) by (nonlinear_arith);
    }
}

/// The spatial index: either an internal node holding eight optional
/// sub-cubes together with exact aggregates of everything below it, or a
/// leaf holding at most one body.
///
/// Instead of a stored center of mass, a node keeps the exact mass moment
/// (the sum of `mass * position` over its subtree); the center of mass is
/// the quotient `mass_moment / total_mass`, computed on demand.
pub enum Octree_member {
    Octree_node {
        geometric_center: Vec3,
        mass_moment: MassMoment,
        total_mass: i64,
        side_length: i64,
        population: usize,
        tnw: Option<Box<Octree_member>>,
        tne: Option<Box<Octree_member>>,
        tsw: Option<Box<Octree_member>>,
        tse: Option<Box<Octree_member>>,
        bnw: Option<Box<Octree_member>>,
        bne: Option<Box<Octree_member>>,
        bsw: Option<Box<Octree_member>>,
        bse: Option<Box<Octree_member>>,
    },
    Octree_leaf {
        body: Option<Body>,
        geometric_center: Vec3,
        side_length: i64,
    },
}

pub use Octree_member::Octree_node;
pub use Octree_member::Octree_leaf;

/// The bodies held below an optional child, in tree order.
pub open spec fn opt_bodies(c: Option<Box<Octree_member>>) -> Seq<Body>
    decreases c,
{
    match c {
        Option::None => Seq::empty(),
        Option::Some(t) => t.bodies(),
    }
}

/// A present child is a well-formed tree over the octant cube `k` of the
/// parent, and holds at least one body.
pub open spec fn child_ok(c: Option<Box<Octree_member>>, center: V3, side: int, k: Corner) -> bool
    decreases c,
{
    match c {
        Option::None => true,
        Option::Some(t) => {
            &&& t.wf()
            &&& t.spec_side() == side / 2
            &&& t.spec_center() == child_center(center, side, k)
            &&& t.bodies().len() >= 1
        },
    }
}

impl Octree_member {
    /// The geometric center of the node's cube.
    pub open spec fn spec_center(self) -> V3 {
        match self {
            Octree_member::Octree_node { geometric_center, .. } => geometric_center@,
            Octree_member::Octree_leaf { geometric_center, .. } => geometric_center@,
        }
    }

    /// The side length of the node's cube.
    pub open spec fn spec_side(self) -> int {
        match self {
            Octree_member::Octree_node { side_length, .. } => side_length as int,
            Octree_member::Octree_leaf { side_length, .. } => side_length as int,
        }
    }

    /// All bodies held in the subtree, in tree order (children concatenated
    /// in the fixed octant order tnw, tne, tsw, tse, bnw, bne, bsw, bse).
    pub open spec fn bodies(self) -> Seq<Body>
        decreases self,
    {
        match self {
            Octree_member::Octree_leaf { body, .. } => match body {
                Option::None => Seq::empty(),
                Option::Some(b) => seq![b],
            },
            Octree_member::Octree_node { tnw, tne, tsw, tse, bnw, bne, bsw, bse, .. } => opt_bodies(
                tnw,
            ) + opt_bodies(tne) + opt_bodies(tsw) + opt_bodies(tse) + opt_bodies(bnw) + opt_bodies(
                bne,
            ) + opt_bodies(bsw) + opt_bodies(bse),
        }
    }

    /// Used as the second component of termination measures: an occupied
    /// leaf converts to an internal node of the same side before the two
    /// bodies descend.
    pub open spec fn rank(self) -> int {
        match self {
            Octree_member::Octree_leaf { body: Option::Some(_), .. } => 5,
            Octree_member::Octree_node { .. } => 4,
            Octree_member::Octree_leaf { body: Option::None, .. } => 0,
        }
    }

    /// Well-formedness: the cube is sound, every child covers exactly its
    /// octant, and the stored aggregates equal the exact sums over the
    /// subtree's bodies.
    pub open spec fn wf(self) -> bool
        decreases self,
    {
        match self {
            Octree_member::Octree_leaf { body, geometric_center, side_length } => {
                &&& box_ok(geometric_center@, side_length as int)
                &&& match body {
                    Option::None => true,
                    Option::Some(b) => valid_body(b@) && in_cube(
                        geometric_center@,
                        side_length as int,
                        b@.position,
                    ),
                }
            },
            Octree_member::Octree_node {
                geometric_center,
                mass_moment,
                total_mass,
                side_length,
                population,
                tnw,
                tne,
                tsw,
                tse,
                bnw,
                bne,
                bsw,
                bse,
            } => {
                &&& box_ok(geometric_center@, side_length as int)
                &&& side_length >= 2
                &&& child_ok(tnw, geometric_center@, side_length as int, Corner::Tnw)
                &&& child_ok(tne, geometric_center@, side_length as int, Corner::Tne)
                &&& child_ok(tsw, geometric_center@, side_length as int, Corner::Tsw)
                &&& child_ok(tse, geometric_center@, side_length as int, Corner::Tse)
                &&& child_ok(bnw, geometric_center@, side_length as int, Corner::Bnw)
                &&& child_ok(bne, geometric_center@, side_length as int, Corner::Bne)
                &&& child_ok(bsw, geometric_center@, side_length as int, Corner::Bsw)
                &&& child_ok(bse, geometric_center@, side_length as int, Corner::Bse)
                &&& population as int == self.bodies().len()
                &&& population <= POP_CAP
                &&& total_mass as int == mass_sum(self.bodies())
                &&& 0 <= total_mass <= TOTAL_MASS_CAP
                &&& mass_moment@ == moment_sum(self.bodies())
            },
        }
    }
}

/// Exclusion of a position distributes over concatenation.
pub proof fn lemma_excludes_concat(a: Seq<Body>, b: Seq<Body>, p: V3)
    ensures
        excludes_position(a + b, p) <==> (excludes_position(a, p) && excludes_position(b, p)),
{
    if excludes_position(a + b, p) {
        assert forall|i: int| 0 <= i < a.len() implies (#[trigger] a[i]).position@ != p by {
            assert(a[i] == (a + b)[i]);
        }
        assert forall|i: int| 0 <= i < b.len() implies (#[trigger] b[i]).position@ != p by {
            assert(b[i] == (a + b)[a.len() + i]);
        }
    }
    if excludes_position(a, p) && excludes_position(b, p) {
        assert forall|i: int| 0 <= i < (a + b).len() implies (#[trigger] (a + b)[i]).position@
            != p by {
            if i < a.len() {
                assert((a + b)[i] == a[i]);
            } else {
                assert((a + b)[i] == b[i - a.len()]);
            }
        }
    }
}

/// The sums over the eight-way concatenation of a node's children.
pub proof fn lemma_sums8(
    s1: Seq<Body>,
    s2: Seq<Body>,
    s3: Seq<Body>,
    s4: Seq<Body>,
    s5: Seq<Body>,
    s6: Seq<Body>,
    s7: Seq<Body>,
    s8: Seq<Body>,
)
    ensures
        mass_sum(s1 + s2 + s3 + s4 + s5 + s6 + s7 + s8) == mass_sum(s1) + mass_sum(s2) + mass_sum(
            s3,
        ) + mass_sum(s4) + mass_sum(s5) + mass_sum(s6) + mass_sum(s7) + mass_sum(s8),
        moment_sum(s1 + s2 + s3 + s4 + s5 + s6 + s7 + s8).x == moment_sum(s1).x + moment_sum(
            s2,
        ).x + moment_sum(s3).x + moment_sum(s4).x + moment_sum(s5).x + moment_sum(s6).x
            + moment_sum(s7).x + moment_sum(s8).x,
        moment_sum(s1 + s2 + s3 + s4 + s5 + s6 + s7 + s8).y == moment_sum(s1).y + moment_sum(
            s2,
        ).y + moment_sum(s3).y + moment_sum(s4).y + moment_sum(s5).y + moment_sum(s6).y
            + moment_sum(s7).y + moment_sum(s8).y,
        moment_sum(s1 + s2 + s3 + s4 + s5 + s6 + s7 + s8).z == moment_sum(s1).z + moment_sum(
            s2,
        ).z + moment_sum(s3).z + moment_sum(s4).z + moment_sum(s5).z + moment_sum(s6).z
            + moment_sum(s7).z + moment_sum(s8).z,
        (s1 + s2 + s3 + s4 + s5 + s6 + s7 + s8).to_multiset() == s1.to_multiset().add(
            s2.to_multiset(),
        ).add(s3.to_multiset()).add(s4.to_multiset()).add(s5.to_multiset()).add(
            s6.to_multiset(),
        ).add(s7.to_multiset()).add(s8.to_multiset()),
{
    lemma_mass_sum_concat(s1, s2);
    lemma_mass_sum_concat(s1 + s2, s3);
    lemma_mass_sum_concat(s1 + s2 + s3, s4);
    lemma_mass_sum_concat(s1 + s2 + s3 + s4, s5);
    lemma_mass_sum_concat(s1 + s2 + s3 + s4 + s5, s6);
    lemma_mass_sum_concat(s1 + s2 + s3 + s4 + s5 + s6, s7);
    lemma_mass_sum_concat(s1 + s2 + s3 + s4 + s5 + s6 + s7, s8);
    lemma_moment_sum_concat(s1, s2);
    lemma_moment_sum_concat(s1 + s2, s3);
    lemma_moment_sum_concat(s1 + s2 + s3, s4);
    lemma_moment_sum_concat(s1 + s2 + s3 + s4, s5);
    lemma_moment_sum_concat(s1 + s2 + s3 + s4 + s5, s6);
    lemma_moment_sum_concat(s1 + s2 + s3 + s4 + s5 + s6, s7);
    lemma_moment_sum_concat(s1 + s2 + s3 + s4 + s5 + s6 + s7, s8);
    vstd::seq_lib::lemma_multiset_commutative(s1, s2);
    vstd::seq_lib::lemma_multiset_commutative(s1 + s2, s3);
    vstd::seq_lib::lemma_multiset_commutative(s1 + s2 + s3, s4);
    vstd::seq_lib::lemma_multiset_commutative(s1 + s2 + s3 + s4, s5);
    vstd::seq_lib::lemma_multiset_commutative(s1 + s2 + s3 + s4 + s5, s6);
    vstd::seq_lib::lemma_multiset_commutative(s1 + s2 + s3 + s4 + s5 + s6, s7);
    vstd::seq_lib::lemma_multiset_commutative(s1 + s2 + s3 + s4 + s5 + s6 + s7, s8);
}

/// Every body below a well-formed tree is valid and lies in the tree's cube.
pub proof fn lemma_bodies_in_cube(t: Octree_member)
    requires
        t.wf(),
    ensures
        all_valid(t.bodies()),
        forall|i: int| 0 <= i < t.bodies().len() ==> in_cube(
            t.spec_center(),
            t.spec_side(),
            (#[trigger] t.bodies()[i])@.position,
        ),
    decreases t, 1int,
{
    match t {
        Octree_member::Octree_leaf { .. } => {},
        Octree_member::Octree_node {
            geometric_center,
            side_length,
            tnw,
            tne,
            tsw,
            tse,
            bnw,
            bne,
            bsw,
            bse,
            ..
        } => {
            let c = geometric_center@;
            let s = side_length as int;
            lemma_child_in_cube(tnw, c, s, Corner::Tnw);
            lemma_child_in_cube(tne, c, s, Corner::Tne);
            lemma_child_in_cube(tsw, c, s, Corner::Tsw);
            lemma_child_in_cube(tse, c, s, Corner::Tse);
            lemma_child_in_cube(bnw, c, s, Corner::Bnw);
            lemma_child_in_cube(bne, c, s, Corner::Bne);
            lemma_child_in_cube(bsw, c, s, Corner::Bsw);
            lemma_child_in_cube(bse, c, s, Corner::Bse);
        },
    }
}

/// Every body below a well-formed child is valid and lies in the parent's
/// cube.
pub proof fn lemma_child_in_cube(c: Option<Box<Octree_member>>, center: V3, side: int, k: Corner)
    requires
        child_ok(c, center, side, k),
        is_pow2(side),
        side >= 2,
    ensures
        all_valid(opt_bodies(c)),
        forall|i: int| 0 <= i < opt_bodies(c).len() ==> in_cube(
            center,
            side,
            (#[trigger] opt_bodies(c)[i])@.position,
        ),
    decreases c, 2int,
{
    match c {
        Option::None => {},
        Option::Some(t) => {
            lemma_bodies_in_cube(*t);
            assert forall|i: int| 0 <= i < opt_bodies(c).len() implies in_cube(
                center,
                side,
                (#[trigger] opt_bodies(c)[i])@.position,
            ) by {
                lemma_cube_nest(center, side, opt_bodies(c)[i]@.position, k);
            }
        },
    }
}

impl Corner {
    /// Does the corner lie in the east (+x) half?
    pub fn east(&self) -> (r: bool)
        ensures
            r == corner_east(*self),
    {
        match self {
            Corner::Tne | Corner::Tse | Corner::Bne | Corner::Bse => true,
            _ => false,
        }
    }

    /// Does the corner lie in the north (+y) half?
    pub fn north(&self) -> (r: bool)
        ensures
            r == corner_north(*self),
    {
        match self {
            Corner::Tnw | Corner::Tne | Corner::Bnw | Corner::Bne => true,
            _ => false,
        }
    }

    /// Does the corner lie in the top (+z) half?
    pub fn top(&self) -> (r: bool)
        ensures
            r == corner_top(*self),
    {
        match self {
            Corner::Tnw | Corner::Tne | Corner::Tsw | Corner::Tse => true,
            _ => false,
        }
    }
}

/// The octant of `p` relative to `center`, by three half-open comparisons.
pub fn corner_lookup(center: &Vec3, p: &Vec3) -> (r: Corner)
    ensures
        r == corner_of(center@, p@),
{
    let e: bool = p.x > center.x;
    let n: bool = p.y > center.y;
    let t: bool = p.z > center.z;
    if t {
        if n {
            if e {
                Corner::Tne
            } else {
                Corner::Tnw
            }
        } else {
            if e {
                Corner::Tse
            } else {
                Corner::Tsw
            }
        }
    } else {
        if n {
            if e {
                Corner::Bne
            } else {
                Corner::Bnw
            }
        } else {
            if e {
                Corner::Bse
            } else {
                Corner::Bsw
            }
        }
    }
}

/// The geometric center of the child cube of `ogc` in corner `move_corner`.
pub fn new_geometric_center(ogc: &Vec3, side_length: i64, move_corner: &Corner) -> (r: Vec3)
    requires
        box_ok(ogc@, side_length as int),
        side_length >= 2,
    ensures
        r@ == child_center(ogc@, side_length as int, *move_corner),
{
    proof {
        lemma_pow2_split(side_length as int);
    }
    let s: u64 = side_length as u64;
    let up_off: i64 = (s / 2 - s / 4) as i64;
    let down_off: i64 = (s / 4) as i64;
    proof {
        vstd::arithmetic::div_mod::lemma_div_is_ordered_by_denominator(s as int, 2, 4);
    }
    let x: i64 = if move_corner.east() {
        ogc.x + up_off
    } else {
        ogc.x - down_off
    };
    let y: i64 = if move_corner.north() {
        ogc.y + up_off
    } else {
        ogc.y - down_off
    };
    let z: i64 = if move_corner.top() {
        ogc.z + up_off
    } else {
        ogc.z - down_off
    };
    Vec3 { x, y, z }
}

/// Inserts `b` into the child slot for corner `k` of a node centered at
/// `center` with side `side`: a missing child becomes a leaf holding `b`,
/// a present child takes `b` recursively.
fn insert_child(c: Option<Box<Octree_member>>, center: &Vec3, side: i64, k: Corner, b: &Body) -> (r:
    Box<Octree_member>)
    requires
        box_ok(center@, side as int),
        side >= 2,
        child_ok(c, center@, side as int, k),
        valid_body(b@),
        in_cube(center@, side as int, b@.position),
        corner_of(center@, b@.position) == k,
        excludes_position(opt_bodies(c), b@.position),
        opt_bodies(c).len() < POP_CAP,
        mass_sum(opt_bodies(c)) >= 0,
        mass_sum(opt_bodies(c)) + b@.mass <= TOTAL_MASS_CAP,
    ensures
        child_ok(Some(r), center@, side as int, k),
        *r == spec_child_after_insert(c, *center, side, k, *b),
        opt_bodies(Some(r)).len() == opt_bodies(c).len() + 1,
        mass_sum(opt_bodies(Some(r))) == mass_sum(opt_bodies(c)) + b@.mass,
        moment_sum(opt_bodies(Some(r))) == moment_sum(opt_bodies(c)).plus(body_moment(*b)),
        opt_bodies(Some(r)).to_multiset() == opt_bodies(c).to_multiset().insert(*b),
    decreases side as int, 1int,
{
    let ghost c0 = c;
    proof {
        lemma_cube_descend(center@, side as int, b@.position);
        lemma_child_box_ok(center@, side as int, k);
    }
    match c {
        Option::None => {
            let gc = new_geometric_center(center, side, &k);
            let r = Box::new(
                Octree_member::Octree_leaf {
                    body: Some(*b),
                    geometric_center: gc,
                    side_length: side / 2,
                },
            );
            proof {
                let rb = opt_bodies(Some(r));
                assert(rb =~= Seq::<Body>::empty().push(*b));
                assert(rb.drop_last() =~= Seq::<Body>::empty());
                assert(opt_bodies(c0) =~= Seq::<Body>::empty());
                assert(moment_sum(rb) == moment_sum(opt_bodies(c0)).plus(body_moment(*b)));
                let cc = child_center(center@, side as int, k);
                assert(gc.x == cc.x as i64 && gc.y == cc.y as i64 && gc.z == cc.z as i64);
                assert(*r == spec_child_after_insert(c0, *center, side, k, *b));
            }
            r
        },
        Option::Some(t) => {
            let inner: Octree_member = *t;
            proof {
                assert(0 <= inner.spec_side() && inner.spec_side() < side as int);
            }
            let r = Box::new(inner.add(b));
            proof {
                assert(*r == spec_child_after_insert(c0, *center, side, k, *b));
            }
            r
        },
    }
}

/// Validity distributes over concatenation.
pub proof fn lemma_all_valid_concat(a: Seq<Body>, b: Seq<Body>)
    ensures
        all_valid(a + b) <==> (all_valid(a) && all_valid(b)),
{
    if all_valid(a + b) {
        assert forall|i: int| 0 <= i < a.len() implies valid_body((#[trigger] a[i])@) by {
            assert(a[i] == (a + b)[i]);
        }
        assert forall|i: int| 0 <= i < b.len() implies valid_body((#[trigger] b[i])@) by {
            assert(b[i] == (a + b)[a.len() + i]);
        }
    }
    if all_valid(a) && all_valid(b) {
        assert forall|i: int| 0 <= i < (a + b).len() implies valid_body(
            (#[trigger] (a + b)[i])@,
        ) by {
            if i < a.len() {
                assert((a + b)[i] == a[i]);
            } else {
                assert((a + b)[i] == b[i - a.len()]);
            }
        }
    }
}

/// Facts about the middle part `m` of a three-way split of a node's bodies.
pub proof fn lemma_part_facts(a: Seq<Body>, m: Seq<Body>, z: Seq<Body>, p: V3)
    requires
        all_valid(a + m + z),
        excludes_position(a + m + z, p),
    ensures
        all_valid(m),
        excludes_position(m, p),
        mass_sum(a + m + z) == mass_sum(a) + mass_sum(m) + mass_sum(z),
        mass_sum(a) >= 0,
        mass_sum(m) >= 0,
        mass_sum(z) >= 0,
        m.len() <= (a + m + z).len(),
{
    lemma_all_valid_concat(a + m, z);
    lemma_all_valid_concat(a, m);
    lemma_excludes_concat(a + m, z, p);
    lemma_excludes_concat(a, m, p);
    lemma_mass_sum_concat(a, m);
    lemma_mass_sum_concat(a + m, z);
    lemma_mass_sum_nonneg(a);
    lemma_mass_sum_nonneg(m);
    lemma_mass_sum_nonneg(z);
}

/// Replacing the middle part of a three-way split by a version holding one
/// more body changes each aggregate by exactly that body's contribution.
pub proof fn lemma_replace_part(a: Seq<Body>, m: Seq<Body>, z: Seq<Body>, nm: Seq<Body>, b: Body)
    requires
        nm.len() == m.len() + 1,
        mass_sum(nm) == mass_sum(m) + b.mass,
        moment_sum(nm) == moment_sum(m).plus(body_moment(b)),
        nm.to_multiset() == m.to_multiset().insert(b),
    ensures
        (a + nm + z).len() == (a + m + z).len() + 1,
        mass_sum(a + nm + z) == mass_sum(a + m + z) + b.mass,
        moment_sum(a + nm + z) == moment_sum(a + m + z).plus(body_moment(b)),
        (a + nm + z).to_multiset() == (a + m + z).to_multiset().insert(b),
{
    lemma_mass_sum_concat(a, m);
    lemma_mass_sum_concat(a + m, z);
    lemma_mass_sum_concat(a, nm);
    lemma_mass_sum_concat(a + nm, z);
    lemma_moment_sum_concat(a, m);
    lemma_moment_sum_concat(a + m, z);
    lemma_moment_sum_concat(a, nm);
    lemma_moment_sum_concat(a + nm, z);
    vstd::seq_lib::lemma_multiset_commutative(a, m);
    vstd::seq_lib::lemma_multiset_commutative(a + m, z);
    vstd::seq_lib::lemma_multiset_commutative(a, nm);
    vstd::seq_lib::lemma_multiset_commutative(a + nm, z);
    assert((a + nm + z).to_multiset() =~= (a + m + z).to_multiset().insert(b));
}

/// The whole node value built from its fields (used to state the contracts
/// of the per-octant insertion helpers).
pub open spec fn node_of(
    geometric_center: Vec3,
    mass_moment: MassMoment,
    total_mass: i64,
    side_length: i64,
    population: usize,
    tnw: Option<Box<Octree_member>>,
    tne: Option<Box<Octree_member>>,
    tsw: Option<Box<Octree_member>>,
    tse: Option<Box<Octree_member>>,
    bnw: Option<Box<Octree_member>>,
    bne: Option<Box<Octree_member>>,
    bsw: Option<Box<Octree_member>>,
    bse: Option<Box<Octree_member>>,
) -> Octree_member {
    Octree_member::Octree_node {
        geometric_center,
        mass_moment,
        total_mass,
        side_length,
        population,
        tnw,
        tne,
        tsw,
        tse,
        bnw,
        bne,
        bsw,
        bse,
    }
}

/// What an insertion demands: a well-formed tree, a valid body inside the
/// tree's cube at a position the tree does not hold yet, and room for one
/// more body under the population and total-mass caps.
pub open spec fn add_pre(t: Octree_member, b: Body) -> bool {
    &&& t.wf()
    &&& valid_body(b@)
    &&& in_cube(t.spec_center(), t.spec_side(), b@.position)
    &&& excludes_position(t.bodies(), b@.position)
    &&& t.bodies().len() < POP_CAP
    &&& mass_sum(t.bodies()) + b@.mass <= TOTAL_MASS_CAP
}

/// What an insertion yields: a well-formed tree over the same cube whose
/// bodies are exactly the old bodies plus `b`, with the aggregates moved
/// by exactly `b`'s contribution.
pub open spec fn add_post(t: Octree_member, b: Body, r: Octree_member) -> bool {
    &&& r == spec_add(t, b)
    &&& r.wf()
    &&& r.spec_center() == t.spec_center()
    &&& r.spec_side() == t.spec_side()
    &&& r.bodies().len() == t.bodies().len() + 1
    &&& mass_sum(r.bodies()) == mass_sum(t.bodies()) + b.mass
    &&& moment_sum(r.bodies()) == moment_sum(t.bodies()).plus(body_moment(b))
    &&& r.bodies().to_multiset() == t.bodies().to_multiset().insert(b)
}

/// One octant case of `node_add`: the body belongs in corner Tnw.
#[verifier::rlimit(100)]
#[verifier::spinoff_prover]
fn node_add_tnw(
    geometric_center: Vec3,
    mass_moment: MassMoment,
    total_mass: i64,
    side_length: i64,
    population: usize,
    tnw: Option<Box<Octree_member>>,
    tne: Option<Box<Octree_member>>,
    tsw: Option<Box<Octree_member>>,
    tse: Option<Box<Octree_member>>,
    bnw: Option<Box<Octree_member>>,
    bne: Option<Box<Octree_member>>,
    bsw: Option<Box<Octree_member>>,
    bse: Option<Box<Octree_member>>,
    b: &Body,
) -> (r: Octree_member)
    requires
        add_pre(
            node_of(
                geometric_center,
                mass_moment,
                total_mass,
                side_length,
                population,
                tnw,
                tne,
                tsw,
                tse,
                bnw,
                bne,
                bsw,
                bse,
            ),
            *b,
        ),
        corner_of(geometric_center@, b@.position) == Corner::Tnw,
    ensures
        add_post(
            node_of(
                geometric_center,
                mass_moment,
                total_mass,
                side_length,
                population,
                tnw,
                tne,
                tsw,
                tse,
                bnw,
                bne,
                bsw,
                bse,
            ),
            *b,
            r,
        ),
        r.rank() == 4,
    decreases side_length as int, 2int,
{
    let ghost g = node_of(
        geometric_center,
        mass_moment,
        total_mass,
        side_length,
        population,
        tnw,
        tne,
        tsw,
        tse,
        bnw,
        bne,
        bsw,
        bse,
    );
    let ghost s1 = opt_bodies(tnw);
    let ghost s2 = opt_bodies(tne);
    let ghost s3 = opt_bodies(tsw);
    let ghost s4 = opt_bodies(tse);
    let ghost s5 = opt_bodies(bnw);
    let ghost s6 = opt_bodies(bne);
    let ghost s7 = opt_bodies(bsw);
    let ghost s8 = opt_bodies(bse);
    let ghost full = s1 + s2 + s3 + s4 + s5 + s6 + s7 + s8;
    proof {
        assert(g.bodies() == full);
        lemma_bodies_in_cube(g);
        lemma_moment_sum_bound(full);
        assert(full.len() * (MASS_LIMIT as int) * (COORD_LIMIT as int) <= (POP_CAP as int)
            * 1_000_000_000_000_000_000_000_000int) by (nonlinear_arith)
            requires 0 <= full.len() <= POP_CAP as int;
        lemma_cube_descend(geometric_center@, side_length as int, b@.position);
        assert(v3_bounded(body_moment(*b), 1_000_000_000_000_000_000_000_000int))
            by (nonlinear_arith)
            requires
                0 <= (b@.mass) <= MASS_LIMIT as int,
                v3_bounded(b@.position, COORD_LIMIT as int),
        ;
        assert(Seq::<Body>::empty() + s1 =~= s1);
        vstd::seq_lib::lemma_concat_associative(Seq::<Body>::empty() + s1, s2, s3);
        vstd::seq_lib::lemma_concat_associative(Seq::<Body>::empty() + s1, s2 + s3, s4);
        vstd::seq_lib::lemma_concat_associative(Seq::<Body>::empty() + s1, s2 + s3 + s4, s5);
        vstd::seq_lib::lemma_concat_associative(Seq::<Body>::empty() + s1, s2 + s3 + s4 + s5, s6);
        vstd::seq_lib::lemma_concat_associative(Seq::<Body>::empty() + s1, s2 + s3 + s4 + s5 + s6, s7);
        vstd::seq_lib::lemma_concat_associative(Seq::<Body>::empty() + s1, s2 + s3 + s4 + s5 + s6 + s7, s8);
        assert(full == Seq::<Body>::empty() + s1 + (s2 + s3 + s4 + s5 + s6 + s7 + s8));
        lemma_part_facts(Seq::<Body>::empty(), s1, s2 + s3 + s4 + s5 + s6 + s7 + s8, b@.position);
    }
    let new_total: i64 = total_mass + b.mass;
    let new_pop: usize = population + 1;
    let bmx: i128 = (b.mass as i128) * (b.position.x as i128);
    let bmy: i128 = (b.mass as i128) * (b.position.y as i128);
    let bmz: i128 = (b.mass as i128) * (b.position.z as i128);
    let new_moment = MassMoment {
        x: mass_moment.x + bmx,
        y: mass_moment.y + bmy,
        z: mass_moment.z + bmz,
    };
    let nc = insert_child(tnw, &geometric_center, side_length, Corner::Tnw, b);
    let ghost nb = opt_bodies(Some(nc));
    let r = Octree_member::Octree_node {
        geometric_center,
        mass_moment: new_moment,
        total_mass: new_total,
        side_length,
        population: new_pop,
        tnw: Some(nc),
        tne,
        tsw,
        tse,
        bnw,
        bne,
        bsw,
        bse,
    };
    proof {
        assert(Seq::<Body>::empty() + nb =~= nb);
        vstd::seq_lib::lemma_concat_associative(Seq::<Body>::empty() + nb, s2, s3);
        vstd::seq_lib::lemma_concat_associative(Seq::<Body>::empty() + nb, s2 + s3, s4);
        vstd::seq_lib::lemma_concat_associative(Seq::<Body>::empty() + nb, s2 + s3 + s4, s5);
        vstd::seq_lib::lemma_concat_associative(Seq::<Body>::empty() + nb, s2 + s3 + s4 + s5, s6);
        vstd::seq_lib::lemma_concat_associative(Seq::<Body>::empty() + nb, s2 + s3 + s4 + s5 + s6, s7);
        vstd::seq_lib::lemma_concat_associative(Seq::<Body>::empty() + nb, s2 + s3 + s4 + s5 + s6 + s7, s8);
        assert(r.bodies() == Seq::<Body>::empty() + nb + (s2 + s3 + s4 + s5 + s6 + s7 + s8));
        lemma_replace_part(Seq::<Body>::empty(), s1, s2 + s3 + s4 + s5 + s6 + s7 + s8, nb, *b);
        assert(r == spec_add(g, *b));
    }
    r
}

/// One octant case of `node_add`: the body belongs in corner Tne.
#[verifier::rlimit(100)]
#[verifier::spinoff_prover]
fn node_add_tne(
    geometric_center: Vec3,
    mass_moment: MassMoment,
    total_mass: i64,
    side_length: i64,
    population: usize,
    tnw: Option<Box<Octree_member>>,
    tne: Option<Box<Octree_member>>,
    tsw: Option<Box<Octree_member>>,
    tse: Option<Box<Octree_member>>,
    bnw: Option<Box<Octree_member>>,
    bne: Option<Box<Octree_member>>,
    bsw: Option<Box<Octree_member>>,
    bse: Option<Box<Octree_member>>,
    b: &Body,
) -> (r: Octree_member)
    requires
        add_pre(
            node_of(
                geometric_center,
                mass_moment,
                total_mass,
                side_length,
                population,
                tnw,
                tne,
                tsw,
                tse,
                bnw,
                bne,
                bsw,
                bse,
            ),
            *b,
        ),
        corner_of(geometric_center@, b@.position) == Corner::Tne,
    ensures
        add_post(
            node_of(
                geometric_center,
                mass_moment,
                total_mass,
                side_length,
                population,
                tnw,
                tne,
                tsw,
                tse,
                bnw,
                bne,
                bsw,
                bse,
            ),
            *b,
            r,
        ),
        r.rank() == 4,
    decreases side_length as int, 2int,
{
    let ghost g = node_of(
        geometric_center,
        mass_moment,
        total_mass,
        side_length,
        population,
        tnw,
        tne,
        tsw,
        tse,
        bnw,
        bne,
        bsw,
        bse,
    );
    let ghost s1 = opt_bodies(tnw);
    let ghost s2 = opt_bodies(tne);
    let ghost s3 = opt_bodies(tsw);
    let ghost s4 = opt_bodies(tse);
    let ghost s5 = opt_bodies(bnw);
    let ghost s6 = opt_bodies(bne);
    let ghost s7 = opt_bodies(bsw);
    let ghost s8 = opt_bodies(bse);
    let ghost full = s1 + s2 + s3 + s4 + s5 + s6 + s7 + s8;
    proof {
        assert(g.bodies() == full);
        lemma_bodies_in_cube(g);
        lemma_moment_sum_bound(full);
        assert(full.len() * (MASS_LIMIT as int) * (COORD_LIMIT as int) <= (POP_CAP as int)
            * 1_000_000_000_000_000_000_000_000int) by (nonlinear_arith)
            requires 0 <= full.len() <= POP_CAP as int;
        lemma_cube_descend(geometric_center@, side_length as int, b@.position);
        assert(v3_bounded(body_moment(*b), 1_000_000_000_000_000_000_000_000int))
            by (nonlinear_arith)
            requires
                0 <= (b@.mass) <= MASS_LIMIT as int,
                v3_bounded(b@.position, COORD_LIMIT as int),
        ;
        vstd::seq_lib::lemma_concat_associative(s1 + s2, s3, s4);
        vstd::seq_lib::lemma_concat_associative(s1 + s2, s3 + s4, s5);
        vstd::seq_lib::lemma_concat_associative(s1 + s2, s3 + s4 + s5, s6);
        vstd::seq_lib::lemma_concat_associative(s1 + s2, s3 + s4 + s5 + s6, s7);
        vstd::seq_lib::lemma_concat_associative(s1 + s2, s3 + s4 + s5 + s6 + s7, s8);
        assert(full == s1 + s2 + (s3 + s4 + s5 + s6 + s7 + s8));
        lemma_part_facts(s1, s2, s3 + s4 + s5 + s6 + s7 + s8, b@.position);
    }
    let new_total: i64 = total_mass + b.mass;
    let new_pop: usize = population + 1;
    let bmx: i128 = (b.mass as i128) * (b.position.x as i128);
    let bmy: i128 = (b.mass as i128) * (b.position.y as i128);
    let bmz: i128 = (b.mass as i128) * (b.position.z as i128);
    let new_moment = MassMoment {
        x: mass_moment.x + bmx,
        y: mass_moment.y + bmy,
        z: mass_moment.z + bmz,
    };
    let nc = insert_child(tne, &geometric_center, side_length, Corner::Tne, b);
    let ghost nb = opt_bodies(Some(nc));
    let r = Octree_member::Octree_node {
        geometric_center,
        mass_moment: new_moment,
        total_mass: new_total,
        side_length,
        population: new_pop,
        tnw,
        tne: Some(nc),
        tsw,
        tse,
        bnw,
        bne,
        bsw,
        bse,
    };
    proof {
        vstd::seq_lib::lemma_concat_associative(s1 + nb, s3, s4);
        vstd::seq_lib::lemma_concat_associative(s1 + nb, s3 + s4, s5);
        vstd::seq_lib::lemma_concat_associative(s1 + nb, s3 + s4 + s5, s6);
        vstd::seq_lib::lemma_concat_associative(s1 + nb, s3 + s4 + s5 + s6, s7);
        vstd::seq_lib::lemma_concat_associative(s1 + nb, s3 + s4 + s5 + s6 + s7, s8);
        assert(r.bodies() == s1 + nb + (s3 + s4 + s5 + s6 + s7 + s8));
        lemma_replace_part(s1, s2, s3 + s4 + s5 + s6 + s7 + s8, nb, *b);
        assert(r == spec_add(g, *b));
    }
    r
}

/// One octant case of `node_add`: the body belongs in corner Tsw.
#[verifier::rlimit(100)]
#[verifier::spinoff_prover]
fn node_add_tsw(
    geometric_center: Vec3,
    mass_moment: MassMoment,
    total_mass: i64,
    side_length: i64,
    population: usize,
    tnw: Option<Box<Octree_member>>,
    tne: Option<Box<Octree_member>>,
    tsw: Option<Box<Octree_member>>,
    tse: Option<Box<Octree_member>>,
    bnw: Option<Box<Octree_member>>,
    bne: Option<Box<Octree_member>>,
    bsw: Option<Box<Octree_member>>,
    bse: Option<Box<Octree_member>>,
    b: &Body,
) -> (r: Octree_member)
    requires
        add_pre(
            node_of(
                geometric_center,
                mass_moment,
                total_mass,
                side_length,
                population,
                tnw,
                tne,
                tsw,
                tse,
                bnw,
                bne,
                bsw,
                bse,
            ),
            *b,
        ),
        corner_of(geometric_center@, b@.position) == Corner::Tsw,
    ensures
        add_post(
            node_of(
                geometric_center,
                mass_moment,
                total_mass,
                side_length,
                population,
                tnw,
                tne,
                tsw,
                tse,
                bnw,
                bne,
                bsw,
                bse,
            ),
            *b,
            r,
        ),
        r.rank() == 4,
    decreases side_length as int, 2int,
{
    let ghost g = node_of(
        geometric_center,
        mass_moment,
        total_mass,
        side_length,
        population,
        tnw,
        tne,
        tsw,
        tse,
        bnw,
        bne,
        bsw,
        bse,
    );
    let ghost s1 = opt_bodies(tnw);
    let ghost s2 = opt_bodies(tne);
    let ghost s3 = opt_bodies(tsw);
    let ghost s4 = opt_bodies(tse);
    let ghost s5 = opt_bodies(bnw);
    let ghost s6 = opt_bodies(bne);
    let ghost s7 = opt_bodies(bsw);
    let ghost s8 = opt_bodies(bse);
    let ghost full = s1 + s2 + s3 + s4 + s5 + s6 + s7 + s8;
    proof {
        assert(g.bodies() == full);
        lemma_bodies_in_cube(g);
        lemma_moment_sum_bound(full);
        assert(full.len() * (MASS_LIMIT as int) * (COORD_LIMIT as int) <= (POP_CAP as int)
            * 1_000_000_000_000_000_000_000_000int) by (nonlinear_arith)
            requires 0 <= full.len() <= POP_CAP as int;
        lemma_cube_descend(geometric_center@, side_length as int, b@.position);
        assert(v3_bounded(body_moment(*b), 1_000_000_000_000_000_000_000_000int))
            by (nonlinear_arith)
            requires
                0 <= (b@.mass) <= MASS_LIMIT as int,
                v3_bounded(b@.position, COORD_LIMIT as int),
        ;
        vstd::seq_lib::lemma_concat_associative((s1 + s2) + s3, s4, s5);
        vstd::seq_lib::lemma_concat_associative((s1 + s2) + s3, s4 + s5, s6);
        vstd::seq_lib::lemma_concat_associative((s1 + s2) + s3, s4 + s5 + s6, s7);
        vstd::seq_lib::lemma_concat_associative((s1 + s2) + s3, s4 + s5 + s6 + s7, s8);
        assert(full == (s1 + s2) + s3 + (s4 + s5 + s6 + s7 + s8));
        lemma_part_facts(s1 + s2, s3, s4 + s5 + s6 + s7 + s8, b@.position);
    }
    let new_total: i64 = total_mass + b.mass;
    let new_pop: usize = population + 1;
    let bmx: i128 = (b.mass as i128) * (b.position.x as i128);
    let bmy: i128 = (b.mass as i128) * (b.position.y as i128);
    let bmz: i128 = (b.mass as i128) * (b.position.z as i128);
    let new_moment = MassMoment {
        x: mass_moment.x + bmx,
        y: mass_moment.y + bmy,
        z: mass_moment.z + bmz,
    };
    let nc = insert_child(tsw, &geometric_center, side_length, Corner::Tsw, b);
    let ghost nb = opt_bodies(Some(nc));
    let r = Octree_member::Octree_node {
        geometric_center,
        mass_moment: new_moment,
        total_mass: new_total,
        side_length,
        population: new_pop,
        tnw,
        tne,
        tsw: Some(nc),
        tse,
        bnw,
        bne,
        bsw,
        bse,
    };
    proof {
        vstd::seq_lib::lemma_concat_associative((s1 + s2) + nb, s4, s5);
        vstd::seq_lib::lemma_concat_associative((s1 + s2) + nb, s4 + s5, s6);
        vstd::seq_lib::lemma_concat_associative((s1 + s2) + nb, s4 + s5 + s6, s7);
        vstd::seq_lib::lemma_concat_associative((s1 + s2) + nb, s4 + s5 + s6 + s7, s8);
        assert(r.bodies() == (s1 + s2) + nb + (s4 + s5 + s6 + s7 + s8));
        lemma_replace_part(s1 + s2, s3, s4 + s5 + s6 + s7 + s8, nb, *b);
        assert(r == spec_add(g, *b));
    }
    r
}

/// One octant case of `node_add`: the body belongs in corner Tse.
#[verifier::rlimit(100)]
#[verifier::spinoff_prover]
fn node_add_tse(
    geometric_center: Vec3,
    mass_moment: MassMoment,
    total_mass: i64,
    side_length: i64,
    population: usize,
    tnw: Option<Box<Octree_member>>,
    tne: Option<Box<Octree_member>>,
    tsw: Option<Box<Octree_member>>,
    tse: Option<Box<Octree_member>>,
    bnw: Option<Box<Octree_member>>,
    bne: Option<Box<Octree_member>>,
    bsw: Option<Box<Octree_member>>,
    bse: Option<Box<Octree_member>>,
    b: &Body,
) -> (r: Octree_member)
    requires
        add_pre(
            node_of(
                geometric_center,
                mass_moment,
                total_mass,
                side_length,
                population,
                tnw,
                tne,
                tsw,
                tse,
                bnw,
                bne,
                bsw,
                bse,
            ),
            *b,
        ),
        corner_of(geometric_center@, b@.position) == Corner::Tse,
    ensures
        add_post(
            node_of(
                geometric_center,
                mass_moment,
                total_mass,
                side_length,
                population,
                tnw,
                tne,
                tsw,
                tse,
                bnw,
                bne,
                bsw,
                bse,
            ),
            *b,
            r,
        ),
        r.rank() == 4,
    decreases side_length as int, 2int,
{
    let ghost g = node_of(
        geometric_center,
        mass_moment,
        total_mass,
        side_length,
        population,
        tnw,
        tne,
        tsw,
        tse,
        bnw,
        bne,
        bsw,
        bse,
    );
    let ghost s1 = opt_bodies(tnw);
    let ghost s2 = opt_bodies(tne);
    let ghost s3 = opt_bodies(tsw);
    let ghost s4 = opt_bodies(tse);
    let ghost s5 = opt_bodies(bnw);
    let ghost s6 = opt_bodies(bne);
    let ghost s7 = opt_bodies(bsw);
    let ghost s8 = opt_bodies(bse);
    let ghost full = s1 + s2 + s3 + s4 + s5 + s6 + s7 + s8;
    proof {
        assert(g.bodies() == full);
        lemma_bodies_in_cube(g);
        lemma_moment_sum_bound(full);
        assert(full.len() * (MASS_LIMIT as int) * (COORD_LIMIT as int) <= (POP_CAP as int)
            * 1_000_000_000_000_000_000_000_000int) by (nonlinear_arith)
            requires 0 <= full.len() <= POP_CAP as int;
        lemma_cube_descend(geometric_center@, side_length as int, b@.position);
        assert(v3_bounded(body_moment(*b), 1_000_000_000_000_000_000_000_000int))
            by (nonlinear_arith)
            requires
                0 <= (b@.mass) <= MASS_LIMIT as int,
                v3_bounded(b@.position, COORD_LIMIT as int),
        ;
        vstd::seq_lib::lemma_concat_associative((s1 + s2 + s3) + s4, s5, s6);
        vstd::seq_lib::lemma_concat_associative((s1 + s2 + s3) + s4, s5 + s6, s7);
        vstd::seq_lib::lemma_concat_associative((s1 + s2 + s3) + s4, s5 + s6 + s7, s8);
        assert(full == (s1 + s2 + s3) + s4 + (s5 + s6 + s7 + s8));
        lemma_part_facts(s1 + s2 + s3, s4, s5 + s6 + s7 + s8, b@.position);
    }
    let new_total: i64 = total_mass + b.mass;
    let new_pop: usize = population + 1;
    let bmx: i128 = (b.mass as i128) * (b.position.x as i128);
    let bmy: i128 = (b.mass as i128) * (b.position.y as i128);
    let bmz: i128 = (b.mass as i128) * (b.position.z as i128);
    let new_moment = MassMoment {
        x: mass_moment.x + bmx,
        y: mass_moment.y + bmy,
        z: mass_moment.z + bmz,
    };
    let nc = insert_child(tse, &geometric_center, side_length, Corner::Tse, b);
    let ghost nb = opt_bodies(Some(nc));
    let r = Octree_member::Octree_node {
        geometric_center,
        mass_moment: new_moment,
        total_mass: new_total,
        side_length,
        population: new_pop,
        tnw,
        tne,
        tsw,
        tse: Some(nc),
        bnw,
        bne,
        bsw,
        bse,
    };
    proof {
        vstd::seq_lib::lemma_concat_associative((s1 + s2 + s3) + nb, s5, s6);
        vstd::seq_lib::lemma_concat_associative((s1 + s2 + s3) + nb, s5 + s6, s7);
        vstd::seq_lib::lemma_concat_associative((s1 + s2 + s3) + nb, s5 + s6 + s7, s8);
        assert(r.bodies() == (s1 + s2 + s3) + nb + (s5 + s6 + s7 + s8));
        lemma_replace_part(s1 + s2 + s3, s4, s5 + s6 + s7 + s8, nb, *b);
        assert(r == spec_add(g, *b));
    }
    r
}

/// One octant case of `node_add`: the body belongs in corner Bnw.
#[verifier::rlimit(100)]
#[verifier::spinoff_prover]
fn node_add_bnw(
    geometric_center: Vec3,
    mass_moment: MassMoment,
    total_mass: i64,
    side_length: i64,
    population: usize,
    tnw: Option<Box<Octree_member>>,
    tne: Option<Box<Octree_member>>,
    tsw: Option<Box<Octree_member>>,
    tse: Option<Box<Octree_member>>,
    bnw: Option<Box<Octree_member>>,
    bne: Option<Box<Octree_member>>,
    bsw: Option<Box<Octree_member>>,
    bse: Option<Box<Octree_member>>,
    b: &Body,
) -> (r: Octree_member)
    requires
        add_pre(
            node_of(
                geometric_center,
                mass_moment,
                total_mass,
                side_length,
                population,
                tnw,
                tne,
                tsw,
                tse,
                bnw,
                bne,
                bsw,
                bse,
            ),
            *b,
        ),
        corner_of(geometric_center@, b@.position) == Corner::Bnw,
    ensures
        add_post(
            node_of(
                geometric_center,
                mass_moment,
                total_mass,
                side_length,
                population,
                tnw,
                tne,
                tsw,
                tse,
                bnw,
                bne,
                bsw,
                bse,
            ),
            *b,
            r,
        ),
        r.rank() == 4,
    decreases side_length as int, 2int,
{
    let ghost g = node_of(
        geometric_center,
        mass_moment,
        total_mass,
        side_length,
        population,
        tnw,
        tne,
        tsw,
        tse,
        bnw,
        bne,
        bsw,
        bse,
    );
    let ghost s1 = opt_bodies(tnw);
    let ghost s2 = opt_bodies(tne);
    let ghost s3 = opt_bodies(tsw);
    let ghost s4 = opt_bodies(tse);
    let ghost s5 = opt_bodies(bnw);
    let ghost s6 = opt_bodies(bne);
    let ghost s7 = opt_bodies(bsw);
    let ghost s8 = opt_bodies(bse);
    let ghost full = s1 + s2 + s3 + s4 + s5 + s6 + s7 + s8;
    proof {
        assert(g.bodies() == full);
        lemma_bodies_in_cube(g);
        lemma_moment_sum_bound(full);
        assert(full.len() * (MASS_LIMIT as int) * (COORD_LIMIT as int) <= (POP_CAP as int)
            * 1_000_000_000_000_000_000_000_000int) by (nonlinear_arith)
            requires 0 <= full.len() <= POP_CAP as int;
        lemma_cube_descend(geometric_center@, side_length as int, b@.position);
        assert(v3_bounded(body_moment(*b), 1_000_000_000_000_000_000_000_000int))
            by (nonlinear_arith)
            requires
                0 <= (b@.mass) <= MASS_LIMIT as int,
                v3_bounded(b@.position, COORD_LIMIT as int),
        ;
        vstd::seq_lib::lemma_concat_associative((s1 + s2 + s3 + s4) + s5, s6, s7);
        vstd::seq_lib::lemma_concat_associative((s1 + s2 + s3 + s4) + s5, s6 + s7, s8);
        assert(full == (s1 + s2 + s3 + s4) + s5 + (s6 + s7 + s8));
        lemma_part_facts(s1 + s2 + s3 + s4, s5, s6 + s7 + s8, b@.position);
    }
    let new_total: i64 = total_mass + b.mass;
    let new_pop: usize = population + 1;
    let bmx: i128 = (b.mass as i128) * (b.position.x as i128);
    let bmy: i128 = (b.mass as i128) * (b.position.y as i128);
    let bmz: i128 = (b.mass as i128) * (b.position.z as i128);
    let new_moment = MassMoment {
        x: mass_moment.x + bmx,
        y: mass_moment.y + bmy,
        z: mass_moment.z + bmz,
    };
    let nc = insert_child(bnw, &geometric_center, side_length, Corner::Bnw, b);
    let ghost nb = opt_bodies(Some(nc));
    let r = Octree_member::Octree_node {
        geometric_center,
        mass_moment: new_moment,
        total_mass: new_total,
        side_length,
        population: new_pop,
        tnw,
        tne,
        tsw,
        tse,
        bnw: Some(nc),
        bne,
        bsw,
        bse,
    };
    proof {
        vstd::seq_lib::lemma_concat_associative((s1 + s2 + s3 + s4) + nb, s6, s7);
        vstd::seq_lib::lemma_concat_associative((s1 + s2 + s3 + s4) + nb, s6 + s7, s8);
        assert(r.bodies() == (s1 + s2 + s3 + s4) + nb + (s6 + s7 + s8));
        lemma_replace_part(s1 + s2 + s3 + s4, s5, s6 + s7 + s8, nb, *b);
        assert(r == spec_add(g, *b));
    }
    r
}

/// One octant case of `node_add`: the body belongs in corner Bne.
#[verifier::rlimit(100)]
#[verifier::spinoff_prover]
fn node_add_bne(
    geometric_center: Vec3,
    mass_moment: MassMoment,
    total_mass: i64,
    side_length: i64,
    population: usize,
    tnw: Option<Box<Octree_member>>,
    tne: Option<Box<Octree_member>>,
    tsw: Option<Box<Octree_member>>,
    tse: Option<Box<Octree_member>>,
    bnw: Option<Box<Octree_member>>,
    bne: Option<Box<Octree_member>>,
    bsw: Option<Box<Octree_member>>,
    bse: Option<Box<Octree_member>>,
    b: &Body,
) -> (r: Octree_member)
    requires
        add_pre(
            node_of(
                geometric_center,
                mass_moment,
                total_mass,
                side_length,
                population,
                tnw,
                tne,
                tsw,
                tse,
                bnw,
                bne,
                bsw,
                bse,
            ),
            *b,
        ),
        corner_of(geometric_center@, b@.position) == Corner::Bne,
    ensures
        add_post(
            node_of(
                geometric_center,
                mass_moment,
                total_mass,
                side_length,
                population,
                tnw,
                tne,
                tsw,
                tse,
                bnw,
                bne,
                bsw,
                bse,
            ),
            *b,
            r,
        ),
        r.rank() == 4,
    decreases side_length as int, 2int,
{
    let ghost g = node_of(
        geometric_center,
        mass_moment,
        total_mass,
        side_length,
        population,
        tnw,
        tne,
        tsw,
        tse,
        bnw,
        bne,
        bsw,
        bse,
    );
    let ghost s1 = opt_bodies(tnw);
    let ghost s2 = opt_bodies(tne);
    let ghost s3 = opt_bodies(tsw);
    let ghost s4 = opt_bodies(tse);
    let ghost s5 = opt_bodies(bnw);
    let ghost s6 = opt_bodies(bne);
    let ghost s7 = opt_bodies(bsw);
    let ghost s8 = opt_bodies(bse);
    let ghost full = s1 + s2 + s3 + s4 + s5 + s6 + s7 + s8;
    proof {
        assert(g.bodies() == full);
        lemma_bodies_in_cube(g);
        lemma_moment_sum_bound(full);
        assert(full.len() * (MASS_LIMIT as int) * (COORD_LIMIT as int) <= (POP_CAP as int)
            * 1_000_000_000_000_000_000_000_000int) by (nonlinear_arith)
            requires 0 <= full.len() <= POP_CAP as int;
        lemma_cube_descend(geometric_center@, side_length as int, b@.position);
        assert(v3_bounded(body_moment(*b), 1_000_000_000_000_000_000_000_000int))
            by (nonlinear_arith)
            requires
                0 <= (b@.mass) <= MASS_LIMIT as int,
                v3_bounded(b@.position, COORD_LIMIT as int),
        ;
        vstd::seq_lib::lemma_concat_associative((s1 + s2 + s3 + s4 + s5) + s6, s7, s8);
        assert(full == (s1 + s2 + s3 + s4 + s5) + s6 + (s7 + s8));
        lemma_part_facts(s1 + s2 + s3 + s4 + s5, s6, s7 + s8, b@.position);
    }
    let new_total: i64 = total_mass + b.mass;
    let new_pop: usize = population + 1;
    let bmx: i128 = (b.mass as i128) * (b.position.x as i128);
    let bmy: i128 = (b.mass as i128) * (b.position.y as i128);
    let bmz: i128 = (b.mass as i128) * (b.position.z as i128);
    let new_moment = MassMoment {
        x: mass_moment.x + bmx,
        y: mass_moment.y + bmy,
        z: mass_moment.z + bmz,
    };
    let nc = insert_child(bne, &geometric_center, side_length, Corner::Bne, b);
    let ghost nb = opt_bodies(Some(nc));
    let r = Octree_member::Octree_node {
        geometric_center,
        mass_moment: new_moment,
        total_mass: new_total,
        side_length,
        population: new_pop,
        tnw,
        tne,
        tsw,
        tse,
        bnw,
        bne: Some(nc),
        bsw,
        bse,
    };
    proof {
        vstd::seq_lib::lemma_concat_associative((s1 + s2 + s3 + s4 + s5) + nb, s7, s8);
        assert(r.bodies() == (s1 + s2 + s3 + s4 + s5) + nb + (s7 + s8));
        lemma_replace_part(s1 + s2 + s3 + s4 + s5, s6, s7 + s8, nb, *b);
        assert(r == spec_add(g, *b));
    }
    r
}

/// One octant case of `node_add`: the body belongs in corner Bsw.
#[verifier::rlimit(100)]
#[verifier::spinoff_prover]
fn node_add_bsw(
    geometric_center: Vec3,
    mass_moment: MassMoment,
    total_mass: i64,
    side_length: i64,
    population: usize,
    tnw: Option<Box<Octree_member>>,
    tne: Option<Box<Octree_member>>,
    tsw: Option<Box<Octree_member>>,
    tse: Option<Box<Octree_member>>,
    bnw: Option<Box<Octree_member>>,
    bne: Option<Box<Octree_member>>,
    bsw: Option<Box<Octree_member>>,
    bse: Option<Box<Octree_member>>,
    b: &Body,
) -> (r: Octree_member)
    requires
        add_pre(
            node_of(
                geometric_center,
                mass_moment,
                total_mass,
                side_length,
                population,
                tnw,
                tne,
                tsw,
                tse,
                bnw,
                bne,
                bsw,
                bse,
            ),
            *b,
        ),
        corner_of(geometric_center@, b@.position) == Corner::Bsw,
    ensures
        add_post(
            node_of(
                geometric_center,
                mass_moment,
                total_mass,
                side_length,
                population,
                tnw,
                tne,
                tsw,
                tse,
                bnw,
                bne,
                bsw,
                bse,
            ),
            *b,
            r,
        ),
        r.rank() == 4,
    decreases side_length as int, 2int,
{
    let ghost g = node_of(
        geometric_center,
        mass_moment,
        total_mass,
        side_length,
        population,
        tnw,
        tne,
        tsw,
        tse,
        bnw,
        bne,
        bsw,
        bse,
    );
    let ghost s1 = opt_bodies(tnw);
    let ghost s2 = opt_bodies(tne);
    let ghost s3 = opt_bodies(tsw);
    let ghost s4 = opt_bodies(tse);
    let ghost s5 = opt_bodies(bnw);
    let ghost s6 = opt_bodies(bne);
    let ghost s7 = opt_bodies(bsw);
    let ghost s8 = opt_bodies(bse);
    let ghost full = s1 + s2 + s3 + s4 + s5 + s6 + s7 + s8;
    proof {
        assert(g.bodies() == full);
        lemma_bodies_in_cube(g);
        lemma_moment_sum_bound(full);
        assert(full.len() * (MASS_LIMIT as int) * (COORD_LIMIT as int) <= (POP_CAP as int)
            * 1_000_000_000_000_000_000_000_000int) by (nonlinear_arith)
            requires 0 <= full.len() <= POP_CAP as int;
        lemma_cube_descend(geometric_center@, side_length as int, b@.position);
        assert(v3_bounded(body_moment(*b), 1_000_000_000_000_000_000_000_000int))
            by (nonlinear_arith)
            requires
                0 <= (b@.mass) <= MASS_LIMIT as int,
                v3_bounded(b@.position, COORD_LIMIT as int),
        ;
        assert(full == (s1 + s2 + s3 + s4 + s5 + s6) + s7 + s8);
        lemma_part_facts(s1 + s2 + s3 + s4 + s5 + s6, s7, s8, b@.position);
    }
    let new_total: i64 = total_mass + b.mass;
    let new_pop: usize = population + 1;
    let bmx: i128 = (b.mass as i128) * (b.position.x as i128);
    let bmy: i128 = (b.mass as i128) * (b.position.y as i128);
    let bmz: i128 = (b.mass as i128) * (b.position.z as i128);
    let new_moment = MassMoment {
        x: mass_moment.x + bmx,
        y: mass_moment.y + bmy,
        z: mass_moment.z + bmz,
    };
    let nc = insert_child(bsw, &geometric_center, side_length, Corner::Bsw, b);
    let ghost nb = opt_bodies(Some(nc));
    let r = Octree_member::Octree_node {
        geometric_center,
        mass_moment: new_moment,
        total_mass: new_total,
        side_length,
        population: new_pop,
        tnw,
        tne,
        tsw,
        tse,
        bnw,
        bne,
        bsw: Some(nc),
        bse,
    };
    proof {
        assert(r.bodies() == (s1 + s2 + s3 + s4 + s5 + s6) + nb + s8);
        lemma_replace_part(s1 + s2 + s3 + s4 + s5 + s6, s7, s8, nb, *b);
        assert(r == spec_add(g, *b));
    }
    r
}

/// One octant case of `node_add`: the body belongs in corner Bse.
#[verifier::rlimit(100)]
#[verifier::spinoff_prover]
fn node_add_bse(
    geometric_center: Vec3,
    mass_moment: MassMoment,
    total_mass: i64,
    side_length: i64,
    population: usize,
    tnw: Option<Box<Octree_member>>,
    tne: Option<Box<Octree_member>>,
    tsw: Option<Box<Octree_member>>,
    tse: Option<Box<Octree_member>>,
    bnw: Option<Box<Octree_member>>,
    bne: Option<Box<Octree_member>>,
    bsw: Option<Box<Octree_member>>,
    bse: Option<Box<Octree_member>>,
    b: &Body,
) -> (r: Octree_member)
    requires
        add_pre(
            node_of(
                geometric_center,
                mass_moment,
                total_mass,
                side_length,
                population,
                tnw,
                tne,
                tsw,
                tse,
                bnw,
                bne,
                bsw,
                bse,
            ),
            *b,
        ),
        corner_of(geometric_center@, b@.position) == Corner::Bse,
    ensures
        add_post(
            node_of(
                geometric_center,
                mass_moment,
                total_mass,
                side_length,
                population,
                tnw,
                tne,
                tsw,
                tse,
                bnw,
                bne,
                bsw,
                bse,
            ),
            *b,
            r,
        ),
        r.rank() == 4,
    decreases side_length as int, 2int,
{
    let ghost g = node_of(
        geometric_center,
        mass_moment,
        total_mass,
        side_length,
        population,
        tnw,
        tne,
        tsw,
        tse,
        bnw,
        bne,
        bsw,
        bse,
    );
    let ghost s1 = opt_bodies(tnw);
    let ghost s2 = opt_bodies(tne);
    let ghost s3 = opt_bodies(tsw);
    let ghost s4 = opt_bodies(tse);
    let ghost s5 = opt_bodies(bnw);
    let ghost s6 = opt_bodies(bne);
    let ghost s7 = opt_bodies(bsw);
    let ghost s8 = opt_bodies(bse);
    let ghost full = s1 + s2 + s3 + s4 + s5 + s6 + s7 + s8;
    proof {
        assert(g.bodies() == full);
        lemma_bodies_in_cube(g);
        lemma_moment_sum_bound(full);
        assert(full.len() * (MASS_LIMIT as int) * (COORD_LIMIT as int) <= (POP_CAP as int)
            * 1_000_000_000_000_000_000_000_000int) by (nonlinear_arith)
            requires 0 <= full.len() <= POP_CAP as int;
        lemma_cube_descend(geometric_center@, side_length as int, b@.position);
        assert(v3_bounded(body_moment(*b), 1_000_000_000_000_000_000_000_000int))
            by (nonlinear_arith)
            requires
                0 <= (b@.mass) <= MASS_LIMIT as int,
                v3_bounded(b@.position, COORD_LIMIT as int),
        ;
        assert((s1 + s2 + s3 + s4 + s5 + s6 + s7) + s8 + Seq::<Body>::empty() =~= (s1 + s2 + s3 + s4 + s5 + s6 + s7) + s8);
        assert(full == (s1 + s2 + s3 + s4 + s5 + s6 + s7) + s8 + Seq::<Body>::empty());
        lemma_part_facts(s1 + s2 + s3 + s4 + s5 + s6 + s7, s8, Seq::<Body>::empty(), b@.position);
    }
    let new_total: i64 = total_mass + b.mass;
    let new_pop: usize = population + 1;
    let bmx: i128 = (b.mass as i128) * (b.position.x as i128);
    let bmy: i128 = (b.mass as i128) * (b.position.y as i128);
    let bmz: i128 = (b.mass as i128) * (b.position.z as i128);
    let new_moment = MassMoment {
        x: mass_moment.x + bmx,
        y: mass_moment.y + bmy,
        z: mass_moment.z + bmz,
    };
    let nc = insert_child(bse, &geometric_center, side_length, Corner::Bse, b);
    let ghost nb = opt_bodies(Some(nc));
    let r = Octree_member::Octree_node {
        geometric_center,
        mass_moment: new_moment,
        total_mass: new_total,
        side_length,
        population: new_pop,
        tnw,
        tne,
        tsw,
        tse,
        bnw,
        bne,
        bsw,
        bse: Some(nc),
    };
    proof {
        assert((s1 + s2 + s3 + s4 + s5 + s6 + s7) + nb + Seq::<Body>::empty() =~= (s1 + s2 + s3 + s4 + s5 + s6 + s7) + nb);
        assert(r.bodies() == (s1 + s2 + s3 + s4 + s5 + s6 + s7) + nb + Seq::<Body>::empty());
        lemma_replace_part(s1 + s2 + s3 + s4 + s5 + s6 + s7, s8, Seq::<Body>::empty(), nb, *b);
        assert(r == spec_add(g, *b));
    }
    r
}

/// Inserts `b` into an internal node given by its fields: dispatches on
/// the octant of `b`'s position.
fn node_add(
    geometric_center: Vec3,
    mass_moment: MassMoment,
    total_mass: i64,
    side_length: i64,
    population: usize,
    tnw: Option<Box<Octree_member>>,
    tne: Option<Box<Octree_member>>,
    tsw: Option<Box<Octree_member>>,
    tse: Option<Box<Octree_member>>,
    bnw: Option<Box<Octree_member>>,
    bne: Option<Box<Octree_member>>,
    bsw: Option<Box<Octree_member>>,
    bse: Option<Box<Octree_member>>,
    b: &Body,
) -> (r: Octree_member)
    requires
        add_pre(
            node_of(
                geometric_center,
                mass_moment,
                total_mass,
                side_length,
                population,
                tnw,
                tne,
                tsw,
                tse,
                bnw,
                bne,
                bsw,
                bse,
            ),
            *b,
        ),
    ensures
        add_post(
            node_of(
                geometric_center,
                mass_moment,
                total_mass,
                side_length,
                population,
                tnw,
                tne,
                tsw,
                tse,
                bnw,
                bne,
                bsw,
                bse,
            ),
            *b,
            r,
        ),
        r.rank() == 4,
    decreases side_length as int, 3int,
{
    let k = corner_lookup(&geometric_center, &b.position);
    match k {
        Corner::Tnw => node_add_tnw(
            geometric_center,
            mass_moment,
            total_mass,
            side_length,
            population,
            tnw,
            tne,
            tsw,
            tse,
            bnw,
            bne,
            bsw,
            bse,
            b,
        ),
        Corner::Tne => node_add_tne(
            geometric_center,
            mass_moment,
            total_mass,
            side_length,
            population,
            tnw,
            tne,
            tsw,
            tse,
            bnw,
            bne,
            bsw,
            bse,
            b,
        ),
        Corner::Tsw => node_add_tsw(
            geometric_center,
            mass_moment,
            total_mass,
            side_length,
            population,
            tnw,
            tne,
            tsw,
            tse,
            bnw,
            bne,
            bsw,
            bse,
            b,
        ),
        Corner::Tse => node_add_tse(
            geometric_center,
            mass_moment,
            total_mass,
            side_length,
            population,
            tnw,
            tne,
            tsw,
            tse,
            bnw,
            bne,
            bsw,
            bse,
            b,
        ),
        Corner::Bnw => node_add_bnw(
            geometric_center,
            mass_moment,
            total_mass,
            side_length,
            population,
            tnw,
            tne,
            tsw,
            tse,
            bnw,
            bne,
            bsw,
            bse,
            b,
        ),
        Corner::Bne => node_add_bne(
            geometric_center,
            mass_moment,
            total_mass,
            side_length,
            population,
            tnw,
            tne,
            tsw,
            tse,
            bnw,
            bne,
            bsw,
            bse,
            b,
        ),
        Corner::Bsw => node_add_bsw(
            geometric_center,
            mass_moment,
            total_mass,
            side_length,
            population,
            tnw,
            tne,
            tsw,
            tse,
            bnw,
            bne,
            bsw,
            bse,
            b,
        ),
        Corner::Bse => node_add_bse(
            geometric_center,
            mass_moment,
            total_mass,
            side_length,
            population,
            tnw,
            tne,
            tsw,
            tse,
            bnw,
            bne,
            bsw,
            bse,
            b,
        ),
    }
}

impl Octree_member {
    /// Inserts a body into the subtree. An empty leaf takes the body as its
    /// occupant; an occupied leaf converts to an internal node and re-adds
    /// both bodies; an internal node folds the body into its aggregates and
    /// descends into the body's octant (see `add_pre` and `add_post`).
    ///
    /// The inserted position must be fresh: two bodies at one fixed-point
    /// position could never separate into distinct octants.
    #[verifier::rlimit(100)]
    #[verifier::spinoff_prover]
    pub fn add(self, b: &Body) -> (r: Octree_member)
        requires
            add_pre(self, *b),
        ensures
            add_post(self, *b, r),
            self.rank() == 4 ==> r.rank() == 4,
        decreases self.spec_side(), self.rank(),
    {
        let ghost g = self;
        match self {
            Octree_member::Octree_leaf { body: opt, geometric_center, side_length } => {
                match opt {
                    Option::None => {
                        let r = Octree_member::Octree_leaf {
                            body: Some(*b),
                            geometric_center,
                            side_length,
                        };
                        proof {
                            assert(g.bodies() =~= Seq::<Body>::empty());
                            assert(r.bodies() =~= Seq::<Body>::empty().push(*b));
                            assert(r.bodies().drop_last() =~= Seq::<Body>::empty());
                            assert(Seq::<Body>::empty().push(*b).to_multiset()
                                == Seq::<Body>::empty().to_multiset().insert(*b));
                            assert(r == spec_add(g, *b));
                        }
                        r
                    },
                    Option::Some(o) => {
                        proof {
                            assert(g.bodies() == seq![o]);
                            assert(seq![o][0] == o);
                            assert(seq![o].drop_last() =~= Seq::<Body>::empty());
                            if side_length == 1 {
                                lemma_unit_cube(geometric_center@, o@.position);
                                lemma_unit_cube(geometric_center@, b@.position);
                                assert(false);
                            }
                        }
                        let base = Octree_member::Octree_node {
                            geometric_center,
                            mass_moment: MassMoment { x: 0, y: 0, z: 0 },
                            total_mass: 0,
                            side_length,
                            population: 0,
                            tnw: None,
                            tne: None,
                            tsw: None,
                            tse: None,
                            bnw: None,
                            bne: None,
                            bsw: None,
                            bse: None,
                        };
                        proof {
                            assert(base.bodies() =~= Seq::<Body>::empty());
                            assert(base.wf());
                        }
                        let t1 = base.add(&o);
                        proof {
                            let s1 = t1.bodies();
                            assert(s1.len() == 1);
                            assert(s1.contains(s1[0]));
                            assert(s1.to_multiset().count(s1[0]) > 0);
                            assert(s1[0] == o);
                            assert(Seq::<Body>::empty().push(o) =~= seq![o]);
                            assert(Seq::<Body>::empty().push(o).to_multiset()
                                == Seq::<Body>::empty().to_multiset().insert(o));
                        }
                        let t2 = t1.add(b);
                        proof {
                            assert(t2.bodies().to_multiset() =~= g.bodies().to_multiset().insert(
                                *b,
                            ));
                            assert(t1 == spec_add(base, o));
                            assert(t1.spec_side() == side_length as int && t1.rank() == 4);
                            assert(t2 == spec_add(t1, *b));
                            assert(t2 == spec_add(g, *b));
                        }
                        t2
                    },
                }
            },
            Octree_member::Octree_node {
                geometric_center,
                mass_moment,
                total_mass,
                side_length,
                population,
                tnw,
                tne,
                tsw,
                tse,
                bnw,
                bne,
                bsw,
                bse,
            } => {
                node_add(
                    geometric_center,
                    mass_moment,
                    total_mass,
                    side_length,
                    population,
                    tnw,
                    tne,
                    tsw,
                    tse,
                    bnw,
                    bne,
                    bsw,
                    bse,
                    b,
                )
            },
        }
    }
}

/// Largest admissible opening angle (fixed-point; `100.0`).
pub const THETA_MAX: i64 = 100_000_000;

/// The sum of the forces that the bodies of `s` exert on `target`.
pub open spec fn spec_force_sum(s: Seq<Body>, target: BodyView) -> V3
    decreases s.len(),
{
    if s.len() == 0 {
        V3::zero()
    } else {
        spec_force_sum(s.drop_last(), target).plus(
            crate::physics::spec_gravitational_force(s.last()@, target),
        )
    }
}

/// `spec_force_sum` distributes over concatenation.
pub proof fn lemma_force_sum_concat(a: Seq<Body>, b: Seq<Body>, target: BodyView)
    ensures
        spec_force_sum(a + b, target) == spec_force_sum(a, target).plus(
            spec_force_sum(b, target),
        ),
    decreases b.len(),
{
    if b.len() == 0 {
        assert(a + b =~= a);
    } else {
        lemma_force_sum_concat(a, b.drop_last(), target);
        assert((a + b).drop_last() =~= a + b.drop_last());
        assert((a + b).last() == b.last());
    }
}

/// Removing one body splits the force sum: the whole sum is the sum
/// without it plus its own contribution.
pub proof fn lemma_force_sum_remove(s: Seq<Body>, i: int, target: BodyView)
    requires
        0 <= i < s.len(),
    ensures
        spec_force_sum(s, target) == spec_force_sum(s.remove(i), target).plus(
            crate::physics::spec_gravitational_force(s[i]@, target),
        ),
{
    let u = s.subrange(0, i);
    let v = s.subrange(i + 1, s.len() as int);
    assert(s =~= u + seq![s[i]] + v);
    assert(s.remove(i) =~= u + v);
    lemma_force_sum_concat(u, seq![s[i]], target);
    lemma_force_sum_concat(u + seq![s[i]], v, target);
    lemma_force_sum_concat(u, v, target);
    assert(seq![s[i]].drop_last() =~= Seq::<Body>::empty());
    assert(seq![s[i]].last() == s[i]);
    reveal_with_fuel(spec_force_sum, 3);
    let g = crate::physics::spec_gravitational_force(s[i]@, target);
    let fu = spec_force_sum(u, target);
    let fv = spec_force_sum(v, target);
    assert(spec_force_sum(seq![s[i]], target) == V3::zero().plus(g));
    assert(fu.plus(V3::zero().plus(g)).plus(fv) == fu.plus(fv).plus(g));
}

/// The force sum depends only on which bodies are present, not on their
/// order: sequences with equal multisets have equal force sums.
pub proof fn lemma_force_sum_permutation(s1: Seq<Body>, s2: Seq<Body>, target: BodyView)
    requires
        s1.to_multiset() == s2.to_multiset(),
    ensures
        spec_force_sum(s1, target) == spec_force_sum(s2, target),
    decreases s1.len(),
{
    if s1.len() == 0 {
        assert(s2.to_multiset().len() == 0);
        assert(s2.len() == 0);
    } else {
        let x = s1.last();
        assert(s1.contains(x));
        assert(s1.to_multiset().count(x) > 0);
        assert(s2.to_multiset().count(x) > 0);
        assert(s2.contains(x));
        let j = choose|j: int| 0 <= j < s2.len() && s2[j] == x;
        lemma_force_sum_remove(s2, j, target);
        lemma_force_sum_remove(s1, s1.len() - 1, target);
        assert(s1.remove(s1.len() - 1) =~= s1.drop_last());
        assert(s1.remove(s1.len() - 1).to_multiset() == s1.to_multiset().remove(x));
        assert(s2.remove(j).to_multiset() == s2.to_multiset().remove(x));
        lemma_force_sum_permutation(s1.remove(s1.len() - 1), s2.remove(j), target);
    }
}

/// The force sum over valid bodies is bounded by the count times the
/// largest single force.
pub proof fn lemma_force_sum_bound(s: Seq<Body>, target: BodyView)
    requires
        all_valid(s),
        valid_body(target),
    ensures
        v3_bounded(spec_force_sum(s, target), s.len() * (FORCE_LIMIT as int)),
    decreases s.len(),
{
    if s.len() > 0 {
        assert(all_valid(s.drop_last())) by {
            assert(forall|i: int| 0 <= i < s.len() - 1 ==> s.drop_last()[i] == s[i]);
        }
        lemma_force_sum_bound(s.drop_last(), target);
        let o = s.last();
        assert(valid_body(o@));
        assert(o@.mass * target.mass <= MASS_PRODUCT_CAP as int) by (nonlinear_arith)
            requires
                0 <= o@.mass <= MASS_LIMIT as int,
                0 <= target.mass <= MASS_LIMIT as int,
        ;
        crate::physics::lemma_force_bounded(o@, target);
        assert((s.len() - 1) * (FORCE_LIMIT as int) + FORCE_LIMIT as int == s.len() * (
        FORCE_LIMIT as int)) by (nonlinear_arith);
    }
}

/// If the total mass of a sequence of valid bodies is zero, every one of
/// them is inert and the force sum vanishes.
pub proof fn lemma_inert_force_sum(s: Seq<Body>, target: BodyView)
    requires
        all_valid(s),
        mass_sum(s) == 0,
    ensures
        spec_force_sum(s, target) == V3::zero(),
    decreases s.len(),
{
    if s.len() > 0 {
        assert(all_valid(s.drop_last())) by {
            assert(forall|i: int| 0 <= i < s.len() - 1 ==> s.drop_last()[i] == s[i]);
        }
        assert(valid_body(s[s.len() - 1]@));
        assert(s.last() == s[s.len() - 1]);
        lemma_mass_sum_nonneg(s.drop_last());
        lemma_inert_force_sum(s.drop_last(), target);
    }
}

impl Octree_member {
    /// The center of mass of the subtree: the exact mass moment divided by
    /// the total mass (the geometric center for an empty or massless
    /// subtree, the occupant's position for an occupied leaf).
    pub open spec fn spec_center_of_mass(self) -> V3 {
        match self {
            Octree_member::Octree_leaf { body, geometric_center, .. } => match body {
                Option::None => geometric_center@,
                Option::Some(b) => b.position@,
            },
            Octree_member::Octree_node { geometric_center, mass_moment, total_mass, .. } => {
                if total_mass == 0 {
                    geometric_center@
                } else {
                    V3 {
                        x: crate::physics::tdiv(mass_moment@.x, total_mass as int),
                        y: crate::physics::tdiv(mass_moment@.y, total_mass as int),
                        z: crate::physics::tdiv(mass_moment@.z, total_mass as int),
                    }
                }
            },
        }
    }

    /// The Barnes-Hut approximate force on `target` from this subtree, for
    /// opening angle `theta` (fixed-point). A leaf contributes the exact
    /// pairwise force of its occupant. An internal node whose angular size
    /// `side / dist` is below `theta` is treated as one point mass of its
    /// total mass at its center of mass; otherwise its children are summed
    /// (in the fixed octant order).
    pub open spec fn spec_approximate_force(self, target: BodyView, theta: int) -> V3
        decreases self, 1int,
    {
        match self {
            Octree_member::Octree_leaf { body, .. } => match body {
                Option::None => V3::zero(),
                Option::Some(o) => crate::physics::spec_gravitational_force(o@, target),
            },
            Octree_member::Octree_node {
                total_mass,
                side_length,
                tnw,
                tne,
                tsw,
                tse,
                bnw,
                bne,
                bsw,
                bse,
                ..
            } => {
                if total_mass == 0 {
                    V3::zero()
                } else {
                    let com = self.spec_center_of_mass();
                    let dist = crate::physics::sqrt_floor(
                        crate::physics::dist2(target.position, com),
                    );
                    if side_length * SCALE < theta * dist {
                        crate::physics::spec_gravitational_force(
                            BodyView { mass: total_mass as int, position: com, velocity: V3::zero() },
                            target,
                        )
                    } else {
                        spec_approx_opt(tnw, target, theta).plus(
                            spec_approx_opt(tne, target, theta),
                        ).plus(spec_approx_opt(tsw, target, theta)).plus(
                            spec_approx_opt(tse, target, theta),
                        ).plus(spec_approx_opt(bnw, target, theta)).plus(
                            spec_approx_opt(bne, target, theta),
                        ).plus(spec_approx_opt(bsw, target, theta)).plus(
                            spec_approx_opt(bse, target, theta),
                        )
                    }
                }
            },
        }
    }
}

/// The Barnes-Hut contribution of an optional child.
pub open spec fn spec_approx_opt(c: Option<Box<Octree_member>>, target: BodyView, theta: int) -> V3
    decreases c, 2int,
{
    match c {
        Option::None => V3::zero(),
        Option::Some(t) => t.spec_approximate_force(target, theta),
    }
}

/// Well-formedness of an optional child.
pub open spec fn opt_wf(c: Option<Box<Octree_member>>) -> bool {
    match c {
        Option::None => true,
        Option::Some(t) => t.wf(),
    }
}

/// The moment of valid bodies is bounded by their total mass times the
/// coordinate range.
pub proof fn lemma_moment_vs_mass(s: Seq<Body>)
    requires
        all_valid(s),
    ensures
        v3_bounded(moment_sum(s), mass_sum(s) * (COORD_LIMIT as int)),
    decreases s.len(),
{
    if s.len() == 0 {
    } else {
        assert(all_valid(s.drop_last())) by {
            assert(forall|i: int| 0 <= i < s.len() - 1 ==> s.drop_last()[i] == s[i]);
        }
        lemma_moment_vs_mass(s.drop_last());
        let b = s.last();
        assert(b == s[s.len() - 1]);
        assert(valid_body(b@));
        let m = b.mass as int;
        assert(v3_bounded(body_moment(b), m * (COORD_LIMIT as int))) by (nonlinear_arith)
            requires
                0 <= m,
                v3_bounded(b.position@, COORD_LIMIT as int),
                m == b.mass as int,
        ;
        assert(mass_sum(s.drop_last()) * (COORD_LIMIT as int) + m * (COORD_LIMIT as int)
            == mass_sum(s) * (COORD_LIMIT as int)) by (nonlinear_arith)
            requires mass_sum(s) == mass_sum(s.drop_last()) + m;
    }
}

/// Truncated division of a moment component by a positive total mass.
fn div_moment(m: i128, tm: i64) -> (r: i64)
    requires
        1 <= tm <= TOTAL_MASS_CAP,
        -(tm as int) * (COORD_LIMIT as int) <= m as int <= (tm as int) * (COORD_LIMIT as int),
    ensures
        r as int == crate::physics::tdiv(m as int, tm as int),
        -COORD_LIMIT <= r <= COORD_LIMIT,
{
    proof {
        assert((tm as int) * (COORD_LIMIT as int) <= 0x1_0000_0000_0000_0000_0000_0000_0000int)
            by (nonlinear_arith)
            requires 1 <= (tm as int) <= TOTAL_MASS_CAP as int;
    }
    if m >= 0 {
        let mag: u128 = (m as u128) / (tm as u128);
        proof {
            vstd::arithmetic::div_mod::lemma_multiply_divide_le(m as int, tm as int,
                COORD_LIMIT as int);
            vstd::arithmetic::div_mod::lemma_div_pos_is_pos(m as int, tm as int);
        }
        mag as i64
    } else {
        let neg: i128 = -m;
        let mag: u128 = (neg as u128) / (tm as u128);
        proof {
            vstd::arithmetic::div_mod::lemma_multiply_divide_le(neg as int, tm as int,
                COORD_LIMIT as int);
            vstd::arithmetic::div_mod::lemma_div_pos_is_pos(neg as int, tm as int);
        }
        -(mag as i64)
    }
}

impl Octree_member {
    /// The center of mass of the subtree (see `spec_center_of_mass`).
    pub fn center_of_mass(&self) -> (r: Vec3)
        requires
            self.wf(),
        ensures
            r@ == self.spec_center_of_mass(),
    {
        match self {
            Octree_member::Octree_leaf { body, geometric_center, .. } => match body {
                Option::None => *geometric_center,
                Option::Some(b) => b.position,
            },
            Octree_member::Octree_node { geometric_center, mass_moment, total_mass, .. } => {
                if *total_mass == 0 {
                    *geometric_center
                } else {
                    proof {
                        lemma_bodies_in_cube(*self);
                        lemma_moment_vs_mass(self.bodies());
                    }
                    Vec3 {
                        x: div_moment(mass_moment.x, *total_mass),
                        y: div_moment(mass_moment.y, *total_mass),
                        z: div_moment(mass_moment.z, *total_mass),
                    }
                }
            },
        }
    }

    /// The Barnes-Hut approximate force on `target` from this subtree (see
    /// `spec_approximate_force`).
    #[verifier::rlimit(100)]
    #[verifier::spinoff_prover]
    pub fn approximate_force(&self, target: &Body, theta: i64) -> (r: Vec3)
        requires
            self.wf(),
            valid_body(target@),
            0 <= theta <= THETA_MAX,
        ensures
            r@ == self.spec_approximate_force(target@, theta as int),
            v3_bounded(r@, self.bodies().len() * (FORCE_LIMIT as int)),
        decreases *self, 1int,
    {
        proof {
            assert(self.bodies().len() * (FORCE_LIMIT as int) >= 0) by (nonlinear_arith)
                requires self.bodies().len() >= 0;
        }
        match self {
            Octree_member::Octree_leaf { body, .. } => match body {
                Option::None => Vec3::zero(),
                Option::Some(o) => {
                    proof {
                        assert(self.bodies() == seq![*o]);
                        assert(o@.mass * target@.mass <= MASS_PRODUCT_CAP as int)
                            by (nonlinear_arith)
                            requires
                                0 <= o@.mass <= MASS_LIMIT as int,
                                0 <= target@.mass <= MASS_LIMIT as int,
                        ;
                    }
                    crate::physics::gravitational_force(o, target)
                },
            },
            Octree_member::Octree_node {
                geometric_center,
                mass_moment,
                total_mass,
                side_length,
                population,
                tnw,
                tne,
                tsw,
                tse,
                bnw,
                bne,
                bsw,
                bse,
            } => {
                if *total_mass == 0 {
                    Vec3::zero()
                } else {
                    proof {
                        lemma_bodies_in_cube(*self);
                        lemma_moment_vs_mass(self.bodies());
                    }
                    let com = self.center_of_mass();
                    proof {
                        let tm = total_mass as int;
                        let mm = mass_moment@;
                        crate::physics::lemma_tdiv_bound(mm.x, tm, COORD_LIMIT as int);
                        crate::physics::lemma_tdiv_bound(mm.y, tm, COORD_LIMIT as int);
                        crate::physics::lemma_tdiv_bound(mm.z, tm, COORD_LIMIT as int);
                        assert(-COORD_LIMIT <= com.x <= COORD_LIMIT && -COORD_LIMIT <= com.y
                            <= COORD_LIMIT && -COORD_LIMIT <= com.z <= COORD_LIMIT);
                    }
                    let dx: i64 = target.position.x - com.x;
                    let dy: i64 = target.position.y - com.y;
                    let dz: i64 = target.position.z - com.z;
                    proof {
                        assert(0 <= (dx as int) * (dx as int)
                            <= 4_000_000_000_000_000_000_000_000int) by (nonlinear_arith)
                            requires -2_000_000_000_000int <= dx as int <= 2_000_000_000_000int;
                        assert(0 <= (dy as int) * (dy as int)
                            <= 4_000_000_000_000_000_000_000_000int) by (nonlinear_arith)
                            requires -2_000_000_000_000int <= dy as int <= 2_000_000_000_000int;
                        assert(0 <= (dz as int) * (dz as int)
                            <= 4_000_000_000_000_000_000_000_000int) by (nonlinear_arith)
                            requires -2_000_000_000_000int <= dz as int <= 2_000_000_000_000int;
                    }
                    let d2: i128 = (dx as i128) * (dx as i128) + (dy as i128) * (dy as i128) + (
                    dz as i128) * (dz as i128);
                    let dist: u64 = crate::physics::isqrt(d2 as u128);
                    let lhs: i128 = (*side_length as i128) * (SCALE as i128);
                    proof {
                        assert(0 <= (side_length as int) * (SCALE as int)
                            <= 0x1_0000_0000_0000_0000_0000int) by (nonlinear_arith)
                            requires 1 <= (side_length as int) <= SIDE_MAX as int;
                        assert(0 <= (theta as int) * (dist as int)
                            <= 0x1_0000_0000_0000_0000_0000_0000int) by (nonlinear_arith)
                            requires
                                0 <= (theta as int) <= THETA_MAX as int,
                                0 <= (dist as int) < 0x1_0000_0000_0000int,
                        ;
                    }
                    let rhs: i128 = (theta as i128) * (dist as i128);
                    if lhs < rhs {
                        let pseudo = Body {
                            mass: *total_mass,
                            position: com,
                            velocity: Vec3::zero(),
                        };
                        proof {
                            assert(pseudo@.mass * target@.mass <= MASS_PRODUCT_CAP as int)
                                by (nonlinear_arith)
                                requires
                                    0 <= pseudo@.mass <= TOTAL_MASS_CAP as int,
                                    0 <= target@.mass <= MASS_LIMIT as int,
                            ;
                            if self.bodies().len() == 0 {
                                assert(mass_sum(self.bodies()) == 0);
                            }
                            assert(1 * (FORCE_LIMIT as int) <= self.bodies().len() * (
                            FORCE_LIMIT as int)) by (nonlinear_arith)
                                requires self.bodies().len() >= 1;
                        }
                        crate::physics::gravitational_force(&pseudo, target)
                    } else {
                        let ghost s1 = opt_bodies(*tnw);
                        let ghost s2 = opt_bodies(*tne);
                        let ghost s3 = opt_bodies(*tsw);
                        let ghost s4 = opt_bodies(*tse);
                        let ghost s5 = opt_bodies(*bnw);
                        let ghost s6 = opt_bodies(*bne);
                        let ghost s7 = opt_bodies(*bsw);
                        let ghost s8 = opt_bodies(*bse);
                        let ghost full = s1 + s2 + s3 + s4 + s5 + s6 + s7 + s8;
                        proof {
                            assert(self.bodies() == full);
                            assert(full.len() <= POP_CAP);
                        }
                        let f1 = approx_child(tnw, target, theta);
                        let f2 = approx_child(tne, target, theta);
                        let f3 = approx_child(tsw, target, theta);
                        let f4 = approx_child(tse, target, theta);
                        let f5 = approx_child(bnw, target, theta);
                        let f6 = approx_child(bne, target, theta);
                        let f7 = approx_child(bsw, target, theta);
                        let f8 = approx_child(bse, target, theta);
                        proof {
                            let fl = FORCE_LIMIT as int;
                            assert(v3_bounded(f1@, (POP_CAP as int) * fl)
                                && v3_bounded(f2@, (POP_CAP as int) * fl)
                                && v3_bounded(f3@, (POP_CAP as int) * fl)
                                && v3_bounded(f4@, (POP_CAP as int) * fl)
                                && v3_bounded(f5@, (POP_CAP as int) * fl)
                                && v3_bounded(f6@, (POP_CAP as int) * fl)
                                && v3_bounded(f7@, (POP_CAP as int) * fl)
                                && v3_bounded(f8@, (POP_CAP as int) * fl)) by (nonlinear_arith)
                                requires
                                    v3_bounded(f1@, s1.len() * fl),
                                    v3_bounded(f2@, s2.len() * fl),
                                    v3_bounded(f3@, s3.len() * fl),
                                    v3_bounded(f4@, s4.len() * fl),
                                    v3_bounded(f5@, s5.len() * fl),
                                    v3_bounded(f6@, s6.len() * fl),
                                    v3_bounded(f7@, s7.len() * fl),
                                    v3_bounded(f8@, s8.len() * fl),
                                    fl == FORCE_LIMIT as int,
                                    0 <= s1.len() <= POP_CAP as int,
                                    0 <= s2.len() <= POP_CAP as int,
                                    0 <= s3.len() <= POP_CAP as int,
                                    0 <= s4.len() <= POP_CAP as int,
                                    0 <= s5.len() <= POP_CAP as int,
                                    0 <= s6.len() <= POP_CAP as int,
                                    0 <= s7.len() <= POP_CAP as int,
                                    0 <= s8.len() <= POP_CAP as int,
                            ;
                        }
                        let g12 = f1.plus(&f2);
                        let g13 = g12.plus(&f3);
                        let g14 = g13.plus(&f4);
                        let g15 = g14.plus(&f5);
                        let g16 = g15.plus(&f6);
                        let g17 = g16.plus(&f7);
                        let g18 = g17.plus(&f8);
                        proof {
                            let fl = FORCE_LIMIT as int;
                            assert(s1.len() * fl + s2.len() * fl + s3.len() * fl + s4.len() * fl
                                + s5.len() * fl + s6.len() * fl + s7.len() * fl + s8.len() * fl
                                == full.len() * fl) by (nonlinear_arith)
                                requires full.len() == s1.len() + s2.len() + s3.len() + s4.len()
                                    + s5.len() + s6.len() + s7.len() + s8.len();
                        }
                        g18
                    }
                }
            },
        }
    }
}

/// The Barnes-Hut contribution of an optional child (see `spec_approx_opt`).
fn approx_child(c: &Option<Box<Octree_member>>, target: &Body, theta: i64) -> (r: Vec3)
    requires
        opt_wf(*c),
        valid_body(target@),
        0 <= theta <= THETA_MAX,
    ensures
        r@ == spec_approx_opt(*c, target@, theta as int),
        v3_bounded(r@, opt_bodies(*c).len() * (FORCE_LIMIT as int)),
    decreases *c, 2int,
{
    match c {
        Option::None => Vec3::zero(),
        Option::Some(t) => t.approximate_force(target, theta),
    }
}

/// The Barnes-Hut degenerate case: with opening angle zero the traversal
/// never approximates, so it equals the exact pairwise force sum over all
/// bodies of the subtree.
pub proof fn lemma_theta_zero_exact(t: Octree_member, target: BodyView)
    requires
        t.wf(),
        valid_body(target),
    ensures
        t.spec_approximate_force(target, 0) == spec_force_sum(t.bodies(), target),
    decreases t, 1int,
{
    match t {
        Octree_member::Octree_leaf { body, .. } => match body {
            Option::None => {
                assert(t.spec_approximate_force(target, 0) == V3::zero());
                assert(spec_force_sum(t.bodies(), target) == V3::zero());
            },
            Option::Some(o) => {
                reveal_with_fuel(spec_force_sum, 3);
                assert(t.bodies() == seq![o]);
                assert(seq![o].drop_last() =~= Seq::<Body>::empty());
                assert(seq![o].last() == o);
                assert(t.spec_approximate_force(target, 0)
                    == crate::physics::spec_gravitational_force(o@, target));
                crate::physics::lemma_plus_zero(
                    crate::physics::spec_gravitational_force(o@, target),
                );
                assert(spec_force_sum(t.bodies(), target)
                    == crate::physics::spec_gravitational_force(o@, target));
            },
        },
        Octree_member::Octree_node {
            geometric_center,
            mass_moment,
            total_mass,
            side_length,
            population,
            tnw,
            tne,
            tsw,
            tse,
            bnw,
            bne,
            bsw,
            bse,
        } => {
            let s1 = opt_bodies(tnw);
            let s2 = opt_bodies(tne);
            let s3 = opt_bodies(tsw);
            let s4 = opt_bodies(tse);
            let s5 = opt_bodies(bnw);
            let s6 = opt_bodies(bne);
            let s7 = opt_bodies(bsw);
            let s8 = opt_bodies(bse);
            let full = s1 + s2 + s3 + s4 + s5 + s6 + s7 + s8;
            assert(t.bodies() == full);
            if total_mass == 0 {
                lemma_bodies_in_cube(t);
                lemma_inert_force_sum(full, target);
                assert(t.spec_approximate_force(target, 0) == V3::zero());
                assert(spec_force_sum(t.bodies(), target) == V3::zero());
            } else {
                let com = t.spec_center_of_mass();
                let dist = crate::physics::sqrt_floor(
                    crate::physics::dist2(target.position, com),
                );
                assert(crate::physics::dist2(target.position, com) >= 0) by (nonlinear_arith);
                crate::physics::lemma_sqrt_floor(crate::physics::dist2(target.position, com));
                assert((side_length as int) * (SCALE as int) > 0) by (nonlinear_arith)
                    requires side_length as int >= 2;
                assert(!(side_length * SCALE < 0 * dist));
                lemma_approx_opt_zero(tnw, target);
                lemma_approx_opt_zero(tne, target);
                lemma_approx_opt_zero(tsw, target);
                lemma_approx_opt_zero(tse, target);
                lemma_approx_opt_zero(bnw, target);
                lemma_approx_opt_zero(bne, target);
                lemma_approx_opt_zero(bsw, target);
                lemma_approx_opt_zero(bse, target);
                lemma_force_sum_concat(s1, s2, target);
                lemma_force_sum_concat(s1 + s2, s3, target);
                lemma_force_sum_concat(s1 + s2 + s3, s4, target);
                lemma_force_sum_concat(s1 + s2 + s3 + s4, s5, target);
                lemma_force_sum_concat(s1 + s2 + s3 + s4 + s5, s6, target);
                lemma_force_sum_concat(s1 + s2 + s3 + s4 + s5 + s6, s7, target);
                lemma_force_sum_concat(s1 + s2 + s3 + s4 + s5 + s6 + s7, s8, target);
                assert(t.spec_approximate_force(target, 0) == spec_approx_opt(tnw, target, 0).plus(
                    spec_approx_opt(tne, target, 0),
                ).plus(spec_approx_opt(tsw, target, 0)).plus(spec_approx_opt(tse, target, 0)).plus(
                    spec_approx_opt(bnw, target, 0),
                ).plus(spec_approx_opt(bne, target, 0)).plus(spec_approx_opt(bsw, target, 0)).plus(
                    spec_approx_opt(bse, target, 0),
                ));
                assert(spec_force_sum(full, target) == spec_force_sum(s1, target).plus(
                    spec_force_sum(s2, target),
                ).plus(spec_force_sum(s3, target)).plus(spec_force_sum(s4, target)).plus(
                    spec_force_sum(s5, target),
                ).plus(spec_force_sum(s6, target)).plus(spec_force_sum(s7, target)).plus(
                    spec_force_sum(s8, target),
                ));
            }
        },
    }
}

/// `lemma_theta_zero_exact` for an optional child.
pub proof fn lemma_approx_opt_zero(c: Option<Box<Octree_member>>, target: BodyView)
    requires
        opt_wf(c),
        valid_body(target),
    ensures
        spec_approx_opt(c, target, 0) == spec_force_sum(opt_bodies(c), target),
    decreases c, 2int,
{
    match c {
        Option::None => {},
        Option::Some(t) => {
            lemma_theta_zero_exact(*t, target);
        },
    }
}

/// Pairwise distinct positions.
pub open spec fn distinct_positions(s: Seq<Body>) -> bool {
    forall|i: int, j: int| 0 <= i < j < s.len() ==> (#[trigger] s[i]).position@ != (
    #[trigger] s[j]).position@
}

/// The least x coordinate over a non-empty body set.
pub open spec fn pos_min_x(s: Seq<Body>) -> int
    decreases s.len(),
{
    if s.len() <= 1 {
        s[0].position@.x
    } else {
        let m = pos_min_x(s.drop_last());
        if s.last().position@.x < m {
            s.last().position@.x
        } else {
            m
        }
    }
}

/// The greatest x coordinate over a non-empty body set.
pub open spec fn pos_max_x(s: Seq<Body>) -> int
    decreases s.len(),
{
    if s.len() <= 1 {
        s[0].position@.x
    } else {
        let m = pos_max_x(s.drop_last());
        if s.last().position@.x > m {
            s.last().position@.x
        } else {
            m
        }
    }
}

/// The least y coordinate over a non-empty body set.
pub open spec fn pos_min_y(s: Seq<Body>) -> int
    decreases s.len(),
{
    if s.len() <= 1 {
        s[0].position@.y
    } else {
        let m = pos_min_y(s.drop_last());
        if s.last().position@.y < m {
            s.last().position@.y
        } else {
            m
        }
    }
}

/// The greatest y coordinate over a non-empty body set.
pub open spec fn pos_max_y(s: Seq<Body>) -> int
    decreases s.len(),
{
    if s.len() <= 1 {
        s[0].position@.y
    } else {
        let m = pos_max_y(s.drop_last());
        if s.last().position@.y > m {
            s.last().position@.y
        } else {
            m
        }
    }
}

/// The least z coordinate over a non-empty body set.
pub open spec fn pos_min_z(s: Seq<Body>) -> int
    decreases s.len(),
{
    if s.len() <= 1 {
        s[0].position@.z
    } else {
        let m = pos_min_z(s.drop_last());
        if s.last().position@.z < m {
            s.last().position@.z
        } else {
            m
        }
    }
}

/// The greatest z coordinate over a non-empty body set.
pub open spec fn pos_max_z(s: Seq<Body>) -> int
    decreases s.len(),
{
    if s.len() <= 1 {
        s[0].position@.z
    } else {
        let m = pos_max_z(s.drop_last());
        if s.last().position@.z > m {
            s.last().position@.z
        } else {
            m
        }
    }
}

/// The largest axis extent of a non-empty body set: the side of its
/// smallest enclosing cube.
pub open spec fn spec_extent(s: Seq<Body>) -> int {
    let dx = pos_max_x(s) - pos_min_x(s);
    let dy = pos_max_y(s) - pos_min_y(s);
    let dz = pos_max_z(s) - pos_min_z(s);
    if dx >= dy {
        if dx >= dz {
            dx
        } else {
            dz
        }
    } else {
        if dy >= dz {
            dy
        } else {
            dz
        }
    }
}

/// The componentwise minimum corner, maximum corner and midpoint of the
/// positions of a non-empty body set (the south-west-bottom and
/// north-east-top corners of the axis-aligned bounding box).
pub fn bounding_box_with_center(objects: &Vec<Body>) -> (r: (Vec3, Vec3, Vec3))
    requires
        objects.len() >= 1,
        all_valid(objects@),
    ensures
        r.0@.x == pos_min_x(objects@),
        r.0@.y == pos_min_y(objects@),
        r.0@.z == pos_min_z(objects@),
        r.1@.x == pos_max_x(objects@),
        r.1@.y == pos_max_y(objects@),
        r.1@.z == pos_max_z(objects@),
        forall|i: int| 0 <= i < objects@.len() ==> {
            let p = (#[trigger] objects@[i]).position@;
            r.0@.x <= p.x <= r.1@.x && r.0@.y <= p.y <= r.1@.y && r.0@.z <= p.z <= r.1@.z
        },
        v3_bounded(r.0@, COORD_LIMIT as int),
        v3_bounded(r.1@, COORD_LIMIT as int),
        r.0@.x <= r.1@.x && r.0@.y <= r.1@.y && r.0@.z <= r.1@.z,
        r.2@.x == r.0@.x + (r.1@.x - r.0@.x) / 2,
        r.2@.y == r.0@.y + (r.1@.y - r.0@.y) / 2,
        r.2@.z == r.0@.z + (r.1@.z - r.0@.z) / 2,
{
    let first = objects[0];
    proof {
        assert(valid_body(objects@[0]@));
        assert(objects@.take(1)[0] == objects@[0]);
        assert(objects@.take(1).len() == 1);
    }
    let mut min_x: i64 = first.position.x;
    let mut min_y: i64 = first.position.y;
    let mut min_z: i64 = first.position.z;
    let mut max_x: i64 = first.position.x;
    let mut max_y: i64 = first.position.y;
    let mut max_z: i64 = first.position.z;
    let n: usize = objects.len();
    let mut i: usize = 1;
    while i < n
        invariant
            n == objects@.len(),
            1 <= i <= n,
            all_valid(objects@),
            -COORD_LIMIT <= min_x <= max_x <= COORD_LIMIT,
            -COORD_LIMIT <= min_y <= max_y <= COORD_LIMIT,
            -COORD_LIMIT <= min_z <= max_z <= COORD_LIMIT,
            min_x as int == pos_min_x(objects@.take(i as int)),
            min_y as int == pos_min_y(objects@.take(i as int)),
            min_z as int == pos_min_z(objects@.take(i as int)),
            max_x as int == pos_max_x(objects@.take(i as int)),
            max_y as int == pos_max_y(objects@.take(i as int)),
            max_z as int == pos_max_z(objects@.take(i as int)),
            forall|j: int| 0 <= j < i ==> {
                let p = (#[trigger] objects@[j]).position@;
                min_x <= p.x <= max_x && min_y <= p.y <= max_y && min_z <= p.z <= max_z
            },
        decreases n - i,
    {
        let ob = objects[i];
        proof {
            assert(valid_body(objects@[i as int]@));
            assert(objects@[i as int] == ob);
            let t1 = objects@.take(i as int + 1);
            assert(t1.drop_last() =~= objects@.take(i as int));
            assert(t1.last() == objects@[i as int]);
            assert(t1.len() == i as int + 1);
        }
        if ob.position.x < min_x {
            min_x = ob.position.x;
        }
        if ob.position.y < min_y {
            min_y = ob.position.y;
        }
        if ob.position.z < min_z {
            min_z = ob.position.z;
        }
        if ob.position.x > max_x {
            max_x = ob.position.x;
        }
        if ob.position.y > max_y {
            max_y = ob.position.y;
        }
        if ob.position.z > max_z {
            max_z = ob.position.z;
        }
        i = i + 1;
    }
    proof {
        assert(objects@.take(n as int) =~= objects@);
    }
    let bsw = Vec3 { x: min_x, y: min_y, z: min_z };
    let tne = Vec3 { x: max_x, y: max_y, z: max_z };
    let center = bounding_box_center(&bsw, &tne);
    (bsw, tne, center)
}

/// The midpoint of two corners, componentwise `min + (max - min) / 2`.
pub fn bounding_box_center(min: &Vec3, max: &Vec3) -> (r: Vec3)
    requires
        v3_bounded(min@, COORD_LIMIT as int),
        v3_bounded(max@, COORD_LIMIT as int),
        min@.x <= max@.x,
        min@.y <= max@.y,
        min@.z <= max@.z,
    ensures
        r@.x == min@.x + (max@.x - min@.x) / 2,
        r@.y == min@.y + (max@.y - min@.y) / 2,
        r@.z == min@.z + (max@.z - min@.z) / 2,
{
    let x: i64 = min.x + (((max.x - min.x) as u64) / 2) as i64;
    let y: i64 = min.y + (((max.y - min.y) as u64) / 2) as i64;
    let z: i64 = min.z + (((max.z - min.z) as u64) / 2) as i64;
    Vec3 { x, y, z }
}

/// The largest axis extent of a bounding box: the side of the smallest
/// enclosing cube.
pub fn min_cube_side_len(min: &Vec3, max_p: &Vec3) -> (r: i64)
    requires
        v3_bounded(min@, COORD_LIMIT as int),
        v3_bounded(max_p@, COORD_LIMIT as int),
        min@.x <= max_p@.x,
        min@.y <= max_p@.y,
        min@.z <= max_p@.z,
    ensures
        r >= max_p@.x - min@.x,
        r >= max_p@.y - min@.y,
        r >= max_p@.z - min@.z,
        r == max_p@.x - min@.x || r == max_p@.y - min@.y || r == max_p@.z - min@.z,
{
    let x_dist: i64 = max_p.x - min.x;
    let y_dist: i64 = max_p.y - min.y;
    let z_dist: i64 = max_p.z - min.z;
    if x_dist >= y_dist {
        if x_dist >= z_dist {
            x_dist
        } else {
            z_dist
        }
    } else {
        if y_dist >= z_dist {
            y_dist
        } else {
            z_dist
        }
    }
}

/// The smallest power of two at least `need`.
fn round_up_pow2(need: i64) -> (s: i64)
    requires
        1 <= need <= 2_000_000_000_001,
    ensures
        is_pow2(s as int),
        need <= s <= SIDE_MAX,
        s as int / 2 < need,
        s as int == grow_pow2(need as int, 1),
{
    let mut s: i64 = 1;
    while s < need
        invariant
            is_pow2(s as int),
            1 <= s <= SIDE_MAX,
            need <= 2_000_000_000_001,
            s as int / 2 < need,
            grow_pow2(need as int, s as int) == grow_pow2(need as int, 1),
        decreases SIDE_MAX - s,
    {
        proof {
            vstd::arithmetic::div_mod::lemma_fundamental_div_mod(2 * (s as int), 2);
            assert(grow_pow2(need as int, s as int) == grow_pow2(need as int, 2 * (s as int)));
        }
        s = s * 2;
    }
    proof {
        assert(grow_pow2(need as int, s as int) == s as int);
    }
    s
}

/// What building the index over a body set pins down: a well-formed tree
/// holding exactly those bodies, over the deterministic root cube — the
/// smallest power-of-two side above the largest axis extent, centered one
/// unit below the minimum corner plus half the (rounded-up) side on every
/// axis.
pub open spec fn built_over(t: Octree_member, objects: Seq<Body>) -> bool {
    &&& t.wf()
    &&& t.bodies().to_multiset() == objects.to_multiset()
    &&& is_pow2(t.spec_side())
    &&& t.spec_side() / 2 <= spec_extent(objects) < t.spec_side()
    &&& t.spec_center().x == pos_min_x(objects) - 1 + (t.spec_side() + 1) / 2
    &&& t.spec_center().y == pos_min_y(objects) - 1 + (t.spec_side() + 1) / 2
    &&& t.spec_center().z == pos_min_z(objects) - 1 + (t.spec_side() + 1) / 2
}


/// The tree that inserting `b` into `t` yields: the specification twin of
/// `add`, a total function (the guards that keep it well-founded are
/// exactly the facts `add` establishes on well-formed trees, so on every
/// input `add` accepts the two agree — `add` ensures it).
pub open spec fn spec_add(t: Octree_member, b: Body) -> Octree_member
    decreases t.spec_side(), t.rank(), 1int,
{
    match t {
        Octree_member::Octree_leaf { body, geometric_center, side_length } => match body {
            Option::None => Octree_member::Octree_leaf {
                body: Some(b),
                geometric_center,
                side_length,
            },
            Option::Some(o) => {
                let base = Octree_member::Octree_node {
                    geometric_center,
                    mass_moment: MassMoment { x: 0, y: 0, z: 0 },
                    total_mass: 0,
                    side_length,
                    population: 0,
                    tnw: None,
                    tne: None,
                    tsw: None,
                    tse: None,
                    bnw: None,
                    bne: None,
                    bsw: None,
                    bse: None,
                };
                let t1 = spec_add(base, o);
                if t1.spec_side() == side_length as int && t1.rank() == 4 {
                    spec_add(t1, b)
                } else {
                    t1
                }
            },
        },
        Octree_member::Octree_node {
            geometric_center,
            mass_moment,
            total_mass,
            side_length,
            population,
            tnw,
            tne,
            tsw,
            tse,
            bnw,
            bne,
            bsw,
            bse,
        } => {
            let new_total = ((total_mass + b.mass) as i64);
            let new_pop = ((population + 1) as usize);
            let new_moment = MassMoment {
                x: ((mass_moment.x + b.mass * b.position.x) as i128),
                y: ((mass_moment.y + b.mass * b.position.y) as i128),
                z: ((mass_moment.z + b.mass * b.position.z) as i128),
            };
            match corner_of(geometric_center@, b.position@) {
                Corner::Tnw => Octree_member::Octree_node {
                    geometric_center,
                    mass_moment: new_moment,
                    total_mass: new_total,
                    side_length,
                    population: new_pop,
                    tnw: Some(
                        Box::new(
                            spec_child_after_insert(
                                tnw,
                                geometric_center,
                                side_length,
                                Corner::Tnw,
                                b,
                            ),
                        ),
                    ),
                    tne,
                    tsw,
                    tse,
                    bnw,
                    bne,
                    bsw,
                    bse,
                },
                Corner::Tne => Octree_member::Octree_node {
                    geometric_center,
                    mass_moment: new_moment,
                    total_mass: new_total,
                    side_length,
                    population: new_pop,
                    tnw,
                    tne: Some(
                        Box::new(
                            spec_child_after_insert(
                                tne,
                                geometric_center,
                                side_length,
                                Corner::Tne,
                                b,
                            ),
                        ),
                    ),
                    tsw,
                    tse,
                    bnw,
                    bne,
                    bsw,
                    bse,
                },
                Corner::Tsw => Octree_member::Octree_node {
                    geometric_center,
                    mass_moment: new_moment,
                    total_mass: new_total,
                    side_length,
                    population: new_pop,
                    tnw,
                    tne,
                    tsw: Some(
                        Box::new(
                            spec_child_after_insert(
                                tsw,
                                geometric_center,
                                side_length,
                                Corner::Tsw,
                                b,
                            ),
                        ),
                    ),
                    tse,
                    bnw,
                    bne,
                    bsw,
                    bse,
                },
                Corner::Tse => Octree_member::Octree_node {
                    geometric_center,
                    mass_moment: new_moment,
                    total_mass: new_total,
                    side_length,
                    population: new_pop,
                    tnw,
                    tne,
                    tsw,
                    tse: Some(
                        Box::new(
                            spec_child_after_insert(
                                tse,
                                geometric_center,
                                side_length,
                                Corner::Tse,
                                b,
                            ),
                        ),
                    ),
                    bnw,
                    bne,
                    bsw,
                    bse,
                },
                Corner::Bnw => Octree_member::Octree_node {
                    geometric_center,
                    mass_moment: new_moment,
                    total_mass: new_total,
                    side_length,
                    population: new_pop,
                    tnw,
                    tne,
                    tsw,
                    tse,
                    bnw: Some(
                        Box::new(
                            spec_child_after_insert(
                                bnw,
                                geometric_center,
                                side_length,
                                Corner::Bnw,
                                b,
                            ),
                        ),
                    ),
                    bne,
                    bsw,
                    bse,
                },
                Corner::Bne => Octree_member::Octree_node {
                    geometric_center,
                    mass_moment: new_moment,
                    total_mass: new_total,
                    side_length,
                    population: new_pop,
                    tnw,
                    tne,
                    tsw,
                    tse,
                    bnw,
                    bne: Some(
                        Box::new(
                            spec_child_after_insert(
                                bne,
                                geometric_center,
                                side_length,
                                Corner::Bne,
                                b,
                            ),
                        ),
                    ),
                    bsw,
                    bse,
                },
                Corner::Bsw => Octree_member::Octree_node {
                    geometric_center,
                    mass_moment: new_moment,
                    total_mass: new_total,
                    side_length,
                    population: new_pop,
                    tnw,
                    tne,
                    tsw,
                    tse,
                    bnw,
                    bne,
                    bsw: Some(
                        Box::new(
                            spec_child_after_insert(
                                bsw,
                                geometric_center,
                                side_length,
                                Corner::Bsw,
                                b,
                            ),
                        ),
                    ),
                    bse,
                },
                Corner::Bse => Octree_member::Octree_node {
                    geometric_center,
                    mass_moment: new_moment,
                    total_mass: new_total,
                    side_length,
                    population: new_pop,
                    tnw,
                    tne,
                    tsw,
                    tse,
                    bnw,
                    bne,
                    bsw,
                    bse: Some(
                        Box::new(
                            spec_child_after_insert(
                                bse,
                                geometric_center,
                                side_length,
                                Corner::Bse,
                                b,
                            ),
                        ),
                    ),
                },
            }
        },
    }
}

/// The child slot after inserting `b` into corner `k`: the specification
/// twin of `insert_child`.
pub open spec fn spec_child_after_insert(
    c: Option<Box<Octree_member>>,
    center: Vec3,
    side: i64,
    k: Corner,
    b: Body,
) -> Octree_member
    decreases side as int, 0int, 0int,
{
    match c {
        Option::None => Octree_member::Octree_leaf {
            body: Some(b),
            geometric_center: (Vec3 {
                x: child_center(center@, side as int, k).x as i64,
                y: child_center(center@, side as int, k).y as i64,
                z: child_center(center@, side as int, k).z as i64,
            }),
            side_length: ((side as int / 2) as i64),
        },
        Option::Some(t) => {
            if 0 <= t.spec_side() && t.spec_side() < side as int {
                spec_add(*t, b)
            } else {
                *t
            }
        },
    }
}

/// The smallest power of two at least `need`, reached by doubling from
/// `s`.
pub open spec fn grow_pow2(need: int, s: int) -> int
    decreases
            (if s < need {
                need - s
            } else {
                0int
            }),
{
    if s >= need || s < 1 {
        s
    } else {
        grow_pow2(need, 2 * s)
    }
}

/// The tree after inserting `objects[i..]` into `t`, left to right.
pub open spec fn spec_add_all(t: Octree_member, objects: Seq<Body>, i: int) -> Octree_member
    decreases objects.len() - i,
{
    if i < 0 || i >= objects.len() {
        t
    } else {
        spec_add_all(spec_add(t, objects[i]), objects, i + 1)
    }
}

/// The tree that `create_octree_sequential` builds over a body set: the
/// empty leaf over the deterministic root cube, then every body inserted
/// in order. Naming the built tree makes the whole approximate mode a
/// function of the body set alone.
pub open spec fn spec_build(objects: Seq<Body>) -> Octree_member {
    let side = grow_pow2(spec_extent(objects) + 1, 1);
    let center = Vec3 {
        x: ((pos_min_x(objects) - 1 + (side + 1) / 2) as i64),
        y: ((pos_min_y(objects) - 1 + (side + 1) / 2) as i64),
        z: ((pos_min_z(objects) - 1 + (side + 1) / 2) as i64),
    };
    let leaf = Octree_member::Octree_leaf {
        body: None,
        geometric_center: center,
        side_length: (side as i64),
    };
    spec_add_all(leaf, objects, 0)
}

/// Builds the spatial index for a body set: derives a power-of-two
/// enclosing cube (with a one-unit padding margin so boundary points stay
/// strictly interior on the open sides), then inserts every body.
///
/// The resulting tree is well-formed, holds exactly the given bodies, and
/// its aggregates are the exact total mass and mass moment of the set.
#[verifier::rlimit(100)]
#[verifier::spinoff_prover]
pub fn create_octree_sequential(objects: &Vec<Body>) -> (root: Box<Octree_member>)
    requires
        1 <= objects@.len() <= POP_CAP,
        all_valid(objects@),
        distinct_positions(objects@),
        mass_sum(objects@) <= TOTAL_MASS_CAP,
    ensures
        root.wf(),
        root.bodies().len() == objects@.len(),
        root.bodies().to_multiset() == objects@.to_multiset(),
        mass_sum(root.bodies()) == mass_sum(objects@),
        moment_sum(root.bodies()) == moment_sum(objects@),
        *root == spec_build(objects@),
        built_over(*root, objects@),
        forall|i: int|
            0 <= i < objects@.len() ==> in_cube(
                root.spec_center(),
                root.spec_side(),
                (#[trigger] objects@[i])@.position,
            ),
{
    let (start_bsw, start_tne, _start_center) = bounding_box_with_center(objects);
    let extent: i64 = min_cube_side_len(&start_bsw, &start_tne);
    let side: i64 = round_up_pow2(extent + 1);
    let half: i64 = ((side as u64 + 1) / 2) as i64;
    let center = Vec3 {
        x: start_bsw.x - 1 + half,
        y: start_bsw.y - 1 + half,
        z: start_bsw.z - 1 + half,
    };
    proof {
        if side >= 2 {
            lemma_pow2_split(side as int);
        }
        assert(box_ok(center@, side as int));
        assert forall|j: int| 0 <= j < objects@.len() implies in_cube(
            center@,
            side as int,
            (#[trigger] objects@[j])@.position,
        ) by {
            let p = objects@[j]@.position;
            if side == 1 {
                assert(extent == 0);
            }
        }
    }
    let mut root_node = Octree_member::Octree_leaf {
        body: None,
        geometric_center: center,
        side_length: side,
    };
    proof {
        assert(root_node.bodies() =~= Seq::<Body>::empty());
        assert(objects@.subrange(0, 0) =~= Seq::<Body>::empty());
        assert(Seq::<Body>::empty().to_multiset() =~= Multiset::<Body>::empty());
        assert(root_node.bodies().to_multiset() =~= Multiset::<Body>::empty());
        assert(extent as int == spec_extent(objects@));
        assert(side as int == grow_pow2(spec_extent(objects@) + 1, 1));
        assert(root_node == (Octree_member::Octree_leaf {
            body: None,
            geometric_center: (Vec3 {
                x: ((pos_min_x(objects@) - 1 + (side as int + 1) / 2) as i64),
                y: ((pos_min_y(objects@) - 1 + (side as int + 1) / 2) as i64),
                z: ((pos_min_z(objects@) - 1 + (side as int + 1) / 2) as i64),
            }),
            side_length: side,
        }));
        assert(spec_add_all(root_node, objects@, 0) == spec_build(objects@));
    }
    let n: usize = objects.len();
    let mut i: usize = 0;
    while i < n
        invariant
            n == objects@.len(),
            0 <= i <= n,
            1 <= n <= POP_CAP,
            all_valid(objects@),
            distinct_positions(objects@),
            mass_sum(objects@) <= TOTAL_MASS_CAP,
            forall|j: int| 0 <= j < objects@.len() ==> in_cube(
                center@,
                side as int,
                (#[trigger] objects@[j])@.position,
            ),
            root_node.wf(),
            root_node.spec_center() == center@,
            root_node.spec_side() == side as int,
            root_node.bodies().len() == i,
            root_node.bodies().to_multiset() == objects@.subrange(0, i as int).to_multiset(),
            mass_sum(root_node.bodies()) == mass_sum(objects@.subrange(0, i as int)),
            moment_sum(root_node.bodies()) == moment_sum(objects@.subrange(0, i as int)),
            spec_add_all(root_node, objects@, i as int) == spec_build(objects@),
        decreases n - i,
    {
        let ob = objects[i];
        let ghost pre = objects@.subrange(0, i as int);
        let ghost suf = objects@.subrange(i as int, n as int);
        proof {
            assert(valid_body(objects@[i as int]@));
            // the body's position is fresh in the tree
            assert forall|idx: int| 0 <= idx < root_node.bodies().len() implies (
            #[trigger] root_node.bodies()[idx]).position@ != ob@.position by {
                let x = root_node.bodies()[idx];
                assert(root_node.bodies().contains(x));
                assert(root_node.bodies().to_multiset().count(x) > 0);
                assert(pre.to_multiset().count(x) > 0);
                assert(pre.contains(x));
                let j = choose|j: int| 0 <= j < pre.len() && pre[j] == x;
                assert(objects@[j] == x);
                assert(objects@[i as int] == ob);
            }
            // room under the total-mass cap
            assert(objects@ =~= pre + suf);
            lemma_mass_sum_concat(pre, suf);
            assert(suf =~= seq![ob] + objects@.subrange(i as int + 1, n as int));
            lemma_mass_sum_concat(seq![ob], objects@.subrange(i as int + 1, n as int));
            assert(seq![ob].drop_last() =~= Seq::<Body>::empty());
            assert(all_valid(objects@.subrange(i as int + 1, n as int))) by {
                assert(forall|j: int| 0 <= j < n - i - 1 ==> #[trigger] (objects@.subrange(
                    i as int + 1,
                    n as int,
                )[j]) == objects@[i + 1 + j]);
            }
            lemma_mass_sum_nonneg(objects@.subrange(i as int + 1, n as int));
            reveal_with_fuel(mass_sum, 3);
            assert(mass_sum(seq![ob]) == ob@.mass);
            assert(in_cube(center@, side as int, ob@.position));
            assert(mass_sum(root_node.bodies()) + ob@.mass <= TOTAL_MASS_CAP);
        }
        let ghost prev = root_node;
        root_node = root_node.add(&ob);
        proof {
            assert(root_node == spec_add(prev, objects@[i as int]));
            assert(spec_add_all(prev, objects@, i as int) == spec_add_all(
                root_node,
                objects@,
                i as int + 1,
            ));
            assert(objects@.subrange(0, i as int + 1) =~= pre.push(ob));
            assert(pre.push(ob).drop_last() =~= pre);
            assert(pre.push(ob).last() == ob);
            assert(pre.push(ob).to_multiset() == pre.to_multiset().insert(ob));
        }
        i = i + 1;
    }
    proof {
        assert(objects@.subrange(0, n as int) =~= objects@);
        assert(spec_add_all(root_node, objects@, n as int) == root_node);
        assert(root_node == spec_build(objects@));
        assert(built_over(*Box::new(root_node), objects@)) by {
            assert(root_node.spec_side() == side as int);
            assert(side as int / 2 <= extent as int);
        }
    }
    Box::new(root_node)
}

/// The number of bodies of `s` sitting exactly at position `p`.
pub open spec fn pos_count(s: Seq<Body>, p: V3) -> int
    decreases s.len(),
{
    if s.len() == 0 {
        0
    } else {
        pos_count(s.drop_last(), p) + if s.last().position@ == p {
            1int
        } else {
            0int
        }
    }
}

/// `pos_count` distributes over concatenation.
pub proof fn lemma_pos_count_concat(a: Seq<Body>, b: Seq<Body>, p: V3)
    ensures
        pos_count(a + b, p) == pos_count(a, p) + pos_count(b, p),
    decreases b.len(),
{
    if b.len() == 0 {
        assert(a + b =~= a);
    } else {
        lemma_pos_count_concat(a, b.drop_last(), p);
        assert((a + b).drop_last() =~= a + b.drop_last());
        assert((a + b).last() == b.last());
    }
}

/// A sequence holds no body at `p` exactly when its count there is zero.
pub proof fn lemma_pos_count_zero(s: Seq<Body>, p: V3)
    ensures
        pos_count(s, p) >= 0,
        excludes_position(s, p) <==> pos_count(s, p) == 0,
    decreases s.len(),
{
    if s.len() == 0 {
    } else {
        lemma_pos_count_zero(s.drop_last(), p);
        assert(s.last() == s[s.len() - 1]);
        if excludes_position(s, p) {
            assert forall|i: int| 0 <= i < s.drop_last().len() implies (
            #[trigger] s.drop_last()[i]).position@ != p by {
                assert(s.drop_last()[i] == s[i]);
            }
        }
        if pos_count(s, p) == 0 {
            assert(excludes_position(s.drop_last(), p));
            assert(s[s.len() - 1].position@ != p);
            assert forall|i: int| 0 <= i < s.len() implies (#[trigger] s[i]).position@ != p by {
                if i < s.len() - 1 {
                    assert(s.drop_last()[i] == s[i]);
                }
            }
        }
    }
}

/// A body at index `i` with position `p` gives a positive count.
pub proof fn lemma_at_pos(s: Seq<Body>, i: int, p: V3)
    requires
        0 <= i < s.len(),
        s[i].position@ == p,
    ensures
        pos_count(s, p) >= 1,
    decreases s.len(),
{
    lemma_pos_count_zero(s.drop_last(), p);
    if i < s.len() - 1 {
        assert(s.drop_last()[i] == s[i]);
        lemma_at_pos(s.drop_last(), i, p);
    } else {
        assert(s.last() == s[i]);
    }
}

/// Two distinct indices with position `p` give a count of at least two.
pub proof fn lemma_two_at_pos(s: Seq<Body>, i: int, j: int, p: V3)
    requires
        0 <= i < j < s.len(),
        s[i].position@ == p,
        s[j].position@ == p,
    ensures
        pos_count(s, p) >= 2,
    decreases s.len(),
{
    if j < s.len() - 1 {
        assert(s.drop_last()[i] == s[i]);
        assert(s.drop_last()[j] == s[j]);
        lemma_two_at_pos(s.drop_last(), i, j, p);
        lemma_pos_count_zero(s.drop_last(), p);
    } else {
        assert(s.last() == s[j]);
        assert(s.drop_last()[i] == s[i]);
        lemma_at_pos(s.drop_last(), i, p);
    }
}

/// The child slot of corner `k` (None for leaves).
pub open spec fn child_of(t: Octree_member, k: Corner) -> Option<Box<Octree_member>> {
    match t {
        Octree_member::Octree_leaf { .. } => Option::None,
        Octree_member::Octree_node { tnw, tne, tsw, tse, bnw, bne, bsw, bse, .. } => match k {
            Corner::Tnw => tnw,
            Corner::Tne => tne,
            Corner::Tsw => tsw,
            Corner::Tse => tse,
            Corner::Bnw => bnw,
            Corner::Bne => bne,
            Corner::Bsw => bsw,
            Corner::Bse => bse,
        },
    }
}

/// In a well-formed tree, at most one body sits at any given position:
/// two bodies at one position would have to share every leaf of their
/// common octant descent, and a leaf holds at most one body.
pub proof fn lemma_one_body_per_position(t: Octree_member, p: V3)
    requires
        t.wf(),
    ensures
        pos_count(t.bodies(), p) <= 1,
    decreases t, 1int,
{
    match t {
        Octree_member::Octree_leaf { body, .. } => match body {
            Option::None => {},
            Option::Some(o) => {
                assert(t.bodies() == seq![o]);
                assert(seq![o].drop_last() =~= Seq::<Body>::empty());
                assert(seq![o].last() == o);
                reveal_with_fuel(pos_count, 3);
            },
        },
        Octree_member::Octree_node {
            geometric_center,
            side_length,
            tnw,
            tne,
            tsw,
            tse,
            bnw,
            bne,
            bsw,
            bse,
            ..
        } => {
            let c = geometric_center@;
            let sd = side_length as int;
            let s1 = opt_bodies(tnw);
            let s2 = opt_bodies(tne);
            let s3 = opt_bodies(tsw);
            let s4 = opt_bodies(tse);
            let s5 = opt_bodies(bnw);
            let s6 = opt_bodies(bne);
            let s7 = opt_bodies(bsw);
            let s8 = opt_bodies(bse);
            let full = s1 + s2 + s3 + s4 + s5 + s6 + s7 + s8;
            assert(t.bodies() == full);
            lemma_pos_count_concat(s1, s2, p);
            lemma_pos_count_concat(s1 + s2, s3, p);
            lemma_pos_count_concat(s1 + s2 + s3, s4, p);
            lemma_pos_count_concat(s1 + s2 + s3 + s4, s5, p);
            lemma_pos_count_concat(s1 + s2 + s3 + s4 + s5, s6, p);
            lemma_pos_count_concat(s1 + s2 + s3 + s4 + s5 + s6, s7, p);
            lemma_pos_count_concat(s1 + s2 + s3 + s4 + s5 + s6 + s7, s8, p);
            lemma_child_count(tnw, c, sd, Corner::Tnw, p);
            lemma_child_count(tne, c, sd, Corner::Tne, p);
            lemma_child_count(tsw, c, sd, Corner::Tsw, p);
            lemma_child_count(tse, c, sd, Corner::Tse, p);
            lemma_child_count(bnw, c, sd, Corner::Bnw, p);
            lemma_child_count(bne, c, sd, Corner::Bne, p);
            lemma_child_count(bsw, c, sd, Corner::Bsw, p);
            lemma_child_count(bse, c, sd, Corner::Bse, p);
            if in_cube(c, sd, p) {
                lemma_cube_descend(c, sd, p);
            }
        },
    }
}

/// The count of position `p` below one child: at most one, and zero
/// unless `p` lies in that child's octant cube.
pub proof fn lemma_child_count(
    ch: Option<Box<Octree_member>>,
    center: V3,
    side: int,
    k: Corner,
    p: V3,
)
    requires
        child_ok(ch, center, side, k),
        is_pow2(side),
        side >= 2,
    ensures
        pos_count(opt_bodies(ch), p) <= 1,
        !in_cube(child_center(center, side, k), side / 2, p) ==> pos_count(opt_bodies(ch), p)
            == 0,
    decreases ch, 2int,
{
    match ch {
        Option::None => {},
        Option::Some(tt) => {
            lemma_one_body_per_position(*tt, p);
            lemma_bodies_in_cube(*tt);
            lemma_pos_count_zero(opt_bodies(ch), p);
            if !in_cube(child_center(center, side, k), side / 2, p) {
                assert forall|i: int| 0 <= i < opt_bodies(ch).len() implies (
                #[trigger] opt_bodies(ch)[i]).position@ != p by {}
            }
        },
    }
}

/// In a well-formed tree, all body positions are pairwise distinct.
pub proof fn lemma_wf_distinct(t: Octree_member)
    requires
        t.wf(),
    ensures
        distinct_positions(t.bodies()),
{
    let s = t.bodies();
    assert forall|i: int, j: int| 0 <= i < j < s.len() implies (#[trigger] s[i]).position@ != (
    #[trigger] s[j]).position@ by {
        if s[i].position@ == s[j].position@ {
            lemma_two_at_pos(s, i, j, s[i].position@);
            lemma_one_body_per_position(t, s[i].position@);
        }
    }
}

/// One-axis half-open membership test.
fn within_axis(c: i64, s: i64, p: i64) -> (r: bool)
    requires
        -CENTER_BOUND <= c <= CENTER_BOUND,
        1 <= s <= SIDE_MAX,
        -COORD_LIMIT <= p <= COORD_LIMIT,
    ensures
        r == in_half_open(c as int, s as int, p as int),
{
    let d: i64 = p - c;
    let dd: i64 = 2 * d;
    -s < dd && dd <= s
}

/// Cube membership test for a query point.
fn within_cube(center: &Vec3, side: i64, p: &Vec3) -> (r: bool)
    requires
        v3_bounded(center@, CENTER_BOUND as int),
        1 <= side <= SIDE_MAX,
        v3_bounded(p@, COORD_LIMIT as int),
    ensures
        r == in_cube(center@, side as int, p@),
{
    within_axis(center.x, side, p.x) && within_axis(center.y, side, p.y) && within_axis(
        center.z,
        side,
        p.z,
    )
}

impl Octree_member {
    /// Does `p` lie in this node's cube?
    pub fn within_box(&self, p: &Vec3) -> (r: bool)
        requires
            box_ok(self.spec_center(), self.spec_side()),
            v3_bounded(p@, COORD_LIMIT as int),
        ensures
            r == in_cube(self.spec_center(), self.spec_side(), p@),
    {
        match self {
            Octree_member::Octree_node { geometric_center, side_length, .. } => within_cube(
                geometric_center,
                *side_length,
                p,
            ),
            Octree_member::Octree_leaf { geometric_center, side_length, .. } => within_cube(
                geometric_center,
                *side_length,
                p,
            ),
        }
    }

    /// The octant of `p` relative to this node's center; `p` must lie in
    /// the node's cube.
    pub fn fits_in_corner(&self, p: &Vec3) -> (r: Corner)
        requires
            box_ok(self.spec_center(), self.spec_side()),
            v3_bounded(p@, COORD_LIMIT as int),
            in_cube(self.spec_center(), self.spec_side(), p@),
        ensures
            r == corner_of(self.spec_center(), p@),
    {
        match self {
            Octree_member::Octree_node { geometric_center, .. } => corner_lookup(
                geometric_center,
                p,
            ),
            Octree_member::Octree_leaf { geometric_center, .. } => corner_lookup(
                geometric_center,
                p,
            ),
        }
    }

    /// Looks up the body at position `p` by repeated octant descent.
    ///
    /// Returns the body of the subtree sitting exactly at `p`, or `None`
    /// when no body of the subtree sits there; together with
    /// `lemma_one_body_per_position` this makes every inserted body
    /// reachable from the root through the octants of its position, held
    /// by exactly one leaf.
    #[verifier::rlimit(100)]
    #[verifier::spinoff_prover]
    pub fn find(&self, p: &Vec3) -> (r: Option<Body>)
        requires
            self.wf(),
            v3_bounded(p@, COORD_LIMIT as int),
        ensures
            match r {
                Option::Some(b) => self.bodies().contains(b) && b.position@ == p@,
                Option::None => excludes_position(self.bodies(), p@),
            },
        decreases *self, 1int,
    {
        match self {
            Octree_member::Octree_leaf { body, .. } => match body {
                Option::None => Option::None,
                Option::Some(o) => {
                    proof {
                        assert(self.bodies() == seq![*o]);
                        assert(seq![*o][0] == *o);
                    }
                    if o.position.x == p.x && o.position.y == p.y && o.position.z == p.z {
                        proof {
                            assert(self.bodies().contains(self.bodies()[0]));
                        }
                        Option::Some(*o)
                    } else {
                        Option::None
                    }
                },
            },
            Octree_member::Octree_node {
                geometric_center,
                side_length,
                tnw,
                tne,
                tsw,
                tse,
                bnw,
                bne,
                bsw,
                bse,
                ..
            } => {
                let ghost g = *self;
                let ghost c = geometric_center@;
                let ghost sd = side_length as int;
                let ghost s1 = opt_bodies(*tnw);
                let ghost s2 = opt_bodies(*tne);
                let ghost s3 = opt_bodies(*tsw);
                let ghost s4 = opt_bodies(*tse);
                let ghost s5 = opt_bodies(*bnw);
                let ghost s6 = opt_bodies(*bne);
                let ghost s7 = opt_bodies(*bsw);
                let ghost s8 = opt_bodies(*bse);
                let ghost full = s1 + s2 + s3 + s4 + s5 + s6 + s7 + s8;
                proof {
                    assert(g.bodies() == full);
                    lemma_child_in_cube(*tnw, c, sd, Corner::Tnw);
                    lemma_child_in_cube(*tne, c, sd, Corner::Tne);
                    lemma_child_in_cube(*tsw, c, sd, Corner::Tsw);
                    lemma_child_in_cube(*tse, c, sd, Corner::Tse);
                    lemma_child_in_cube(*bnw, c, sd, Corner::Bnw);
                    lemma_child_in_cube(*bne, c, sd, Corner::Bne);
                    lemma_child_in_cube(*bsw, c, sd, Corner::Bsw);
                    lemma_child_in_cube(*bse, c, sd, Corner::Bse);
                }
                let inside = self.within_box(p);
                if !inside {
                    proof {
                        assert forall|i: int| 0 <= i < full.len() implies (
                        #[trigger] full[i]).position@ != p@ by {
                            assert(in_cube(c, sd, full[i]@.position));
                        }
                    }
                    return Option::None;
                }
                let k = corner_lookup(geometric_center, p);
                let child: &Option<Box<Octree_member>> = match k {
                    Corner::Tnw => tnw,
                    Corner::Tne => tne,
                    Corner::Tsw => tsw,
                    Corner::Tse => tse,
                    Corner::Bnw => bnw,
                    Corner::Bne => bne,
                    Corner::Bsw => bsw,
                    Corner::Bse => bse,
                };
                proof {
                    assert(*child == child_of(g, k));
                    assert(child_ok(
                        *child,
                        c,
                        sd,
                        corner_of(c, p@),
                    ));
                }
                let r = match child {
                    Option::None => Option::None,
                    Option::Some(t) => t.find(p),
                };
                proof {
                    lemma_cube_descend(c, sd, p@);
                    lemma_sums8(s1, s2, s3, s4, s5, s6, s7, s8);
                    match r {
                        Option::Some(b) => {
                            let sk = opt_bodies(*child);
                            assert(sk == s1 || sk == s2 || sk == s3 || sk == s4 || sk == s5
                                || sk == s6 || sk == s7 || sk == s8);
                            assert(sk.contains(b));
                            assert(sk.to_multiset().count(b) > 0);
                            assert(full.to_multiset().count(b) > 0);
                            assert(full.contains(b));
                        },
                        Option::None => {
                            lemma_child_count(*tnw, c, sd, Corner::Tnw, p@);
                            lemma_child_count(*tne, c, sd, Corner::Tne, p@);
                            lemma_child_count(*tsw, c, sd, Corner::Tsw, p@);
                            lemma_child_count(*tse, c, sd, Corner::Tse, p@);
                            lemma_child_count(*bnw, c, sd, Corner::Bnw, p@);
                            lemma_child_count(*bne, c, sd, Corner::Bne, p@);
                            lemma_child_count(*bsw, c, sd, Corner::Bsw, p@);
                            lemma_child_count(*bse, c, sd, Corner::Bse, p@);
                            lemma_pos_count_zero(opt_bodies(*child), p@);
                            lemma_pos_count_concat(s1, s2, p@);
                            lemma_pos_count_concat(s1 + s2, s3, p@);
                            lemma_pos_count_concat(s1 + s2 + s3, s4, p@);
                            lemma_pos_count_concat(s1 + s2 + s3 + s4, s5, p@);
                            lemma_pos_count_concat(s1 + s2 + s3 + s4 + s5, s6, p@);
                            lemma_pos_count_concat(s1 + s2 + s3 + s4 + s5 + s6, s7, p@);
                            lemma_pos_count_concat(s1 + s2 + s3 + s4 + s5 + s6 + s7, s8, p@);
                            lemma_pos_count_zero(full, p@);
                        },
                    }
                }
                r
            },
        }
    }
}

impl Octree_member {
    /// Total mass of the subtree.
    pub fn total_mass(&self) -> (r: i64)
        requires
            self.wf(),
        ensures
            r as int == mass_sum(self.bodies()),
    {
        match self {
            Octree_member::Octree_node { total_mass, .. } => *total_mass,
            Octree_member::Octree_leaf { body, .. } => match body {
                Option::None => 0,
                Option::Some(b) => {
                    proof {
                        assert(self.bodies() == seq![*b]);
                        assert(seq![*b].drop_last() =~= Seq::<Body>::empty());
                        assert(seq![*b].last() == *b);
                        reveal_with_fuel(mass_sum, 3);
                    }
                    b.mass
                },
            },
        }
    }

    /// The geometric center of the node's cube.
    pub fn geometric_center(&self) -> (r: Vec3)
        ensures
            r@ == self.spec_center(),
    {
        match self {
            Octree_member::Octree_node { geometric_center, .. } => *geometric_center,
            Octree_member::Octree_leaf { geometric_center, .. } => *geometric_center,
        }
    }

    /// Side length of the node's cube.
    pub fn side_length(&self) -> (r: i64)
        ensures
            r as int == self.spec_side(),
    {
        match self {
            Octree_member::Octree_node { side_length, .. } => *side_length,
            Octree_member::Octree_leaf { side_length, .. } => *side_length,
        }
    }

    /// Number of bodies in the subtree.
    pub fn population(&self) -> (r: usize)
        requires
            self.wf(),
        ensures
            r as int == self.bodies().len(),
    {
        match self {
            Octree_member::Octree_node { population, .. } => *population,
            Octree_member::Octree_leaf { body, .. } => match body {
                Option::None => 0,
                Option::Some(b) => {
                    proof {
                        assert(self.bodies() == seq![*b]);
                    }
                    1
                },
            },
        }
    }

    /// Is this node a leaf?
    pub fn is_leaf(&self) -> (r: bool)
        ensures
            r == (self is Octree_leaf),
    {
        match self {
            Octree_member::Octree_node { .. } => false,
            Octree_member::Octree_leaf { .. } => true,
        }
    }

    /// The child in the given corner (`None` for leaves and empty slots).
    pub fn child(&self, k: &Corner) -> (r: Option<&Octree_member>)
        ensures
            match r {
                Option::Some(c) => child_of(*self, *k) matches Option::Some(bb) && *bb == *c,
                Option::None => child_of(*self, *k) is None,
            },
    {
        match self {
            Octree_member::Octree_leaf { .. } => Option::None,
            Octree_member::Octree_node { tnw, tne, tsw, tse, bnw, bne, bsw, bse, .. } => {
                let slot: &Option<Box<Octree_member>> = match k {
                    Corner::Tnw => tnw,
                    Corner::Tne => tne,
                    Corner::Tsw => tsw,
                    Corner::Tse => tse,
                    Corner::Bnw => bnw,
                    Corner::Bne => bne,
                    Corner::Bsw => bsw,
                    Corner::Bse => bse,
                };
                match slot {
                    Option::None => Option::None,
                    Option::Some(b) => Option::Some(&**b),
                }
            },
        }
    }

    /// The top-north-west child.
    pub fn tnw(&self) -> (r: Option<&Octree_member>)
        ensures
            match r {
                Option::Some(c) => child_of(*self, Corner::Tnw) matches Option::Some(bb) && *bb
                    == *c,
                Option::None => child_of(*self, Corner::Tnw) is None,
            },
    {
        self.child(&Corner::Tnw)
    }

    /// The top-north-east child.
    pub fn tne(&self) -> (r: Option<&Octree_member>)
        ensures
            match r {
                Option::Some(c) => child_of(*self, Corner::Tne) matches Option::Some(bb) && *bb
                    == *c,
                Option::None => child_of(*self, Corner::Tne) is None,
            },
    {
        self.child(&Corner::Tne)
    }

    /// The top-south-west child.
    pub fn tsw(&self) -> (r: Option<&Octree_member>)
        ensures
            match r {
                Option::Some(c) => child_of(*self, Corner::Tsw) matches Option::Some(bb) && *bb
                    == *c,
                Option::None => child_of(*self, Corner::Tsw) is None,
            },
    {
        self.child(&Corner::Tsw)
    }

    /// The top-south-east child.
    pub fn tse(&self) -> (r: Option<&Octree_member>)
        ensures
            match r {
                Option::Some(c) => child_of(*self, Corner::Tse) matches Option::Some(bb) && *bb
                    == *c,
                Option::None => child_of(*self, Corner::Tse) is None,
            },
    {
        self.child(&Corner::Tse)
    }

    /// The bottom-north-west child.
    pub fn bnw(&self) -> (r: Option<&Octree_member>)
        ensures
            match r {
                Option::Some(c) => child_of(*self, Corner::Bnw) matches Option::Some(bb) && *bb
                    == *c,
                Option::None => child_of(*self, Corner::Bnw) is None,
            },
    {
        self.child(&Corner::Bnw)
    }

    /// The bottom-north-east child.
    pub fn bne(&self) -> (r: Option<&Octree_member>)
        ensures
            match r {
                Option::Some(c) => child_of(*self, Corner::Bne) matches Option::Some(bb) && *bb
                    == *c,
                Option::None => child_of(*self, Corner::Bne) is None,
            },
    {
        self.child(&Corner::Bne)
    }

    /// The bottom-south-west child.
    pub fn bsw(&self) -> (r: Option<&Octree_member>)
        ensures
            match r {
                Option::Some(c) => child_of(*self, Corner::Bsw) matches Option::Some(bb) && *bb
                    == *c,
                Option::None => child_of(*self, Corner::Bsw) is None,
            },
    {
        self.child(&Corner::Bsw)
    }

    /// The bottom-south-east child.
    pub fn bse(&self) -> (r: Option<&Octree_member>)
        ensures
            match r {
                Option::Some(c) => child_of(*self, Corner::Bse) matches Option::Some(bb) && *bb
                    == *c,
                Option::None => child_of(*self, Corner::Bse) is None,
            },
    {
        self.child(&Corner::Bse)
    }
}

} // verus!
