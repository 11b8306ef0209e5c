//! The ForceBuffer: an `n x n` matrix of pairwise forces, written in the
//! Force Phase and consumed in the Position Phase.
//!
//! Entry `(i, j)` holds the force value computed for the ordered pair
//! `(i, j)`; one evaluation of an unordered pair writes both `(i, j)` and
//! `(j, i)`, so the buffer keeps Newton's third law as an invariant:
//! `entry(i, j) == -entry(j, i)` for all `i != j`, with a zero diagonal.
//! The net force on body `i` is the column sum over `entry(j, i)`.

use vstd::prelude::*;

use crate::octree::POP_CAP;
use crate::physics::FORCE_LIMIT;
use crate::physics::V3;
use crate::physics::Vec3;
use crate::physics::v3_bounded;

verus! {

/// Flat indices of distinct cells are distinct.
proof fn lemma_flat_index_injective(n: int, a1: int, b1: int, a2: int, b2: int)
    requires
        0 <= a1 < n,
        0 <= b1 < n,
        0 <= a2 < n,
        0 <= b2 < n,
        a1 * n + b1 == a2 * n + b2,
    ensures
        a1 == a2 && b1 == b2,
{
    assert(a1 == a2 && b1 == b2) by (nonlinear_arith)
        requires
            0 <= a1 < n,
            0 <= b1 < n,
            0 <= a2 < n,
            0 <= b2 < n,
            a1 * n + b1 == a2 * n + b2,
    ;
}

#[derive(Clone)]
pub struct ForceBuffer {
    pub n: usize,
    pub data: Vec<Vec3>,
}

impl ForceBuffer {
    /// The number of bodies the buffer is sized for.
    pub open spec fn spec_n(self) -> int {
        self.n as int
    }

    /// The force stored for the ordered pair `(i, j)`.
    pub open spec fn entry(self, i: int, j: int) -> V3 {
        self.data@[i * self.spec_n() + j]@
    }

    /// Well-formedness: a full square matrix of bounded entries that is
    /// antisymmetric off the diagonal and zero on it.
    pub open spec fn wf(self) -> bool {
        &&& self.n <= POP_CAP
        &&& self.data@.len() == self.spec_n() * self.spec_n()
        &&& forall|i: int, j: int|
            0 <= i < self.spec_n() && 0 <= j < self.spec_n() ==> v3_bounded(
                #[trigger] self.entry(i, j),
                FORCE_LIMIT as int,
            )
        &&& forall|i: int, j: int|
            0 <= i < self.spec_n() && 0 <= j < self.spec_n() && i != j ==> #[trigger] self.entry(
                i,
                j,
            ) == self.entry(j, i).neg()
        &&& forall|i: int| 0 <= i < self.spec_n() ==> #[trigger] self.entry(i, i) == V3::zero()
    }

    /// An all-zero buffer for `n` bodies.
    pub fn new(n: usize) -> (r: ForceBuffer)
        requires
            n <= POP_CAP,
        ensures
            r.wf(),
            r.spec_n() == n as int,
            forall|i: int, j: int|
                0 <= i < n as int && 0 <= j < n as int ==> #[trigger] r.entry(i, j) == V3::zero(),
    {
        proof {
            assert((n as int) * (n as int) <= (POP_CAP as int) * (POP_CAP as int))
                by (nonlinear_arith)
                requires 0 <= (n as int) <= POP_CAP as int;
        }
        let total: usize = n * n;
        let mut data: Vec<Vec3> = Vec::new();
        let mut k: usize = 0;
        while k < total
            invariant
                data@.len() == k as int,
                k <= total,
                forall|t: int| 0 <= t < k as int ==> (#[trigger] data@[t])@ == V3::zero(),
            decreases total - k,
        {
            data.push(Vec3 { x: 0, y: 0, z: 0 });
            k = k + 1;
        }
        let r = ForceBuffer { n, data };
        proof {
            assert forall|i: int, j: int| 0 <= i < n as int && 0 <= j < n as int implies
                #[trigger] r.entry(i, j) == V3::zero() by {
                assert(0 <= i * (n as int) + j < (n as int) * (n as int)) by (nonlinear_arith)
                    requires 0 <= i < n as int, 0 <= j < n as int;
            }
        }
        r
    }

    /// The number of bodies the buffer is sized for.
    pub fn len(&self) -> (r: usize)
        ensures
            r as int == self.spec_n(),
    {
        self.n
    }

    /// Reads the entry for the ordered pair `(i, j)`.
    pub fn at(&self, i: usize, j: usize) -> (r: Vec3)
        requires
            self.wf(),
            (i as int) < self.spec_n(),
            (j as int) < self.spec_n(),
        ensures
            r@ == self.entry(i as int, j as int),
    {
        proof {
            assert(0 <= (i as int) * self.spec_n() + (j as int) < self.spec_n() * self.spec_n()
                && self.spec_n() * self.spec_n() <= (POP_CAP as int) * (POP_CAP as int))
                by (nonlinear_arith)
                requires
                    0 <= (i as int) < self.spec_n(),
                    0 <= (j as int) < self.spec_n(),
                    self.spec_n() <= POP_CAP as int,
            ;
        }
        self.data[i * self.n + j]
    }

    /// Writes one evaluation of the unordered pair `{i, j}`: `f` at
    /// `(i, j)` and `-f` at `(j, i)`, leaving every other entry alone.
    #[verifier::rlimit(100)]
    #[verifier::spinoff_prover]
    pub fn set_pair(&mut self, i: usize, j: usize, f: Vec3)
        requires
            old(self).wf(),
            (i as int) < old(self).spec_n(),
            (j as int) < old(self).spec_n(),
            i != j,
            v3_bounded(f@, FORCE_LIMIT as int),
        ensures
            final(self).wf(),
            final(self).spec_n() == old(self).spec_n(),
            final(self).entry(i as int, j as int) == f@,
            final(self).entry(j as int, i as int) == f@.neg(),
            forall|a: int, b: int|
                0 <= a < old(self).spec_n() && 0 <= b < old(self).spec_n() && !(a == i as int && b
                    == j as int) && !(a == j as int && b == i as int)
                    ==> #[trigger] final(self).entry(a, b) == old(self).entry(a, b),
    {
        let ghost n = self.spec_n();
        let ghost old_self = *self;
        proof {
            assert(0 <= (i as int) * n + (j as int) < n * n && 0 <= (j as int) * n + (i as int)
                < n * n && n * n <= (POP_CAP as int) * (POP_CAP as int)) by (nonlinear_arith)
                requires 0 <= (i as int) < n, 0 <= (j as int) < n, n <= POP_CAP as int;
        }
        let idx1: usize = i * self.n + j;
        let idx2: usize = j * self.n + i;
        let neg = f.neg();
        let slot1 = &mut self.data[idx1];
        *slot1 = f;
        let slot2 = &mut self.data[idx2];
        *slot2 = neg;
        proof {
            if (i as int) * n + (j as int) == (j as int) * n + (i as int) {
                lemma_flat_index_injective(n, i as int, j as int, j as int, i as int);
            }
            assert forall|a: int, b: int|
                0 <= a < n && 0 <= b < n && !(a == i as int && b == j as int) && !(a == j as int
                    && b == i as int) implies #[trigger] self.entry(a, b) == old_self.entry(
                a,
                b,
            ) by {
                assert(0 <= a * n + b < n * n) by (nonlinear_arith)
                    requires 0 <= a < n, 0 <= b < n;
                if a * n + b == (i as int) * n + (j as int) {
                    lemma_flat_index_injective(n, a, b, i as int, j as int);
                }
                if a * n + b == (j as int) * n + (i as int) {
                    lemma_flat_index_injective(n, a, b, j as int, i as int);
                }
            }
            assert(self.entry(i as int, j as int) == f@);
            assert(self.entry(j as int, i as int) == f@.neg());
            assert(f@.neg().neg() == f@);
            assert forall|a: int, b: int|
                0 <= a < n && 0 <= b < n && a != b implies #[trigger] self.entry(a, b)
                == self.entry(b, a).neg() by {
                if a == i as int && b == j as int {
                } else if a == j as int && b == i as int {
                } else {
                    assert(old_self.entry(a, b) == old_self.entry(b, a).neg());
                }
            }
            assert forall|a: int| 0 <= a < n implies #[trigger] self.entry(a, a)
                == V3::zero() by {
                assert(old_self.entry(a, a) == V3::zero());
            }
            assert forall|a: int, b: int| 0 <= a < n && 0 <= b < n implies v3_bounded(
                #[trigger] self.entry(a, b),
                FORCE_LIMIT as int,
            ) by {
                if !(a == i as int && b == j as int) && !(a == j as int && b == i as int) {
                    assert(old_self.entry(a, b) == self.entry(a, b));
                }
            }
        }
    }

    /// The net force on body `i`: the column sum of the first `k` rows.
    pub open spec fn net_on_prefix(self, i: int, k: int) -> V3
        decreases k,
    {
        if k <= 0 {
            V3::zero()
        } else {
            self.net_on_prefix(i, k - 1).plus(self.entry(k - 1, i))
        }
    }

    /// The net force on body `i`: the sum of `entry(j, i)` over all `j`.
    pub fn net_force_on(&self, i: usize) -> (r: Vec3)
        requires
            self.wf(),
            (i as int) < self.spec_n(),
        ensures
            r@ == self.net_on_prefix(i as int, self.spec_n()),
            v3_bounded(r@, self.spec_n() * (FORCE_LIMIT as int)),
    {
        let n: usize = self.n;
        let mut acc = Vec3 { x: 0, y: 0, z: 0 };
        let mut j: usize = 0;
        proof {
            assert(0 * (FORCE_LIMIT as int) == 0) by (nonlinear_arith);
        }
        while j < n
            invariant
                self.wf(),
                n as int == self.spec_n(),
                (i as int) < self.spec_n(),
                j <= n,
                acc@ == self.net_on_prefix(i as int, j as int),
                v3_bounded(acc@, (j as int) * (FORCE_LIMIT as int)),
            decreases n - j,
        {
            let e = self.at(j, i);
            proof {
                assert((j as int) * (FORCE_LIMIT as int) + FORCE_LIMIT as int == (j as int + 1) * (
                FORCE_LIMIT as int)) by (nonlinear_arith);
                assert((j as int + 1) * (FORCE_LIMIT as int) <= (POP_CAP as int) * (
                FORCE_LIMIT as int)) by (nonlinear_arith)
                    requires (j as int) + 1 <= POP_CAP as int;
            }
            acc = acc.plus(&e);
            j = j + 1;
        }
        acc
    }
}

} // verus!
