//! The WorkPartitioner: deterministic assignment of pair work and of body
//! ranges to workers.
//!
//! Force-Phase work: all unordered pairs `(i, j)` with `i < j < n` are
//! enumerated in lexicographic order and dealt round-robin onto `w`
//! worklists. The contract pins down what the concurrent protocol relies
//! on: every pair appears on some list, no pair appears twice, and every
//! listed pair is in range.
//!
//! Position-Phase work: worker `t` gets the contiguous range
//! `[t * (n/w), (t+1) * (n/w))`, the last worker taking the remainder.
//! Stated as a chain: ranges start at 0, abut exactly, and end at `n` —
//! so together they cover every index exactly once.

use vstd::prelude::*;

use crate::octree::POP_CAP;

verus! {

/// One worker's assignment: its Force-Phase pair worklist and its
/// Position-Phase body range `[begin, end)`.
pub struct Assigned_work {
    pub pairs: Vec<(usize, usize)>,
    pub begin: usize,
    pub end: usize,
}

/// Every listed pair is an ordered in-range pair.
pub open spec fn pairs_valid(r: Seq<Assigned_work>, n: int) -> bool {
    forall|t: int, m: int|
        0 <= t < r.len() && 0 <= m < r[t].pairs@.len() ==> {
            let p = (#[trigger] r[t].pairs@[m]);
            p.0 < p.1 && (p.1 as int) < n
        }
}

/// The pair `(a, b)` as machine integers.
pub open spec fn pair_at(a: int, b: int) -> (usize, usize) {
    (a as usize, b as usize)
}

/// The pair `(a, b)` appears somewhere on the worklists.
pub open spec fn listed(r: Seq<Assigned_work>, a: int, b: int) -> bool {
    exists|t: int, m: int|
        0 <= t < r.len() && 0 <= m < r[t].pairs@.len() && #[trigger] r[t].pairs@[m] == pair_at(
            a,
            b,
        )
}

/// Every ordered pair below `n` appears on some worklist.
pub open spec fn covers_all_pairs(r: Seq<Assigned_work>, n: int) -> bool {
    forall|a: int, b: int| 0 <= a < b < n ==> #[trigger] listed(r, a, b)
}

/// Lexicographic order on index pairs.
pub open spec fn lex_lt(a: (usize, usize), b: (usize, usize)) -> bool {
    a.0 < b.0 || (a.0 == b.0 && a.1 < b.1)
}

/// Every worklist receives its pairs in increasing lexicographic order
/// (the order the round-robin deal hands them out).
pub open spec fn lists_sorted(r: Seq<Assigned_work>) -> bool {
    forall|t: int, m1: int, m2: int|
        0 <= t < r.len() && 0 <= m1 < m2 < r[t].pairs@.len() ==> lex_lt(
            #[trigger] r[t].pairs@[m1],
            #[trigger] r[t].pairs@[m2],
        )
}

/// No pair appears on two list positions.
pub open spec fn no_duplicate_pairs(r: Seq<Assigned_work>) -> bool {
    forall|t1: int, m1: int, t2: int, m2: int|
        0 <= t1 < r.len() && 0 <= m1 < r[t1].pairs@.len() && 0 <= t2 < r.len() && 0 <= m2
            < r[t2].pairs@.len() && (t1 != t2 || m1 != m2) ==> (#[trigger] r[t1].pairs@[m1]) != (
        #[trigger] r[t2].pairs@[m2])
}

/// The ranges start at zero, abut exactly, have size `n / w` but for the
/// last, and end at `n`: together they cover `0 .. n` exactly once.
pub open spec fn ranges_exact(r: Seq<Assigned_work>, n: int, w: int) -> bool {
    &&& r.len() == w
    &&& r[0].begin == 0
    &&& forall|t: int| 0 <= t < w ==> (#[trigger] r[t].begin) <= r[t].end
    &&& forall|t: int| 0 <= t < w - 1 ==> (#[trigger] r[t].end) == r[t + 1].begin
    &&& forall|t: int| 0 <= t < w - 1 ==> (#[trigger] r[t].end) - r[t].begin == n / w
    &&& r[w - 1].end == n
}

/// Abutting ranges are ordered: everything before `t2` ends by the time
/// `t2` begins.
pub proof fn lemma_ranges_ordered(r: Seq<Assigned_work>, n: int, w: int, t1: int, t2: int)
    requires
        ranges_exact(r, n, w),
        1 <= w,
        0 <= t1 < t2 < w,
    ensures
        r[t1].end <= r[t2].begin,
    decreases t2 - t1,
{
    if t1 + 1 < t2 {
        lemma_ranges_ordered(r, n, w, t1 + 1, t2);
    }
}

/// The ranges cover every body index exactly once: each index lies in
/// the range of one worker and of no other.
pub proof fn lemma_ranges_cover(r: Seq<Assigned_work>, n: int, w: int, i: int)
    requires
        ranges_exact(r, n, w),
        1 <= w,
        0 <= i < n,
    ensures
        exists|t: int|
            0 <= t < w && (#[trigger] r[t].begin) <= i < r[t].end,
        forall|t1: int, t2: int|
            0 <= t1 < t2 < w ==> !((#[trigger] r[t1].begin) <= i < r[t1].end && (
            #[trigger] r[t2].begin) <= i < r[t2].end),
{
    lemma_ranges_find(r, n, w, i, 0);
    assert forall|t1: int, t2: int| 0 <= t1 < t2 < w implies !((#[trigger] r[t1].begin) <= i
        < r[t1].end && (#[trigger] r[t2].begin) <= i < r[t2].end) by {
        lemma_ranges_ordered(r, n, w, t1, t2);
    }
}

/// Helper for `lemma_ranges_cover`: scanning from `t`, some range holds
/// `i`.
proof fn lemma_ranges_find(r: Seq<Assigned_work>, n: int, w: int, i: int, t: int)
    requires
        ranges_exact(r, n, w),
        1 <= w,
        0 <= t < w,
        r[t].begin <= i < n,
    ensures
        exists|u: int|
            0 <= u < w && (#[trigger] r[u].begin) <= i < r[u].end,
    decreases w - t,
{
    if i < r[t].end {
        assert(0 <= t < w && r[t].begin <= i < r[t].end);
    } else {
        assert(t != w - 1);
        lemma_ranges_find(r, n, w, i, t + 1);
    }
}

/// Coverage of the pair enumeration up to position `(i, j)` in the
/// lexicographic order: every ordered pair strictly before it is on some
/// worklist.
pub open spec fn covers_below(r: Seq<Assigned_work>, n: int, i: int, j: int) -> bool {
    forall|a: int, b: int|
        0 <= a < b < n && (a < i || (a == i && b < j)) ==> #[trigger] listed(r, a, b)
}

/// Builds the worker assignments for `n` bodies and `w` workers: the
/// Position-Phase ranges, then all ordered pairs dealt round-robin onto
/// the worklists.
#[verifier::rlimit(100)]
#[verifier::spinoff_prover]
pub fn make_assignments(n: usize, w: usize) -> (r: Vec<Assigned_work>)
    requires
        1 <= w,
        n <= POP_CAP,
    ensures
        ranges_exact(r@, n as int, w as int),
        pairs_valid(r@, n as int),
        covers_all_pairs(r@, n as int),
        no_duplicate_pairs(r@),
        lists_sorted(r@),
{
    let block: usize = n / w;
    proof {
        vstd::arithmetic::div_mod::lemma_fundamental_div_mod(n as int, w as int);
        vstd::arithmetic::div_mod::lemma_mod_division_less_than_divisor(n as int, w as int);
    }
    let mut r: Vec<Assigned_work> = Vec::new();
    let mut t: usize = 0;
    let mut begin: usize = 0;
    while t < w
        invariant
            r@.len() == t as int,
            t <= w,
            1 <= w,
            n <= POP_CAP,
            block as int == n as int / w as int,
            (w as int) * (block as int) <= n as int,
            t < w ==> begin as int == (t as int) * (block as int),
            begin <= n,
            t >= 1 ==> begin == r@[t as int - 1].end,
            r@.len() >= 1 ==> r@[0].begin == 0,
            forall|tt: int| 0 <= tt < t as int ==> (#[trigger] r@[tt].pairs)@.len() == 0,
            forall|tt: int| 0 <= tt < t as int ==> (#[trigger] r@[tt].begin) <= r@[tt].end,
            forall|tt: int| 0 <= tt < t as int - 1 ==> (#[trigger] r@[tt].end) == r@[tt + 1].begin,
            forall|tt: int| 0 <= tt < t as int ==> (#[trigger] r@[tt].end) == if tt
                == w as int - 1 { n as int } else { (tt + 1) * (block as int) },
        decreases w - t,
    {
        proof {
            assert((t as int + 1) * (block as int) == (t as int) * (block as int) + block as int)
                by (nonlinear_arith);
            assert((t as int + 1) * (block as int) <= (w as int) * (block as int))
                by (nonlinear_arith)
                requires t as int + 1 <= w as int, 0 <= block as int;
        }
        let end: usize = if t == w - 1 {
            n
        } else {
            begin + block
        };
        r.push(Assigned_work { pairs: Vec::new(), begin, end });
        begin = end;
        t = t + 1;
    }
    proof {
        assert forall|tt: int| 0 <= tt < w as int - 1 implies (#[trigger] r@[tt].end)
            - r@[tt].begin == n as int / w as int by {
            assert(r@[tt].end == (tt + 1) * (block as int));
            assert((tt + 1) * (block as int) == tt * (block as int) + block as int)
                by (nonlinear_arith);
            if tt >= 1 {
                assert(r@[tt - 1].end == r@[tt].begin);
                assert(r@[tt - 1].end == tt * (block as int));
            } else {
                assert(r@[0].begin == 0);
                assert(0 * (block as int) == 0) by (nonlinear_arith);
            }
        }
        assert(ranges_exact(r@, n as int, w as int));
    }
    let mut curr: usize = 0;
    let mut i: usize = 0;
    while i < n
        invariant
            r@.len() == w as int,
            1 <= w,
            curr < w,
            i <= n,
            n <= POP_CAP,
            ranges_exact(r@, n as int, w as int),
            pairs_valid(r@, n as int),
            no_duplicate_pairs(r@),
            lists_sorted(r@),
            forall|tt: int, m: int|
                0 <= tt < r@.len() && 0 <= m < r@[tt].pairs@.len() ==> ((
                #[trigger] r@[tt].pairs@[m]).0 as int) < i as int,
            covers_below(r@, n as int, i as int, i as int + 1),
        decreases n - i,
    {
        let mut j: usize = i + 1;
        while j < n
            invariant
                r@.len() == w as int,
                1 <= w,
                curr < w,
                i < n,
                n <= POP_CAP,
                i + 1 <= j <= n,
                ranges_exact(r@, n as int, w as int),
                pairs_valid(r@, n as int),
                no_duplicate_pairs(r@),
                lists_sorted(r@),
                forall|tt: int, m: int|
                    0 <= tt < r@.len() && 0 <= m < r@[tt].pairs@.len() ==> {
                        let p = (#[trigger] r@[tt].pairs@[m]);
                        (p.0 as int) < i as int || ((p.0 as int) == i as int && (p.1 as int)
                            < j as int)
                    },
                covers_below(r@, n as int, i as int, j as int),
            decreases n - j,
        {
            let ghost old_r = r@;
            let aw = &mut r[curr];
            aw.pairs.push((i, j));
            proof {
                assert(r@[curr as int].pairs@ == old_r[curr as int].pairs@.push((i, j)));
                assert(r@[curr as int].begin == old_r[curr as int].begin);
                assert(r@[curr as int].end == old_r[curr as int].end);
                assert(forall|tt: int| 0 <= tt < r@.len() && tt != curr as int ==> r@[tt]
                    == old_r[tt]);
                assert forall|a: int, b: int|
                    0 <= a < b < n as int && (a < i as int || (a == i as int && b < j as int + 1))
                        implies #[trigger] listed(r@, a, b) by {
                    if a == i as int && b == j as int {
                        let m = r@[curr as int].pairs@.len() - 1;
                        assert(r@[curr as int].pairs@[m] == pair_at(a, b));
                    } else {
                        assert(listed(old_r, a, b));
                        let (tt, m) = choose|tt: int, m: int|
                            0 <= tt < old_r.len() && 0 <= m < old_r[tt].pairs@.len() && (
                            #[trigger] old_r[tt].pairs@[m]) == pair_at(a, b);
                        assert(r@[tt].pairs@.len() >= old_r[tt].pairs@.len());
                        assert(r@[tt].pairs@[m] == pair_at(a, b));
                    }
                }
                assert(covers_below(r@, n as int, i as int, j as int + 1));
            }
            curr = if curr + 1 == w {
                0
            } else {
                curr + 1
            };
            j = j + 1;
        }
        proof {
            assert forall|a: int, b: int|
                0 <= a < b < n as int && (a < i as int + 1 || (a == i as int + 1 && b
                    < i as int + 2)) implies #[trigger] listed(r@, a, b) by {
                assert(a < i as int || (a == i as int && b < n as int));
            }
            assert(covers_below(r@, n as int, i as int + 1, i as int + 2));
        }
        i = i + 1;
    }
    proof {
        assert forall|a: int, b: int| 0 <= a < b < n as int implies #[trigger] listed(
            r@,
            a,
            b,
        ) by {
            assert(a < n as int);
        }
        assert(covers_all_pairs(r@, n as int));
    }
    r
}

} // verus!
