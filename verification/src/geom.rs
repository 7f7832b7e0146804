//! Fixed-point planar geometry: points, integer square root, Euclidean
//! distance, path length and point density.
//!
//! A coordinate in the normalized layout space `[0, 1]` is stored as an
//! integer number of millionths, so the whole keyboard fits in
//! `0 ..= SCALE`.  All distances are floor values of the exact Euclidean
//! distance in the same unit.

use vstd::prelude::*;

verus! {

/// Number of fixed-point units per one unit of normalized layout space.
pub const SCALE: i64 = 1_000_000;

/// Upper bound on the distance between two valid points.
/// The diagonal of the layout square is `sqrt(2) * SCALE < 1_414_214`.
pub const DIST_MAX: u64 = 1_500_000;

/// A planar coordinate in fixed-point normalized layout space.
#[derive(Clone, Copy, PartialEq, Eq, Structural, Debug)]
pub struct Point {
    pub x: i64,
    pub y: i64,
}

/// A point lies inside the normalized layout square.
pub open spec fn point_valid(p: Point) -> bool {
    0 <= p.x <= SCALE && 0 <= p.y <= SCALE
}

/// Every point of the sequence lies inside the layout square.
pub open spec fn points_valid(s: Seq<Point>) -> bool {
    forall|i: int| 0 <= i < s.len() ==> point_valid(#[trigger] s[i])
}

/// Floor of the square root, defined by counting up.
pub open spec fn isqrt_spec(n: nat) -> nat
    decreases n,
{
    if n == 0 {
        0
    } else {
        let r = isqrt_spec((n - 1) as nat);
        if (r + 1) * (r + 1) <= n {
            r + 1
        } else {
            r
        }
    }
}

/// `isqrt_spec(n)` is the unique `r` with `r * r <= n < (r + 1) * (r + 1)`.
pub proof fn lemma_isqrt_bounds(n: nat)
    ensures
        isqrt_spec(n) * isqrt_spec(n) <= n,
        n < (isqrt_spec(n) + 1) * (isqrt_spec(n) + 1),
    decreases n,
{
    if n == 0 {
        assert(isqrt_spec(0) == 0);
        assert(0 < (0 + 1) * (0 + 1)) by (nonlinear_arith);
    } else {
        lemma_isqrt_bounds((n - 1) as nat);
        let r = isqrt_spec((n - 1) as nat);
        if (r + 1) * (r + 1) <= n {
            assert(isqrt_spec(n) == r + 1);
            assert(n <= (r + 1) * (r + 1));
            assert((r + 2) * (r + 2) == (r + 1) * (r + 1) + 2 * r + 3) by (nonlinear_arith);
            assert(n < (r + 2) * (r + 2));
            assert(isqrt_spec(n) * isqrt_spec(n) <= n);
            assert(n < (isqrt_spec(n) + 1) * (isqrt_spec(n) + 1));
        } else {
            assert(isqrt_spec(n) == r);
            assert(r * r <= n - 1);
            assert(n < (r + 1) * (r + 1));
            assert(isqrt_spec(n) * isqrt_spec(n) <= n);
            assert(n < (isqrt_spec(n) + 1) * (isqrt_spec(n) + 1));
        }
    }
}

/// Two values that both bracket `n` between consecutive squares are equal.
pub proof fn lemma_isqrt_unique(n: nat, a: nat, b: nat)
    requires
        a * a <= n < (a + 1) * (a + 1),
        b * b <= n < (b + 1) * (b + 1),
    ensures
        a == b,
{
    if a < b {
        assert((a + 1) * (a + 1) <= b * b) by (nonlinear_arith)
            requires a + 1 <= b;
    }
    if b < a {
        assert((b + 1) * (b + 1) <= a * a) by (nonlinear_arith)
            requires b + 1 <= a;
    }
}

/// If `n` is below `(m + 1)^2` then its root is at most `m`.
pub proof fn lemma_isqrt_le(n: nat, m: nat)
    requires
        n < (m + 1) * (m + 1),
    ensures
        isqrt_spec(n) <= m,
{
    lemma_isqrt_bounds(n);
    if isqrt_spec(n) > m {
        assert((m + 1) * (m + 1) <= isqrt_spec(n) * isqrt_spec(n)) by (nonlinear_arith)
            requires m + 1 <= isqrt_spec(n);
    }
}

/// Floor of the square root of `n`, by binary search.
pub fn isqrt(n: u64) -> (r: u64)
    ensures
        r == isqrt_spec(n as nat),
        r * r <= n,
{
    let mut lo: u64 = 0;
    let mut hi: u64 = 1u64 << 32;
    proof {
        assert((1u64 << 32) == 0x1_0000_0000) by (bit_vector);
        assert(0x1_0000_0000int * 0x1_0000_0000int > n) by (nonlinear_arith)
            requires n <= u64::MAX;
    }
    while lo + 1 < hi
        invariant
            lo < hi <= 0x1_0000_0000,
            (lo as int) * (lo as int) <= n,
            (n as int) < (hi as int) * (hi as int),
        decreases hi - lo,
    {
        let mid: u64 = lo + (hi - lo) / 2;
        proof {
            assert((mid as int) * (mid as int) < 0x1_0000_0000int * 0x1_0000_0000int)
                by (nonlinear_arith)
                requires mid < 0x1_0000_0000int;
        }
        if mid * mid <= n {
            lo = mid;
        } else {
            hi = mid;
        }
    }
    proof {
        lemma_isqrt_bounds(n as nat);
        lemma_isqrt_unique(n as nat, lo as nat, isqrt_spec(n as nat));
    }
    lo
}

/// Squared Euclidean distance between two points, exactly.
pub open spec fn dist_sq_spec(a: Point, b: Point) -> int {
    (a.x - b.x) * (a.x - b.x) + (a.y - b.y) * (a.y - b.y)
}

/// Euclidean distance between two points, rounded down to the unit.
pub open spec fn dist_spec(a: Point, b: Point) -> int {
    isqrt_spec(dist_sq_spec(a, b) as nat) as int
}

/// The distance between two valid points never exceeds `DIST_MAX`.
pub proof fn lemma_dist_le_max(a: Point, b: Point)
    requires
        point_valid(a),
        point_valid(b),
    ensures
        0 <= dist_spec(a, b) <= DIST_MAX,
{
    assert(dist_sq_spec(a, b) <= 2_000_000_000_000) by (nonlinear_arith)
        requires
            -1_000_000 <= a.x - b.x <= 1_000_000,
            -1_000_000 <= a.y - b.y <= 1_000_000;
    assert(dist_sq_spec(a, b) >= 0) by (nonlinear_arith);
    assert(2_000_000_000_001int < (1_500_000int + 1) * (1_500_000int + 1)) by (nonlinear_arith);
    lemma_isqrt_le(dist_sq_spec(a, b) as nat, DIST_MAX as nat);
}

/// Euclidean distance between two points of the layout square.
pub fn dist_points(a: Point, b: Point) -> (r: u64)
    requires
        point_valid(a),
        point_valid(b),
    ensures
        r == dist_spec(a, b),
        r <= DIST_MAX,
{
    let dx: i64 = a.x - b.x;
    let dy: i64 = a.y - b.y;
    proof {
        assert(dx * dx + dy * dy <= 2_000_000_000_000 && dx * dx >= 0 && dy * dy >= 0)
            by (nonlinear_arith)
            requires -1_000_000 <= dx <= 1_000_000 && -1_000_000 <= dy <= 1_000_000;
    }
    let sq: u64 = (dx * dx + dy * dy) as u64;
    let r = isqrt(sq);
    proof {
        lemma_dist_le_max(a, b);
    }
    r
}

/// Total Euclidean length of a path: the sum of consecutive-point distances.
pub open spec fn path_len_spec(s: Seq<Point>) -> int
    decreases s.len(),
{
    if s.len() <= 1 {
        0
    } else {
        path_len_spec(s.drop_last()) + dist_spec(s[s.len() - 2], s[s.len() - 1])
    }
}

/// Target point density of a drawn path: its total length divided by its
/// number of points.  A single-point path has density zero.
pub open spec fn density_spec(s: Seq<Point>) -> int
    recommends s.len() >= 1,
{
    path_len_spec(s) / (s.len() as int)
}

/// Total Euclidean length of a path.
pub fn path_length(path: &Vec<Point>) -> (r: u64)
    requires
        points_valid(path@),
        path@.len() <= 0x1_0000_0000,
    ensures
        r == path_len_spec(path@),
{
    let n = path.len();
    if n <= 1 {
        return 0;
    }
    let mut acc: u64 = 0;
    let mut i: usize = 1;
    proof {
        assert(path@.take(1int) =~= seq![path@[0]]);
    }
    while i < n
        invariant
            1 <= i <= n == path@.len() <= 0x1_0000_0000,
            points_valid(path@),
            acc == path_len_spec(path@.take(i as int)),
            acc <= (i - 1) * (DIST_MAX as int),
        decreases n - i,
    {
        let d = dist_points(path[i - 1], path[i]);
        proof {
            let t = path@.take(i as int + 1);
            assert(t.drop_last() =~= path@.take(i as int));
            assert(t[t.len() - 2] == path@[i - 1] && t[t.len() - 1] == path@[i as int]);
            assert((i - 1) * (DIST_MAX as int) + DIST_MAX == i * (DIST_MAX as int))
                by (nonlinear_arith);
            assert(i * (DIST_MAX as int) <= 0x1_0000_0000 * (DIST_MAX as int))
                by (nonlinear_arith)
                requires 0 <= i <= 0x1_0000_0000;
        }
        acc = acc + d;
        i = i + 1;
    }
    proof {
        if n >= 1 {
            assert(path@.take(n as int) =~= path@);
        }
    }
    acc
}

/// Target point density of a drawn path (see `density_spec`).
pub fn desired_point_density(path: &Vec<Point>) -> (r: u64)
    requires
        points_valid(path@),
        1 <= path@.len() <= 0x1_0000_0000,
    ensures
        r == density_spec(path@),
{
    let total = path_length(path);
    let n = path.len();
    total / (n as u64)
}

} // verus!
