//! Windowed dynamic time warping between two point paths.
//!
//! The distance is the classic DTW cumulative cost under a Sakoe-Chiba
//! band of half-width `w`: cell `(i, j)` may only be used when
//! `|i - j| <= w`.  The cost of a cell is the point distance of its pair
//! plus the least cost of its in-band predecessors.  When the band cannot
//! even reach the final cell (the path lengths differ by more than `w`),
//! the distance is reported as `DIST_INF`, which no real match ever
//! attains.
//!
//! The distance returned is always exact, so a caller holding a pruning
//! threshold compares against it directly; a result at or above the
//! threshold is a rejection.  The cost is tabulated row by row; cells
//! outside the band are carried as `DIST_INF` and never read.

use vstd::prelude::*;

use crate::geom::{dist_spec, dist_points, points_valid, Point, DIST_MAX};
use crate::layout::MAX_PATH_POINTS;

verus! {

/// The sentinel distance: worse than any real match.
pub const DIST_INF: u64 = u64::MAX;

/// Cell `(i, j)` lies inside the Sakoe-Chiba band of half-width `w`.
pub open spec fn in_band(i: int, j: int, w: int) -> bool {
    -w <= i - j <= w
}

/// The smaller of two costs.
pub open spec fn min_cost(x: int, y: int) -> int {
    if x <= y {
        x
    } else {
        y
    }
}

/// Cumulative banded DTW cost of aligning `a[..= i]` with `b[..= j]`:
/// the pair's point distance plus the least in-band predecessor cost.
pub open spec fn dtw_cost(a: Seq<Point>, b: Seq<Point>, w: int, i: int, j: int) -> int
    recommends
        0 <= i < a.len(),
        0 <= j < b.len(),
        in_band(i, j, w),
    decreases i + j,
        when 0 <= i && 0 <= j
{
    let d = dist_spec(a[i], b[j]);
    if i <= 0 && j <= 0 {
        d
    } else if i <= 0 {
        d + dtw_cost(a, b, w, i, j - 1)
    } else if j <= 0 {
        d + dtw_cost(a, b, w, i - 1, j)
    } else {
        let best0 = dtw_cost(a, b, w, i - 1, j - 1);
        let best1 = if in_band(i - 1, j, w) {
            min_cost(best0, dtw_cost(a, b, w, i - 1, j))
        } else {
            best0
        };
        let best2 = if in_band(i, j - 1, w) {
            min_cost(best1, dtw_cost(a, b, w, i, j - 1))
        } else {
            best1
        };
        d + best2
    }
}

/// The banded DTW distance of two whole paths: the cost of the final
/// cell, or `DIST_INF` when the band cannot reach it.
pub open spec fn dtw_spec(a: Seq<Point>, b: Seq<Point>, w: int) -> int
    recommends a.len() >= 1, b.len() >= 1,
{
    if in_band(a.len() - 1, b.len() - 1, w) {
        dtw_cost(a, b, w, a.len() - 1, b.len() - 1)
    } else {
        DIST_INF as int
    }
}

/// `k * DIST_MAX` stays far below the sentinel for any cell of two
/// bounded paths.
proof fn lemma_cost_budget(k: int)
    requires
        0 <= k <= 2 * MAX_PATH_POINTS,
    ensures
        k * DIST_MAX < DIST_INF,
{
    assert(k * 1_500_000int <= 2 * 16_384 * 1_500_000int) by (nonlinear_arith)
        requires 0 <= k <= 2 * 16_384int;
}

/// The banded DTW distance between two paths (see `dtw_spec`): exact when
/// the band reaches the final cell, and the sentinel `DIST_INF` when it
/// cannot.  Computed by dynamic programming, one band row at a time.
pub fn dtw(a: &Vec<Point>, b: &Vec<Point>, w: usize) -> (r: u64)
    requires
        points_valid(a@),
        points_valid(b@),
        1 <= a@.len() <= MAX_PATH_POINTS,
        1 <= b@.len() <= MAX_PATH_POINTS,
        w <= MAX_PATH_POINTS,
    ensures
        r == dtw_spec(a@, b@, w as int),
        in_band(a@.len() - 1, b@.len() - 1, w as int) ==> r < DIST_INF,
{
    let la = a.len();
    let lb = b.len();
    let reachable = if la >= lb {
        la - lb <= w
    } else {
        lb - la <= w
    };
    if !reachable {
        return DIST_INF;
    }
    let mut prev: Vec<u64> = Vec::new();
    let mut i: usize = 0;
    while i < la
        invariant
            0 <= i <= la == a@.len(),
            lb == b@.len(),
            1 <= la <= MAX_PATH_POINTS,
            1 <= lb <= MAX_PATH_POINTS,
            w <= MAX_PATH_POINTS,
            points_valid(a@),
            points_valid(b@),
            i == 0 ==> prev@.len() == 0,
            i >= 1 ==> prev@.len() == lb,
            forall|jj: int|
                i >= 1 && 0 <= jj < lb && in_band(i - 1, jj, w as int) ==> #[trigger] prev@[jj]
                    == dtw_cost(a@, b@, w as int, i - 1, jj) && prev@[jj] <= (i + jj) * DIST_MAX,
        decreases la - i,
    {
        let mut cur: Vec<u64> = Vec::new();
        let mut j: usize = 0;
        while j < lb
            invariant
                0 <= j <= lb == b@.len(),
                0 <= i < la == a@.len(),
                1 <= la <= MAX_PATH_POINTS,
                1 <= lb <= MAX_PATH_POINTS,
                w <= MAX_PATH_POINTS,
                points_valid(a@),
                points_valid(b@),
                i == 0 ==> prev@.len() == 0,
                i >= 1 ==> prev@.len() == lb,
                forall|jj: int|
                    i >= 1 && 0 <= jj < lb && in_band(i - 1, jj, w as int) ==> #[trigger] prev@[jj]
                        == dtw_cost(a@, b@, w as int, i - 1, jj) && prev@[jj] <= (i + jj)
                        * DIST_MAX,
                cur@.len() == j,
                forall|jj: int|
                    0 <= jj < j && in_band(i as int, jj, w as int) ==> #[trigger] cur@[jj]
                        == dtw_cost(a@, b@, w as int, i as int, jj) && cur@[jj] <= (i + jj + 1)
                        * DIST_MAX,
            decreases lb - j,
        {
            if i <= j + w && j <= i + w {
                proof {
                    lemma_cost_budget(i + j + 1);
                    lemma_cost_budget(i + j);
                    if i + j >= 1 {
                        lemma_cost_budget(i + j - 1);
                    }
                }
                let d = dist_points(a[i], b[j]);
                let cost: u64 = if i == 0 && j == 0 {
                    d
                } else if i == 0 {
                    d + cur[j - 1]
                } else if j == 0 {
                    d + prev[0]
                } else {
                    let mut best = prev[j - 1];
                    if j + 1 <= i + w {
                        let up = prev[j];
                        if up < best {
                            best = up;
                        }
                    }
                    if i + 1 <= j + w {
                        let left = cur[j - 1];
                        if left < best {
                            best = left;
                        }
                    }
                    d + best
                };
                cur.push(cost);
            } else {
                cur.push(DIST_INF);
            }
            j = j + 1;
        }
        prev = cur;
        i = i + 1;
    }
    proof {
        lemma_cost_budget(la - 1 + (lb - 1) + 1);
    }
    prev[lb - 1]
}

} // verus!
