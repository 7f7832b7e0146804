//! The keyboard layout and the synthesis of "ideal" paths.
//!
//! A layout maps single-character key labels to fixed-point key centers.
//! The ideal path of a word is the polyline through its key centers,
//! resampled so that consecutive points are about one density unit apart;
//! it is the comparison target for the user's drawn path.  A word that
//! cannot be mapped onto the layout (empty, or a character without a key)
//! yields no path, and a degenerate density of zero falls back to the
//! coarsest sampling: the key centers themselves.

use vstd::arithmetic::div_mod::{
    lemma_div_is_ordered,
    lemma_div_multiples_vanish,
    lemma_div_pos_is_pos,
};
use vstd::prelude::*;

use crate::geom::{dist_spec, dist_points, point_valid, points_valid, Point, DIST_MAX, SCALE};
use crate::lm::LoadError;

verus! {

/// Largest number of points an ideal path may hold; synthesis fails on
/// words whose resampled path would be longer.
pub const MAX_PATH_POINTS: usize = 16_384;

/// A keyboard layout: key label to fixed-point key center, first match
/// winning.  Immutable after construction.
#[derive(Debug)]
pub struct KeyLayout {
    pub keys: Vec<(char, Point)>,
}

/// Every key center lies inside the layout square.
pub open spec fn keys_valid(keys: Seq<(char, Point)>) -> bool {
    forall|i: int| 0 <= i < keys.len() ==> point_valid((#[trigger] keys[i]).1)
}

/// The first key of the list with the given label, if any.
pub open spec fn find_key(keys: Seq<(char, Point)>, c: char) -> Option<Point>
    decreases keys.len(),
{
    if keys.len() == 0 {
        None
    } else if keys[0].0 == c {
        Some(keys[0].1)
    } else {
        find_key(keys.drop_first(), c)
    }
}

/// If no key among the first `i` matches, the lookup over the whole list
/// equals the lookup over the remainder.
pub proof fn lemma_find_key_skip(keys: Seq<(char, Point)>, c: char, i: int)
    requires
        0 <= i <= keys.len(),
        forall|j: int| 0 <= j < i ==> (#[trigger] keys[j]).0 != c,
    ensures
        find_key(keys, c) == find_key(keys.skip(i), c),
    decreases i,
{
    if i > 0 {
        lemma_find_key_skip(keys.drop_first(), c, i - 1);
        assert(keys.drop_first().skip(i - 1) =~= keys.skip(i));
    } else {
        assert(keys.skip(0) =~= keys);
    }
}

/// A found key center of a valid layout is a valid point.
pub proof fn lemma_find_key_valid(keys: Seq<(char, Point)>, c: char)
    requires
        keys_valid(keys),
    ensures
        find_key(keys, c) matches Some(p) ==> point_valid(p),
    decreases keys.len(),
{
    if keys.len() > 0 && keys[0].0 != c {
        assert(keys_valid(keys.drop_first()));
        lemma_find_key_valid(keys.drop_first(), c);
    }
}

/// The key centers of a word's characters, in order; `None` as soon as a
/// character has no key.
pub open spec fn centers_spec(keys: Seq<(char, Point)>, w: Seq<char>) -> Option<Seq<Point>>
    decreases w.len(),
{
    if w.len() == 0 {
        Some(Seq::empty())
    } else {
        match centers_spec(keys, w.drop_last()) {
            None => None,
            Some(c) => match find_key(keys, w.last()) {
                None => None,
                Some(p) => Some(c.push(p)),
            },
        }
    }
}

/// Once a prefix of the word fails to map, the whole word fails to map.
pub proof fn lemma_centers_prefix_none(keys: Seq<(char, Point)>, w: Seq<char>, i: int)
    requires
        0 <= i <= w.len(),
        centers_spec(keys, w.take(i)) is None,
    ensures
        centers_spec(keys, w) is None,
    decreases w.len() - i,
{
    if i < w.len() {
        assert(w.take(i + 1).drop_last() =~= w.take(i));
        lemma_centers_prefix_none(keys, w, i + 1);
    } else {
        assert(w.take(i) =~= w);
    }
}

/// Mapped centers of a valid layout are valid points.
pub proof fn lemma_centers_valid(keys: Seq<(char, Point)>, w: Seq<char>)
    requires
        keys_valid(keys),
    ensures
        centers_spec(keys, w) matches Some(c) ==> c.len() == w.len() && points_valid(c),
    decreases w.len(),
{
    if w.len() > 0 {
        lemma_centers_valid(keys, w.drop_last());
        lemma_find_key_valid(keys, w.last());
    }
}

/// The first and last key centers of a word: `None` when the word is empty
/// or its first or last character has no key.
pub open spec fn first_last_spec(keys: Seq<(char, Point)>, w: Seq<char>) -> Option<(Point, Point)> {
    if w.len() == 0 {
        None
    } else {
        match (find_key(keys, w[0]), find_key(keys, w.last())) {
            (Some(f), Some(l)) => Some((f, l)),
            _ => None,
        }
    }
}

/// Interpolation between two coordinates: `j` of `m` equal steps from `a`
/// towards `b`, rounded towards `a`.
pub open spec fn lerp(a: int, b: int, j: int, m: int) -> int
    recommends 0 <= j <= m, 1 <= m,
{
    if b >= a {
        a + (j * (b - a)) / m
    } else {
        a - (j * (a - b)) / m
    }
}

/// Interpolation between two points.
pub open spec fn lerp_point(p: Point, q: Point, j: int, m: int) -> Point
    recommends 0 <= j <= m, 1 <= m,
{
    Point { x: lerp(p.x as int, q.x as int, j, m) as i64, y: lerp(p.y as int, q.y as int, j, m) as i64 }
}

/// `(j * d) / m` stays between `0` and `d` when `0 <= j <= m`.
pub proof fn lemma_step_frac_bounds(j: int, d: int, m: int)
    requires
        0 <= j <= m,
        1 <= m,
        0 <= d,
    ensures
        0 <= (j * d) / m <= d,
        j == m ==> (j * d) / m == d,
{
    assert(0 <= j * d <= m * d) by (nonlinear_arith)
        requires 0 <= j <= m && 0 <= d;
    lemma_div_pos_is_pos(j * d, m);
    lemma_div_is_ordered(j * d, m * d, m);
    lemma_div_multiples_vanish(d, m);
    assert(m * d == d * m) by (nonlinear_arith);
}

/// An interpolated point between two valid points is valid, and the full
/// step lands exactly on the far end.
pub proof fn lemma_lerp_point_valid(p: Point, q: Point, j: int, m: int)
    requires
        point_valid(p),
        point_valid(q),
        0 <= j <= m,
        1 <= m,
    ensures
        point_valid(lerp_point(p, q, j, m)),
        j == m ==> lerp_point(p, q, j, m) == q,
{
    if q.x >= p.x {
        lemma_step_frac_bounds(j, q.x - p.x, m);
    } else {
        lemma_step_frac_bounds(j, p.x - q.x, m);
    }
    if q.y >= p.y {
        lemma_step_frac_bounds(j, q.y - p.y, m);
    } else {
        lemma_step_frac_bounds(j, p.y - q.y, m);
    }
}

/// One interpolation step: `(j * d) / m`, never past `d`.
fn lerp_step(j: u64, d: u64, m: u64) -> (r: u64)
    requires
        1 <= m <= DIST_MAX + 1,
        j <= m,
        d <= SCALE as u64,
    ensures
        r == (j as int * d as int) / (m as int),
        r <= d,
{
    proof {
        assert(j as int * d as int <= 1_500_001int * 1_000_000int) by (nonlinear_arith)
            requires j <= 1_500_001 && d <= 1_000_000;
        lemma_step_frac_bounds(j as int, d as int, m as int);
    }
    (j * d) / m
}

/// Number of sample steps for one leg at the given density: one step per
/// full density unit of leg length, and always at least one.  A density of
/// zero keeps only the leg's endpoints.
pub open spec fn leg_steps(p: Point, q: Point, density: int) -> int {
    if density <= 0 {
        1
    } else {
        dist_spec(p, q) / density + 1
    }
}

/// The sample points of one leg, from one step past `p` up to and
/// including `q`.
pub open spec fn leg_points(p: Point, q: Point, m: int) -> Seq<Point>
    recommends 1 <= m,
{
    Seq::new(m as nat, |j: int| lerp_point(p, q, j + 1, m))
}

/// The polyline through the centers, each leg resampled at the density.
pub open spec fn resample_spec(centers: Seq<Point>, density: int) -> Seq<Point>
    decreases centers.len(),
{
    if centers.len() == 0 {
        Seq::empty()
    } else if centers.len() == 1 {
        centers
    } else {
        resample_spec(centers.drop_last(), density) + leg_points(
            centers[centers.len() - 2],
            centers.last(),
            leg_steps(centers[centers.len() - 2], centers.last(), density),
        )
    }
}

/// A longer center prefix never yields a shorter resampled path.
pub proof fn lemma_resample_prefix_len(centers: Seq<Point>, density: int, i: int)
    requires
        0 <= i <= centers.len(),
    ensures
        resample_spec(centers.take(i), density).len() <= resample_spec(centers, density).len(),
    decreases centers.len() - i,
{
    if i < centers.len() {
        assert(centers.take(i + 1).drop_last() =~= centers.take(i));
        if i >= 1 {
            assert(resample_spec(centers.take(i + 1), density).len() >= resample_spec(
                centers.take(i),
                density,
            ).len());
        }
        lemma_resample_prefix_len(centers, density, i + 1);
    } else {
        assert(centers.take(i) =~= centers);
    }
}

/// The ideal path of a word: its key centers resampled at the density;
/// `None` when the word cannot be mapped or the path would be too long.
pub open spec fn ideal_path_spec(keys: Seq<(char, Point)>, w: Seq<char>, density: int) -> Option<
    Seq<Point>,
> {
    if w.len() == 0 {
        None
    } else {
        match centers_spec(keys, w) {
            None => None,
            Some(c) => {
                let r = resample_spec(c, density);
                if r.len() > MAX_PATH_POINTS {
                    None
                } else {
                    Some(r)
                }
            },
        }
    }
}

impl KeyLayout {
    /// The layout's own well-formedness.
    pub open spec fn valid(self) -> bool {
        keys_valid(self.keys@)
    }

    /// Build a layout from key label/center pairs, validating the centers.
    pub fn new(keys: Vec<(char, Point)>) -> (r: Result<KeyLayout, LoadError>)
        ensures
            match r {
                Ok(l) => l.keys@ == keys@ && l.valid(),
                Err(e) => e == LoadError::KeyCenterOutOfRange && !keys_valid(keys@),
            },
    {
        let n = keys.len();
        let mut i: usize = 0;
        while i < n
            invariant
                0 <= i <= n == keys@.len(),
                forall|k: int| 0 <= k < i ==> point_valid((#[trigger] keys@[k]).1),
            decreases n - i,
        {
            let p = keys[i].1;
            if !(0 <= p.x && p.x <= SCALE && 0 <= p.y && p.y <= SCALE) {
                proof {
                    assert(!point_valid(keys@[i as int].1));
                }
                return Err(LoadError::KeyCenterOutOfRange);
            }
            i = i + 1;
        }
        Ok(KeyLayout { keys })
    }

    /// The center of the first key with the given label, if any.
    pub fn get_key_center(&self, c: char) -> (r: Option<Point>)
        ensures
            r == find_key(self.keys@, c),
    {
        let n = self.keys.len();
        let mut i: usize = 0;
        while i < n
            invariant
                0 <= i <= n == self.keys@.len(),
                forall|j: int| 0 <= j < i ==> (#[trigger] self.keys@[j]).0 != c,
            decreases n - i,
        {
            if self.keys[i].0 == c {
                proof {
                    lemma_find_key_skip(self.keys@, c, i as int);
                    assert(self.keys@.skip(i as int)[0] == self.keys@[i as int]);
                }
                return Some(self.keys[i].1);
            }
            i = i + 1;
        }
        proof {
            lemma_find_key_skip(self.keys@, c, n as int);
            assert(self.keys@.skip(n as int).len() == 0);
        }
        None
    }

    /// The first and last key centers of a word, or `None` when the word
    /// is empty or its first or last character has no key.
    pub fn first_last_points(&self, word: &String) -> (r: Option<(Point, Point)>)
        ensures
            r == first_last_spec(self.keys@, word@),
    {
        let n = word.as_str().unicode_len();
        if n == 0 {
            return None;
        }
        let first = self.get_key_center(word.as_str().get_char(0));
        let last = self.get_key_center(word.as_str().get_char(n - 1));
        match (first, last) {
            (Some(f), Some(l)) => Some((f, l)),
            _ => None,
        }
    }

    /// The ideal path of a word at the given point density (see
    /// `ideal_path_spec`), or `None` when the word cannot be mapped or the
    /// resampled path would exceed `MAX_PATH_POINTS`.
    pub fn build_ideal_path(&self, word: &String, density: u64) -> (r: Option<Vec<Point>>)
        requires
            self.valid(),
        ensures
            match r {
                Some(path) => {
                    &&& ideal_path_spec(self.keys@, word@, density as int) == Some(path@)
                    &&& 1 <= path@.len() <= MAX_PATH_POINTS
                    &&& points_valid(path@)
                },
                None => ideal_path_spec(self.keys@, word@, density as int) is None,
            },
    {
        let n = word.as_str().unicode_len();
        if n == 0 {
            return None;
        }
        // Map every character to its key center.
        let mut centers: Vec<Point> = Vec::new();
        let mut i: usize = 0;
        while i < n
            invariant
                0 <= i <= n == word@.len(),
                self.valid(),
                centers_spec(self.keys@, word@.take(i as int)) == Some(centers@),
                centers@.len() == i,
            decreases n - i,
        {
            let c = word.as_str().get_char(i);
            match self.get_key_center(c) {
                Some(p) => {
                    proof {
                        assert(word@.take(i + 1).drop_last() =~= word@.take(i as int));
                        assert(word@.take(i + 1).last() == word@[i as int]);
                    }
                    centers.push(p);
                },
                None => {
                    proof {
                        assert(word@.take(i + 1).drop_last() =~= word@.take(i as int));
                        assert(centers_spec(self.keys@, word@.take(i + 1)) is None);
                        lemma_centers_prefix_none(self.keys@, word@, i + 1);
                    }
                    return None;
                },
            }
            i = i + 1;
        }
        proof {
            assert(word@.take(n as int) =~= word@);
            lemma_centers_valid(self.keys@, word@);
        }
        // Resample each leg of the center polyline at the density.
        let mut out: Vec<Point> = Vec::new();
        out.push(centers[0]);
        proof {
            assert(centers@.take(1int) =~= seq![centers@[0]]);
            assert(resample_spec(centers@.take(1int), density as int) == centers@.take(1int));
        }
        let mut l: usize = 0;
        while l + 1 < n
            invariant
                0 <= l < n == centers@.len(),
                self.valid(),
                points_valid(centers@),
                centers_spec(self.keys@, word@) == Some(centers@),
                word@.len() == n,
                out@ == resample_spec(centers@.take(l + 1), density as int),
                1 <= out@.len() <= MAX_PATH_POINTS,
                points_valid(out@),
            decreases n - l,
        {
            let p = centers[l];
            let q = centers[l + 1];
            let m: u64 = if density == 0 {
                1
            } else {
                let d = dist_points(p, q);
                d / density + 1
            };
            proof {
                assert(m == leg_steps(centers@[l as int], centers@[l + 1], density as int));
                assert(1 <= m <= DIST_MAX + 1);
            }
            let mut j: u64 = 1;
            while j <= m
                invariant
                    1 <= j <= m + 1,
                    1 <= m <= DIST_MAX + 1,
                    0 <= l < n - 1,
                    n == centers@.len(),
                    p == centers@[l as int],
                    q == centers@[l + 1],
                    point_valid(p),
                    point_valid(q),
                    m == leg_steps(p, q, density as int),
                    centers_spec(self.keys@, word@) == Some(centers@),
                    out@ == resample_spec(centers@.take(l + 1), density as int) + leg_points(
                        p,
                        q,
                        m as int,
                    ).take(j - 1),
                    1 <= out@.len() <= MAX_PATH_POINTS,
                    points_valid(out@),
                decreases m + 1 - j,
            {
                let mx: i64 = if q.x >= p.x {
                    p.x + lerp_step(j, (q.x - p.x) as u64, m) as i64
                } else {
                    p.x - lerp_step(j, (p.x - q.x) as u64, m) as i64
                };
                let my: i64 = if q.y >= p.y {
                    p.y + lerp_step(j, (q.y - p.y) as u64, m) as i64
                } else {
                    p.y - lerp_step(j, (p.y - q.y) as u64, m) as i64
                };
                let pt = Point { x: mx, y: my };
                proof {
                    lemma_lerp_point_valid(p, q, j as int, m as int);
                    assert(pt == lerp_point(p, q, j as int, m as int));
                    assert(leg_points(p, q, m as int)[j - 1] == lerp_point(p, q, j as int, m as int));
                    assert(leg_points(p, q, m as int).take(j as int) =~= leg_points(
                        p,
                        q,
                        m as int,
                    ).take(j - 1).push(pt));
                }
                out.push(pt);
                if out.len() > MAX_PATH_POINTS {
                    proof {
                        let full = resample_spec(centers@, density as int);
                        assert(centers@.take(l + 2).drop_last() =~= centers@.take(l + 1));
                        assert(centers@.take(l + 2).last() == centers@[l + 1]);
                        assert(resample_spec(centers@.take(l + 2), density as int).len() >= out@.len());
                        lemma_resample_prefix_len(centers@, density as int, l + 2);
                        assert(full.len() > MAX_PATH_POINTS);
                    }
                    return None;
                }
                j = j + 1;
            }
            proof {
                lemma_lerp_point_valid(p, q, m as int, m as int);
                assert(centers@.take(l + 2).drop_last() =~= centers@.take(l + 1));
                assert(centers@.take(l + 2).last() == centers@[l + 1]);
                assert(leg_points(p, q, m as int).take(m as int) =~= leg_points(p, q, m as int));
                assert(out@ == resample_spec(centers@.take(l + 2), density as int));
            }
            l = l + 1;
        }
        proof {
            assert(centers@.take(n as int) =~= centers@);
        }
        Some(out)
    }
}

} // verus!
