//! Dominant colors by k-means clustering over 3-D color points.
//!
//! Because pixels and centroids always hold 8-bit integer components (each
//! update rounds the component-wise mean to the nearest integer, and a mean
//! of values in 0..=255 stays in 0..=255), the whole algorithm is exact
//! integer arithmetic: the nearest centroid under Euclidean distance is
//! the one with the smallest squared distance, the rounded mean of a
//! nonempty cluster is `(2 * sum + count) / (2 * count)` with integer
//! division, and the convergence test is plain equality of the old and new
//! centroid sequences.
use vstd::prelude::*;

use crate::color::Color;
use crate::pixels::{valid_rgba, pixel_count, red, green, blue};
use crate::AnalysisError;

verus! {

/// Squared Euclidean distance between two colors. Comparing squared
/// distances orders colors exactly as comparing distances does.
pub open spec fn dist_sq(p: Color, c: Color) -> int {
    (p.r - c.r) * (p.r - c.r) + (p.g - c.g) * (p.g - c.g) + (p.b - c.b) * (p.b - c.b)
}

/// Index of the centroid nearest to `p`, scanning from index `j` with
/// current best index `best`. The comparison is strict, so among
/// equidistant centroids the lowest index wins.
pub open spec fn nearest_from(cents: Seq<Color>, p: Color, j: int, best: int) -> int
    decreases cents.len() - j,
{
    if j < 0 || j >= cents.len() {
        best
    } else if dist_sq(p, cents[j]) < dist_sq(p, cents[best]) {
        nearest_from(cents, p, j + 1, j)
    } else {
        nearest_from(cents, p, j + 1, best)
    }
}

/// Index of the centroid nearest to `p` (lowest index on ties).
pub open spec fn nearest(cents: Seq<Color>, p: Color) -> int {
    nearest_from(cents, p, 1, 0)
}

proof fn lemma_nearest_from_minimizes(cents: Seq<Color>, p: Color, j: int, best: int)
    requires
        0 <= best < j <= cents.len(),
        forall|x: int| 0 <= x < j ==> dist_sq(p, cents[best]) <= dist_sq(p, #[trigger] cents[x]),
        forall|x: int| 0 <= x < best ==> dist_sq(p, #[trigger] cents[x]) > dist_sq(p, cents[best]),
    ensures
        ({
            let r = nearest_from(cents, p, j, best);
            &&& 0 <= r < cents.len()
            &&& forall|x: int|
                0 <= x < cents.len() ==> dist_sq(p, cents[r]) <= dist_sq(p, #[trigger] cents[x])
            &&& forall|x: int| 0 <= x < r ==> dist_sq(p, #[trigger] cents[x]) > dist_sq(p, cents[r])
        }),
    decreases cents.len() - j,
{
    if j < cents.len() {
        if dist_sq(p, cents[j]) < dist_sq(p, cents[best]) {
            lemma_nearest_from_minimizes(cents, p, j + 1, j);
        } else {
            lemma_nearest_from_minimizes(cents, p, j + 1, best);
        }
    }
}

/// The assigned centroid attains the smallest distance to the point, and
/// every centroid before it is strictly farther: among equidistant
/// centroids the lowest index wins. Minimizing the squared distance
/// minimizes the Euclidean distance itself.
pub proof fn lemma_nearest_minimizes(cents: Seq<Color>, p: Color)
    requires
        cents.len() >= 1,
    ensures
        0 <= nearest(cents, p) < cents.len(),
        forall|x: int|
            0 <= x < cents.len() ==> dist_sq(p, cents[nearest(cents, p)]) <= dist_sq(
                p,
                #[trigger] cents[x],
            ),
        forall|x: int|
            0 <= x < nearest(cents, p) ==> dist_sq(p, #[trigger] cents[x]) > dist_sq(
                p,
                cents[nearest(cents, p)],
            ),
{
    lemma_nearest_from_minimizes(cents, p, 1, 0);
}

/// Component `ch` of a color (0 red, 1 green, 2 blue).
pub open spec fn component(c: Color, ch: int) -> u8 {
    if ch == 0 {
        c.r
    } else if ch == 1 {
        c.g
    } else {
        c.b
    }
}

/// How many of the first `n` points are assigned to centroid `j`.
pub open spec fn cluster_count(points: Seq<Color>, cents: Seq<Color>, j: int, n: int) -> int
    decreases n,
{
    if n <= 0 {
        0
    } else {
        cluster_count(points, cents, j, n - 1) + if nearest(cents, points[n - 1]) == j {
            1int
        } else {
            0int
        }
    }
}

/// Sum of component `ch` over the first `n` points assigned to centroid `j`.
pub open spec fn cluster_sum(points: Seq<Color>, cents: Seq<Color>, j: int, ch: int, n: int) -> int
    decreases n,
{
    if n <= 0 {
        0
    } else {
        cluster_sum(points, cents, j, ch, n - 1) + if nearest(cents, points[n - 1]) == j {
            component(points[n - 1], ch) as int
        } else {
            0int
        }
    }
}

/// `s / c` rounded to the nearest integer, halves away from zero, for
/// `s >= 0` and `c > 0`.
pub open spec fn round_div(s: int, c: int) -> int {
    (2 * s + c) / (2 * c)
}

/// The next position of centroid `j`: the component-wise rounded mean of
/// its assigned points, or a copy of centroid 0 when no point is assigned
/// (the empty-cluster fallback can produce duplicate centroids; it is kept
/// for compatibility).
pub open spec fn updated_centroid(points: Seq<Color>, cents: Seq<Color>, j: int) -> Color {
    let n = points.len() as int;
    let cnt = cluster_count(points, cents, j, n);
    if cnt == 0 {
        cents[0]
    } else {
        Color {
            r: round_div(cluster_sum(points, cents, j, 0, n), cnt) as u8,
            g: round_div(cluster_sum(points, cents, j, 1, n), cnt) as u8,
            b: round_div(cluster_sum(points, cents, j, 2, n), cnt) as u8,
        }
    }
}

/// One assignment-and-update round over all centroids.
pub open spec fn update_centroids(points: Seq<Color>, cents: Seq<Color>) -> Seq<Color> {
    Seq::new(cents.len(), |j: int| updated_centroid(points, cents, j))
}

/// The centroids after up to `fuel` rounds, stopping early as soon as a
/// round leaves every centroid unchanged.
pub open spec fn kmeans_iter(points: Seq<Color>, cents: Seq<Color>, fuel: nat) -> Seq<Color>
    decreases fuel,
{
    if fuel == 0 {
        cents
    } else {
        let next = update_centroids(points, cents);
        if next == cents {
            cents
        } else {
            kmeans_iter(points, next, (fuel - 1) as nat)
        }
    }
}

/// Clustering never changes the number of centroids.
pub proof fn lemma_kmeans_len(points: Seq<Color>, cents: Seq<Color>, fuel: nat)
    ensures
        kmeans_iter(points, cents, fuel).len() == cents.len(),
    decreases fuel,
{
    if fuel > 0 {
        let next = update_centroids(points, cents);
        if next != cents {
            lemma_kmeans_len(points, next, (fuel - 1) as nat);
        }
    }
}

proof fn lemma_cluster_count_bound(points: Seq<Color>, cents: Seq<Color>, j: int, n: int)
    requires
        0 <= n,
    ensures
        0 <= cluster_count(points, cents, j, n) <= n,
    decreases n,
{
    if n > 0 {
        lemma_cluster_count_bound(points, cents, j, n - 1);
    }
}

proof fn lemma_cluster_sum_bound(points: Seq<Color>, cents: Seq<Color>, j: int, ch: int, n: int)
    requires
        0 <= n,
    ensures
        0 <= cluster_sum(points, cents, j, ch, n),
        cluster_sum(points, cents, j, ch, n) <= 255 * cluster_count(points, cents, j, n),
    decreases n,
{
    if n > 0 {
        lemma_cluster_sum_bound(points, cents, j, ch, n - 1);
        lemma_cluster_count_bound(points, cents, j, n - 1);
    }
}

/// The rounded mean of values in 0..=255 stays in 0..=255.
proof fn lemma_round_div_bound(s: int, c: int)
    requires
        1 <= c,
        0 <= s <= 255 * c,
    ensures
        0 <= round_div(s, c) <= 255,
{
    vstd::arithmetic::div_mod::lemma_div_pos_is_pos(2 * s + c, 2 * c);
    assert(2 * s + c <= 511 * c) by (nonlinear_arith)
        requires s <= 255 * c, 1 <= c,
    ;
    vstd::arithmetic::div_mod::lemma_div_is_ordered(2 * s + c, 511 * c, 2 * c);
    assert(511 * c == 255 * (2 * c) + c) by (nonlinear_arith);
    vstd::arithmetic::div_mod::lemma_fundamental_div_mod_converse(511 * c, 2 * c, 255, c);
}

fn abs_diff(a: u8, b: u8) -> (d: u8)
    ensures
        a >= b ==> d == a - b,
        a < b ==> d == b - a,
{
    if a >= b {
        a - b
    } else {
        b - a
    }
}

fn dist_sq_exec(p: Color, c: Color) -> (d: u32)
    ensures
        d == dist_sq(p, c),
{
    let dr = abs_diff(p.r, c.r) as u32;
    let dg = abs_diff(p.g, c.g) as u32;
    let db = abs_diff(p.b, c.b) as u32;
    proof {
        assert(dr * dr == (p.r - c.r) * (p.r - c.r) && dr * dr <= 65025) by (nonlinear_arith)
            requires dr == p.r - c.r || dr == c.r - p.r, dr <= 255,
        ;
        assert(dg * dg == (p.g - c.g) * (p.g - c.g) && dg * dg <= 65025) by (nonlinear_arith)
            requires dg == p.g - c.g || dg == c.g - p.g, dg <= 255,
        ;
        assert(db * db == (p.b - c.b) * (p.b - c.b) && db * db <= 65025) by (nonlinear_arith)
            requires db == p.b - c.b || db == c.b - p.b, db <= 255,
        ;
    }
    dr * dr + dg * dg + db * db
}

fn nearest_centroid(cents: &Vec<Color>, p: Color) -> (r: usize)
    requires
        1 <= cents@.len(),
    ensures
        r == nearest(cents@, p),
        r < cents@.len(),
{
    let mut best: usize = 0;
    let mut best_d: u32 = dist_sq_exec(p, cents[0]);
    let mut j: usize = 1;
    while j < cents.len()
        invariant
            1 <= j <= cents@.len(),
            best < j,
            best_d == dist_sq(p, cents@[best as int]),
            nearest_from(cents@, p, j as int, best as int) == nearest(cents@, p),
        decreases cents@.len() - j,
    {
        let d = dist_sq_exec(p, cents[j]);
        if d < best_d {
            best = j;
            best_d = d;
        }
        j += 1;
    }
    best
}

fn colors_equal(a: &Vec<Color>, b: &Vec<Color>) -> (r: bool)
    ensures
        r <==> a@ =~= b@,
{
    if a.len() != b.len() {
        return false;
    }
    let mut i: usize = 0;
    while i < a.len()
        invariant
            i <= a@.len(),
            a@.len() == b@.len(),
            forall|x: int| 0 <= x < i ==> a@[x] == b@[x],
        decreases a@.len() - i,
    {
        if a[i] != b[i] {
            return false;
        }
        i += 1;
    }
    true
}

fn update_step(points: &Vec<Color>, cents: &Vec<Color>) -> (r: Vec<Color>)
    requires
        1 <= points@.len(),
        1 <= cents@.len(),
    ensures
        r@ == update_centroids(points@, cents@),
{
    let k: usize = cents.len();
    let n: usize = points.len();
    let mut counts: Vec<usize> = Vec::new();
    let mut sums_r: Vec<u128> = Vec::new();
    let mut sums_g: Vec<u128> = Vec::new();
    let mut sums_b: Vec<u128> = Vec::new();
    let mut j: usize = 0;
    while j < k
        invariant
            j <= k,
            counts@.len() == j,
            sums_r@.len() == j,
            sums_g@.len() == j,
            sums_b@.len() == j,
            forall|x: int| 0 <= x < j ==> counts@[x] == 0,
            forall|x: int| 0 <= x < j ==> sums_r@[x] == 0,
            forall|x: int| 0 <= x < j ==> sums_g@[x] == 0,
            forall|x: int| 0 <= x < j ==> sums_b@[x] == 0,
        decreases k - j,
    {
        counts.push(0);
        sums_r.push(0);
        sums_g.push(0);
        sums_b.push(0);
        j += 1;
    }

    let mut i: usize = 0;
    while i < n
        invariant
            points@.len() == n,
            cents@.len() == k,
            1 <= k,
            i <= n,
            counts@.len() == k,
            sums_r@.len() == k,
            sums_g@.len() == k,
            sums_b@.len() == k,
            forall|x: int| 0 <= x < k ==> counts@[x] == cluster_count(points@, cents@, x, i as int),
            forall|x: int|
                0 <= x < k ==> sums_r@[x] == cluster_sum(points@, cents@, x, 0, i as int),
            forall|x: int|
                0 <= x < k ==> sums_g@[x] == cluster_sum(points@, cents@, x, 1, i as int),
            forall|x: int|
                0 <= x < k ==> sums_b@[x] == cluster_sum(points@, cents@, x, 2, i as int),
        decreases n - i,
    {
        let p = points[i];
        let c = nearest_centroid(cents, p);
        proof {
            lemma_cluster_count_bound(points@, cents@, c as int, i as int);
            lemma_cluster_sum_bound(points@, cents@, c as int, 0, i as int);
            lemma_cluster_sum_bound(points@, cents@, c as int, 1, i as int);
            lemma_cluster_sum_bound(points@, cents@, c as int, 2, i as int);
            assert(255 * (i as int) < u128::MAX) by (nonlinear_arith)
                requires i < u128::MAX / 255 - 1,
            ;
            assert(255 * cluster_count(points@, cents@, c as int, i as int) <= 255 * (i as int))
                by (nonlinear_arith)
                requires cluster_count(points@, cents@, c as int, i as int) <= i as int,
            ;
        }
        counts[c] = counts[c] + 1;
        sums_r[c] = sums_r[c] + p.r as u128;
        sums_g[c] = sums_g[c] + p.g as u128;
        sums_b[c] = sums_b[c] + p.b as u128;
        proof {
            let ni = i + 1 as int;
            assert forall|x: int| 0 <= x < k implies counts@[x] == cluster_count(
                points@,
                cents@,
                x,
                ni,
            ) by {
                assert(cluster_count(points@, cents@, x, ni) == cluster_count(
                    points@,
                    cents@,
                    x,
                    i as int,
                ) + if nearest(cents@, points@[i as int]) == x {
                    1int
                } else {
                    0int
                });
            }
            assert forall|x: int, ch: int|
                0 <= x < k && 0 <= ch < 3 implies (if ch == 0 {
                sums_r@[x]
            } else if ch == 1 {
                sums_g@[x]
            } else {
                sums_b@[x]
            }) == cluster_sum(points@, cents@, x, ch, ni) by {
                assert(cluster_sum(points@, cents@, x, ch, ni) == cluster_sum(
                    points@,
                    cents@,
                    x,
                    ch,
                    i as int,
                ) + if nearest(cents@, points@[i as int]) == x {
                    component(points@[i as int], ch) as int
                } else {
                    0int
                });
            }
        }
        i += 1;
    }

    let mut out: Vec<Color> = Vec::new();
    let mut j: usize = 0;
    while j < k
        invariant
            points@.len() == n,
            cents@.len() == k,
            1 <= n,
            j <= k,
            out@.len() == j,
            counts@.len() == k,
            sums_r@.len() == k,
            sums_g@.len() == k,
            sums_b@.len() == k,
            forall|x: int| 0 <= x < k ==> counts@[x] == cluster_count(points@, cents@, x, n as int),
            forall|x: int|
                0 <= x < k ==> sums_r@[x] == cluster_sum(points@, cents@, x, 0, n as int),
            forall|x: int|
                0 <= x < k ==> sums_g@[x] == cluster_sum(points@, cents@, x, 1, n as int),
            forall|x: int|
                0 <= x < k ==> sums_b@[x] == cluster_sum(points@, cents@, x, 2, n as int),
            forall|x: int| 0 <= x < j ==> out@[x] == updated_centroid(points@, cents@, x),
        decreases k - j,
    {
        if counts[j] == 0 {
            out.push(cents[0]);
        } else {
            let cnt: u128 = counts[j] as u128;
            proof {
                lemma_cluster_count_bound(points@, cents@, j as int, n as int);
                lemma_cluster_sum_bound(points@, cents@, j as int, 0, n as int);
                lemma_cluster_sum_bound(points@, cents@, j as int, 1, n as int);
                lemma_cluster_sum_bound(points@, cents@, j as int, 2, n as int);
                lemma_round_div_bound(cluster_sum(points@, cents@, j as int, 0, n as int), cnt as int);
                lemma_round_div_bound(cluster_sum(points@, cents@, j as int, 1, n as int), cnt as int);
                lemma_round_div_bound(cluster_sum(points@, cents@, j as int, 2, n as int), cnt as int);
                assert(255 * cluster_count(points@, cents@, j as int, n as int) <= 255 * (n as int))
                    by (nonlinear_arith)
                    requires cluster_count(points@, cents@, j as int, n as int) <= n as int,
                ;
            }
            let rr: u8 = ((2 * sums_r[j] + cnt) / (2 * cnt)) as u8;
            let gg: u8 = ((2 * sums_g[j] + cnt) / (2 * cnt)) as u8;
            let bb: u8 = ((2 * sums_b[j] + cnt) / (2 * cnt)) as u8;
            out.push(Color { r: rr, g: gg, b: bb });
        }
        j += 1;
    }
    proof {
        assert(out@ =~= update_centroids(points@, cents@));
    }
    out
}

/// Sum of component `ch` over the first `n` points.
pub open spec fn total_component(points: Seq<Color>, ch: int, n: int) -> int
    decreases n,
{
    if n <= 0 {
        0
    } else {
        total_component(points, ch, n - 1) + component(points[n - 1], ch)
    }
}

/// The component-wise mean of all points, each component rounded to the
/// nearest integer.
pub open spec fn mean_color(points: Seq<Color>) -> Color {
    let n = points.len() as int;
    Color {
        r: round_div(total_component(points, 0, n), n) as u8,
        g: round_div(total_component(points, 1, n), n) as u8,
        b: round_div(total_component(points, 2, n), n) as u8,
    }
}

proof fn lemma_nearest_single(cents: Seq<Color>, p: Color)
    requires
        cents.len() == 1,
    ensures
        nearest(cents, p) == 0,
{
}

proof fn lemma_single_cluster_totals(points: Seq<Color>, cents: Seq<Color>, ch: int, n: int)
    requires
        cents.len() == 1,
        0 <= n <= points.len(),
    ensures
        cluster_count(points, cents, 0, n) == n,
        cluster_sum(points, cents, 0, ch, n) == total_component(points, ch, n),
    decreases n,
{
    if n > 0 {
        lemma_single_cluster_totals(points, cents, ch, n - 1);
        lemma_nearest_single(cents, points[n - 1]);
    }
}

proof fn lemma_update_single(points: Seq<Color>, cents: Seq<Color>)
    requires
        cents.len() == 1,
        points.len() >= 1,
    ensures
        update_centroids(points, cents) =~= seq![mean_color(points)],
{
    let n = points.len() as int;
    lemma_single_cluster_totals(points, cents, 0, n);
    lemma_single_cluster_totals(points, cents, 1, n);
    lemma_single_cluster_totals(points, cents, 2, n);
}

/// With a single cluster the result is always the single component-wise
/// rounded mean of all points, whatever the initial centroid and whatever
/// the iteration bound, provided at least one round runs.
pub proof fn lemma_single_cluster_mean(points: Seq<Color>, init: Seq<Color>, fuel: nat)
    requires
        points.len() >= 1,
        init.len() == 1,
        fuel >= 1,
    ensures
        kmeans_iter(points, init, fuel) =~= seq![mean_color(points)],
{
    let m = seq![mean_color(points)];
    lemma_update_single(points, init);
    let next = update_centroids(points, init);
    assert(next == m);
    if next == init {
        assert(kmeans_iter(points, init, fuel) == init);
    } else {
        assert(kmeans_iter(points, init, fuel) == kmeans_iter(points, next, (fuel - 1) as nat));
        if fuel == 1 {
        } else {
            lemma_update_single(points, next);
            assert(update_centroids(points, next) == m);
        }
    }
}

/// Clustering is deterministic: any two results computed from the same
/// points, the same initial centroids and the same iteration bound are
/// equal, so repeating an analysis with an identically seeded random
/// source repeats the colors.
pub proof fn lemma_clustering_deterministic(
    points: Seq<Color>,
    init: Seq<Color>,
    fuel: nat,
    a: Seq<Color>,
    b: Seq<Color>,
)
    requires
        a == kmeans_iter(points, init, fuel),
        b == kmeans_iter(points, init, fuel),
    ensures
        a == b,
{
}

fn kmeans_run(points: &Vec<Color>, init: Vec<Color>, max_iter: u32) -> (r: Vec<Color>)
    requires
        1 <= points@.len(),
        1 <= init@.len(),
    ensures
        r@ == kmeans_iter(points@, init@, max_iter as nat),
{
    let ghost orig = init@;
    let mut cents = init;
    let mut iter: u32 = 0;
    let mut converged = false;
    while iter < max_iter && !converged
        invariant
            1 <= points@.len(),
            1 <= cents@.len(),
            iter <= max_iter,
            !converged ==> kmeans_iter(points@, orig, max_iter as nat) == kmeans_iter(
                points@,
                cents@,
                (max_iter - iter) as nat,
            ),
            converged ==> kmeans_iter(points@, orig, max_iter as nat) == cents@,
        decreases max_iter - iter, if converged { 0int } else { 1int },
    {
        let ghost fuel = (max_iter - iter) as nat;
        let next = update_step(points, &cents);
        let eq = colors_equal(&cents, &next);
        if eq {
            proof {
                assert(update_centroids(points@, cents@) == cents@);
                assert(kmeans_iter(points@, cents@, fuel) == cents@);
            }
            converged = true;
        } else {
            proof {
                assert(update_centroids(points@, cents@) != cents@);
                assert(kmeans_iter(points@, cents@, fuel) == kmeans_iter(
                    points@,
                    next@,
                    (fuel - 1) as nat,
                ));
            }
            cents = next;
            iter += 1;
        }
    }
    cents
}

/// The buffer's pixels as 3-D color points, alpha dropped.
pub open spec fn point_seq(buf: Seq<u8>) -> Seq<Color> {
    Seq::new((buf.len() / 4) as nat, |i: int| Color { r: red(buf, i), g: green(buf, i), b: blue(buf, i) })
}

/// The centroids drawn from the point set by a sequence of sampled indices.
pub open spec fn init_centroids(points: Seq<Color>, idxs: Seq<int>) -> Seq<Color> {
    Seq::new(idxs.len(), |j: int| points[idxs[j]])
}

fn collect_points(pixels: &[u8]) -> (r: Vec<Color>)
    requires
        valid_rgba(pixels@),
    ensures
        r@ == point_seq(pixels@),
{
    let len: usize = pixels.len();
    let n: usize = len / 4;
    let mut r: Vec<Color> = Vec::new();
    let mut i: usize = 0;
    while i < n
        invariant
            pixels@.len() == 4 * n,
            i <= n,
            r@.len() == i,
            forall|x: int| 0 <= x < i ==> r@[x] == point_seq(pixels@)[x],
        decreases n - i,
    {
        let (pr, pg, pb) = crate::pixels::read_pixel(pixels, i);
        r.push(Color { r: pr, g: pg, b: pb });
        i += 1;
    }
    proof {
        assert(r@ =~= point_seq(pixels@));
    }
    r
}

/// Runs k-means from the given initial sample: the centroids start at the
/// points picked by `init_indices` and are refined for up to `max_iter`
/// rounds. The result is a pure function of the arguments, so two calls on
/// equal inputs return equal colors.
///
/// The buffer is rejected when its length is not a multiple of four; the
/// sample is rejected when it is empty or larger than the point set.
pub fn dominant_colors_from_indices(
    pixels: &[u8],
    init_indices: &Vec<usize>,
    max_iter: u32,
) -> (res: Result<Vec<Color>, AnalysisError>)
    requires
        forall|j: int|
            0 <= j < init_indices@.len() ==> (init_indices@[j] as int) < pixel_count(pixels@),
    ensures
        match res {
            Ok(cols) => {
                &&& valid_rgba(pixels@)
                &&& 1 <= init_indices@.len() <= pixel_count(pixels@)
                &&& cols@ == kmeans_iter(
                    point_seq(pixels@),
                    init_centroids(
                        point_seq(pixels@),
                        init_indices@.map(|j: int, x: usize| x as int),
                    ),
                    max_iter as nat,
                )
                &&& cols@.len() == init_indices@.len()
            },
            Err(AnalysisError::InvalidBufferLength) => !valid_rgba(pixels@),
            Err(AnalysisError::InvalidK) => {
                &&& valid_rgba(pixels@)
                &&& (init_indices@.len() == 0 || init_indices@.len() > pixel_count(pixels@))
            },
            Err(_) => false,
        },
{
    let len: usize = pixels.len();
    if len % 4 != 0 {
        return Err(AnalysisError::InvalidBufferLength);
    }
    let n: usize = len / 4;
    let k: usize = init_indices.len();
    if k == 0 || k > n {
        return Err(AnalysisError::InvalidK);
    }
    let points = collect_points(pixels);
    let mut init: Vec<Color> = Vec::new();
    let mut j: usize = 0;
    let ghost idxs = init_indices@.map(|jj: int, x: usize| x as int);
    while j < k
        invariant
            points@ == point_seq(pixels@),
            points@.len() == n,
            1 <= k <= n,
            init_indices@.len() == k,
            idxs == init_indices@.map(|jj: int, x: usize| x as int),
            forall|x: int| 0 <= x < k ==> (init_indices@[x] as int) < n,
            j <= k,
            init@.len() == j,
            forall|x: int| 0 <= x < j ==> init@[x] == init_centroids(points@, idxs)[x],
        decreases k - j,
    {
        let idx = init_indices[j];
        init.push(points[idx]);
        j += 1;
    }
    proof {
        assert(init@ =~= init_centroids(point_seq(pixels@), idxs));
    }
    let cols = kmeans_run(&points, init, max_iter);
    proof {
        lemma_kmeans_len(point_seq(pixels@), init_centroids(point_seq(pixels@), idxs), max_iter as nat);
    }
    Ok(cols)
}

/// Finds the `k` most dominant colors of the buffer by k-means clustering,
/// drawing the `k` initial centroids uniformly (with replacement) from the
/// pixels through the caller-supplied random source.
///
/// Whatever the random source returns, the result is the clustering of the
/// buffer's points from some sequence of `k` sampled pixel indices, with at
/// most `max_iter` refinement rounds. Validation happens before any
/// sampling: a buffer whose length is not a multiple of four is rejected,
/// as is a `k` of zero or one that exceeds the pixel count.
pub fn find_dominant_colors(
    pixels: &[u8],
    k: u32,
    max_iter: u32,
    rng: &mut rand::rngs::StdRng,
) -> (res: Result<Vec<Color>, AnalysisError>)
    ensures
        match res {
            Ok(cols) => {
                &&& valid_rgba(pixels@)
                &&& 1 <= k <= pixel_count(pixels@)
                &&& cols@.len() == k
                &&& exists|idxs: Seq<int>|
                    {
                        &&& idxs.len() == k
                        &&& (forall|j: int| 0 <= j < k ==> 0 <= #[trigger] idxs[j] < pixel_count(pixels@))
                        &&& cols@ == kmeans_iter(
                            point_seq(pixels@),
                            init_centroids(point_seq(pixels@), idxs),
                            max_iter as nat,
                        )
                    }
            },
            Err(AnalysisError::InvalidBufferLength) => !valid_rgba(pixels@),
            Err(AnalysisError::InvalidK) => {
                &&& valid_rgba(pixels@)
                &&& (k == 0 || k > pixel_count(pixels@))
            },
            Err(_) => false,
        },
{
    let len: usize = pixels.len();
    if len % 4 != 0 {
        return Err(AnalysisError::InvalidBufferLength);
    }
    let n: usize = len / 4;
    if k == 0 || k as u64 > n as u64 {
        return Err(AnalysisError::InvalidK);
    }
    let kk: usize = k as usize;
    let mut indices: Vec<usize> = Vec::new();
    let mut j: usize = 0;
    while j < kk
        invariant
            1 <= n,
            j <= kk,
            indices@.len() == j,
            pixels@.len() == 4 * n,
            forall|x: int| 0 <= x < j ==> (indices@[x] as int) < n,
        decreases kk - j,
    {
        let idx = crate::rng::rand_index(rng, n);
        indices.push(idx);
        j += 1;
    }
    let res = dominant_colors_from_indices(pixels, &indices, max_iter);
    match res {
        Ok(cols) => {
            proof {
                let idxs = indices@.map(|jj: int, x: usize| x as int);
                assert(idxs.len() == k);
                assert(forall|j: int| 0 <= j < k ==> 0 <= #[trigger] idxs[j] < pixel_count(pixels@));
            }
            Ok(cols)
        },
        Err(e) => Err(e),
    }
}

} // verus!
