//! Lloyd's k-means on fixed-point points with integer sample weights.
//!
//! Centers are rounded to the nearest fixed-point value after each update,
//! so the whole algorithm is exact and deterministic.
use vstd::prelude::*;

use crate::linalg::{
    is_matrix, mat, row_bounded, sq_dist, sq_dist_prefix, squared_distance, MAX_COORD, MAX_SQ_DIST,
};

verus! {

/// Largest sample weight.
pub const MAX_WEIGHT: i64 = 1_000_000;

/// Largest number of points handed to k-means.
pub const MAX_SAMPLES: usize = 1_048_576;

/// Sample weights: one per point, each in `0..=MAX_WEIGHT`.
pub open spec fn weights_ok(w: Seq<i64>, n: int) -> bool {
    w.len() == n && forall|i: int| 0 <= i < n ==> 0 <= #[trigger] w[i] <= MAX_WEIGHT
}

/// Points and centers that k-means accepts: at most `MAX_SAMPLES` points
/// and between one and `MAX_SAMPLES` centers, all with `d` bounded coordinates.
pub open spec fn kmeans_input(x: Seq<Seq<i64>>, c: Seq<Seq<i64>>, d: int) -> bool {
    &&& is_matrix(x, d)
    &&& is_matrix(c, d)
    &&& x.len() <= MAX_SAMPLES
    &&& 0 < c.len() <= MAX_SAMPLES
}

/// The first center among `0..j` nearest to `p`.
pub open spec fn nearest_upto(c: Seq<Seq<i64>>, p: Seq<i64>, j: int) -> int
    decreases j,
{
    if j <= 1 {
        0
    } else {
        let m = nearest_upto(c, p, j - 1);
        if sq_dist(p, c[j - 1]) < sq_dist(p, c[m]) {
            j - 1
        } else {
            m
        }
    }
}

/// The nearest center to `p`, the lowest index on a tie.
pub open spec fn nearest(c: Seq<Seq<i64>>, p: Seq<i64>) -> int {
    nearest_upto(c, p, c.len() as int)
}

/// The label of every point: its nearest center.
pub open spec fn assign(x: Seq<Seq<i64>>, c: Seq<Seq<i64>>) -> Seq<usize> {
    Seq::new(x.len(), |i: int| nearest(c, x[i]) as usize)
}

/// Total weight of the first `upto` points that carry label `j`.
pub open spec fn weight_in(w: Seq<i64>, labels: Seq<usize>, j: int, upto: int) -> int
    decreases upto,
{
    if upto <= 0 {
        0
    } else {
        weight_in(w, labels, j, upto - 1) + if labels[upto - 1] == j {
            w[upto - 1] as int
        } else {
            0
        }
    }
}

/// Weighted sum of coordinate `f` over the first `upto` points with label `j`.
pub open spec fn coord_sum(
    x: Seq<Seq<i64>>,
    w: Seq<i64>,
    labels: Seq<usize>,
    j: int,
    f: int,
    upto: int,
) -> int
    decreases upto,
{
    if upto <= 0 {
        0
    } else {
        coord_sum(x, w, labels, j, f, upto - 1) + if labels[upto - 1] == j {
            w[upto - 1] * x[upto - 1][f]
        } else {
            0
        }
    }
}

/// `s / wt` rounded to the nearest integer (halves upwards), for `wt > 0`
/// and `|s| <= wt * MAX_COORD`.
pub open spec fn rounded_mean(s: int, wt: int) -> int {
    (2 * (s + wt * MAX_COORD) + wt) / (2 * wt) - MAX_COORD
}

/// The new center of cluster `j`: the rounded weighted mean of its points,
/// or the old center when the cluster holds no weight.
pub open spec fn updated_center(
    x: Seq<Seq<i64>>,
    w: Seq<i64>,
    labels: Seq<usize>,
    old: Seq<Seq<i64>>,
    j: int,
) -> Seq<i64> {
    let n = x.len() as int;
    let wt = weight_in(w, labels, j, n);
    if wt > 0 {
        Seq::new(
            old[j].len(),
            |f: int| rounded_mean(coord_sum(x, w, labels, j, f, n), wt) as i64,
        )
    } else {
        old[j]
    }
}

/// All centers after an update step.
pub open spec fn update(
    x: Seq<Seq<i64>>,
    w: Seq<i64>,
    labels: Seq<usize>,
    old: Seq<Seq<i64>>,
) -> Seq<Seq<i64>> {
    Seq::new(old.len(), |j: int| updated_center(x, w, labels, old, j))
}

/// Sum of the squared shifts of the centers.
pub open spec fn total_shift(old: Seq<Seq<i64>>, new: Seq<Seq<i64>>, upto: int) -> int
    decreases upto,
{
    if upto <= 0 {
        0
    } else {
        total_shift(old, new, upto - 1) + sq_dist(old[upto - 1], new[upto - 1])
    }
}

/// Weighted sum of squared distances of the first `upto` points to their
/// labelled centers.
pub open spec fn inertia_upto(
    x: Seq<Seq<i64>>,
    w: Seq<i64>,
    c: Seq<Seq<i64>>,
    labels: Seq<usize>,
    upto: int,
) -> int
    decreases upto,
{
    if upto <= 0 {
        0
    } else {
        inertia_upto(x, w, c, labels, upto - 1) + w[upto - 1] * sq_dist(
            x[upto - 1],
            c[labels[upto - 1] as int],
        )
    }
}

/// Inertia: the weighted sum of squared distances of the points to their
/// labelled centers.
pub open spec fn inertia(
    x: Seq<Seq<i64>>,
    w: Seq<i64>,
    c: Seq<Seq<i64>>,
    labels: Seq<usize>,
) -> int {
    inertia_upto(x, w, c, labels, x.len() as int)
}

/// Lloyd's iterations from iteration `i` with `centers`, the labels of the
/// previous iteration being `labels_old`: the last labels, the centers, the
/// number of iterations run, and whether the labels stopped changing.
pub open spec fn lloyd_from(
    x: Seq<Seq<i64>>,
    w: Seq<i64>,
    centers: Seq<Seq<i64>>,
    labels_old: Option<Seq<usize>>,
    labels: Seq<usize>,
    i: int,
    max_iter: int,
    tol: int,
) -> (Seq<usize>, Seq<Seq<i64>>, int, bool)
    decreases max_iter - i,
{
    if i >= max_iter {
        (labels, centers, i, false)
    } else {
        let new_labels = assign(x, centers);
        let new_centers = update(x, w, new_labels, centers);
        if labels_old == Some(new_labels) {
            (new_labels, new_centers, i + 1, true)
        } else if total_shift(centers, new_centers, centers.len() as int) <= tol {
            (new_labels, new_centers, i + 1, false)
        } else {
            lloyd_from(x, w, new_centers, Some(new_labels), new_labels, i + 1, max_iter, tol)
        }
    }
}

/// The outcome of one k-means run from `c0`: labels, inertia, centers and
/// the number of iterations. Unless the labels stopped changing, they are
/// computed once more against the final centers.
pub open spec fn lloyd_result(
    x: Seq<Seq<i64>>,
    w: Seq<i64>,
    c0: Seq<Seq<i64>>,
    max_iter: int,
    tol: int,
) -> (Seq<usize>, int, Seq<Seq<i64>>, int) {
    let r = lloyd_from(x, w, c0, None, Seq::new(x.len(), |i: int| 0usize), 0, max_iter, tol);
    let labels = if r.3 {
        r.0
    } else {
        assign(x, r.1)
    };
    (labels, inertia(x, w, r.1, labels), r.1, r.2)
}

pub proof fn lemma_nearest_bounds(c: Seq<Seq<i64>>, p: Seq<i64>, j: int)
    requires
        1 <= j <= c.len(),
    ensures
        0 <= nearest_upto(c, p, j) < j,
        forall|t: int|
            0 <= t < j ==> sq_dist(p, c[nearest_upto(c, p, j)]) <= #[trigger] sq_dist(p, c[t]),
    decreases j,
{
    if j > 1 {
        lemma_nearest_bounds(c, p, j - 1);
    }
}

pub proof fn lemma_weight_bounds(w: Seq<i64>, labels: Seq<usize>, j: int, upto: int)
    requires
        0 <= upto <= w.len(),
        upto <= labels.len(),
        forall|i: int| 0 <= i < w.len() ==> 0 <= #[trigger] w[i] <= MAX_WEIGHT,
    ensures
        0 <= weight_in(w, labels, j, upto) <= upto * MAX_WEIGHT,
    decreases upto,
{
    if upto > 0 {
        lemma_weight_bounds(w, labels, j, upto - 1);
    }
}

pub proof fn lemma_coord_sum_bounds(
    x: Seq<Seq<i64>>,
    w: Seq<i64>,
    labels: Seq<usize>,
    j: int,
    f: int,
    upto: int,
    d: int,
)
    requires
        0 <= upto <= x.len(),
        is_matrix(x, d),
        0 <= f < d,
        weights_ok(w, x.len() as int),
        upto <= labels.len(),
    ensures
        -weight_in(w, labels, j, upto) * MAX_COORD <= coord_sum(x, w, labels, j, f, upto)
            <= weight_in(w, labels, j, upto) * MAX_COORD,
    decreases upto,
{
    if upto > 0 {
        lemma_coord_sum_bounds(x, w, labels, j, f, upto - 1, d);
        let i = upto - 1;
        if labels[i] == j {
            let wi = w[i] as int;
            let xi = x[i][f] as int;
            assert(row_bounded(x[i]));
            assert(-wi * MAX_COORD <= wi * xi <= wi * MAX_COORD) by (nonlinear_arith)
                requires
                    0 <= wi,
                    -MAX_COORD <= xi <= MAX_COORD,
            ;
            let a = weight_in(w, labels, j, i);
            assert((a + wi) * MAX_COORD == a * MAX_COORD + wi * MAX_COORD) by (nonlinear_arith);
        }
    }
}

pub proof fn lemma_rounded_mean_bounds(s: int, wt: int)
    requires
        wt > 0,
        -wt * MAX_COORD <= s <= wt * MAX_COORD,
    ensures
        -MAX_COORD <= rounded_mean(s, wt) <= MAX_COORD,
{
    let num = 2 * (s + wt * MAX_COORD) + wt;
    let den = 2 * wt;
    assert(0 <= num <= den * (2 * MAX_COORD) + wt) by (nonlinear_arith)
        requires
            wt > 0,
            -wt * MAX_COORD <= s <= wt * MAX_COORD,
            num == 2 * (s + wt * MAX_COORD) + wt,
            den == 2 * wt,
    ;
    assert(0 <= num / den <= 2 * MAX_COORD) by (nonlinear_arith)
        requires
            den > 0,
            wt > 0,
            den == 2 * wt,
            0 <= num <= den * (2 * MAX_COORD) + wt,
    ;
}

/// An update keeps centers bounded.
pub proof fn lemma_update_bounded(
    x: Seq<Seq<i64>>,
    w: Seq<i64>,
    labels: Seq<usize>,
    old: Seq<Seq<i64>>,
    d: int,
)
    requires
        is_matrix(x, d),
        is_matrix(old, d),
        weights_ok(w, x.len() as int),
        labels.len() == x.len(),
    ensures
        is_matrix(update(x, w, labels, old), d),
{
    let new = update(x, w, labels, old);
    assert forall|j: int| 0 <= j < new.len() implies (#[trigger] new[j]).len() == d && row_bounded(
        new[j],
    ) by {
        let n = x.len() as int;
        let wt = weight_in(w, labels, j, n);
        if wt > 0 {
            assert forall|f: int| 0 <= f < new[j].len() implies -MAX_COORD <= #[trigger] new[j][f]
                <= MAX_COORD by {
                lemma_coord_sum_bounds(x, w, labels, j, f, n, d);
                lemma_rounded_mean_bounds(coord_sum(x, w, labels, j, f, n), wt);
            }
        }
    }
}

/// Updating twice with the same labels changes nothing more.
pub proof fn lemma_update_idempotent(
    x: Seq<Seq<i64>>,
    w: Seq<i64>,
    labels: Seq<usize>,
    old: Seq<Seq<i64>>,
)
    ensures
        update(x, w, labels, update(x, w, labels, old)) == update(x, w, labels, old),
{
    let once = update(x, w, labels, old);
    let twice = update(x, w, labels, once);
    assert forall|j: int| 0 <= j < once.len() implies #[trigger] twice[j] == once[j] by {
        let wt = weight_in(w, labels, j, x.len() as int);
        if wt > 0 {
            assert(twice[j] =~= once[j]);
        }
    }
    assert(twice =~= once);
}

/// The index of the center nearest to `p`, the lowest one on a tie.
fn nearest_center(centers: &Vec<Vec<i64>>, p: &Vec<i64>, d: usize) -> (r: usize)
    requires
        is_matrix(mat(centers@), d as int),
        centers.len() > 0,
        p.len() == d,
        row_bounded(p@),
    ensures
        r == nearest(mat(centers@), p@),
        r < centers.len(),
{
    let ghost c = mat(centers@);
    assert(c[0] == centers@[0]@);
    let mut best: usize = 0;
    let mut best_d = squared_distance(p, &centers[0]);
    for j in 1..centers.len()
        invariant
            c == mat(centers@),
            is_matrix(c, d as int),
            p.len() == d,
            row_bounded(p@),
            best == nearest_upto(c, p@, j as int),
            best < j,
            best_d == sq_dist(p@, c[best as int]),
    {
        assert(c[j as int] == centers@[j as int]@);
        let dj = squared_distance(p, &centers[j]);
        if dj < best_d {
            best = j;
            best_d = dj;
        }
    }
    best
}

/// The nearest center of every point.
fn assign_labels(x: &Vec<Vec<i64>>, centers: &Vec<Vec<i64>>, d: usize) -> (r: Vec<usize>)
    requires
        kmeans_input(mat(x@), mat(centers@), d as int),
    ensures
        r@ == assign(mat(x@), mat(centers@)),
        forall|i: int| 0 <= i < r.len() ==> #[trigger] r@[i] < centers.len(),
{
    let mut labels: Vec<usize> = Vec::new();
    for i in 0..x.len()
        invariant
            kmeans_input(mat(x@), mat(centers@), d as int),
            labels.len() == i,
            forall|t: int| 0 <= t < i ==> #[trigger] labels@[t] == nearest(mat(centers@), x@[t]@),
            forall|t: int| 0 <= t < i ==> #[trigger] labels@[t] < centers.len(),
    {
        assert(mat(x@)[i as int] == x@[i as int]@);
        let l = nearest_center(centers, &x[i], d);
        labels.push(l);
    }
    assert(labels@ =~= assign(mat(x@), mat(centers@)));
    labels
}

/// The new center of cluster `j` and the weight it holds.
fn center_of(
    x: &Vec<Vec<i64>>,
    w: &Vec<i64>,
    labels: &Vec<usize>,
    old: &Vec<Vec<i64>>,
    j: usize,
    d: usize,
) -> (r: (Vec<i64>, i64))
    requires
        kmeans_input(mat(x@), mat(old@), d as int),
        weights_ok(w@, x.len() as int),
        labels.len() == x.len(),
        j < old.len(),
    ensures
        r.0@ == updated_center(mat(x@), w@, labels@, mat(old@), j as int),
        r.1 == weight_in(w@, labels@, j as int, x.len() as int),
{
    let ghost xs = mat(x@);
    let n = x.len();
    let mut wt: i64 = 0;
    let mut sums: Vec<i64> = Vec::new();
    for f in 0..d
        invariant
            sums.len() == f,
            forall|t: int| 0 <= t < f ==> #[trigger] sums@[t] == 0,
    {
        sums.push(0);
    }
    for i in 0..n
        invariant
            xs == mat(x@),
            n == x.len(),
            kmeans_input(xs, mat(old@), d as int),
            weights_ok(w@, n as int),
            labels.len() == n,
            sums.len() == d,
            wt == weight_in(w@, labels@, j as int, i as int),
            forall|f: int|
                0 <= f < d ==> #[trigger] sums@[f] == coord_sum(
                    xs,
                    w@,
                    labels@,
                    j as int,
                    f,
                    i as int,
                ),
    {
        if labels[i] == j {
            let wi = w[i];
            assert(xs[i as int] == x@[i as int]@);
            proof {
                lemma_weight_bounds(w@, labels@, j as int, (i + 1) as int);
                let ii = (i + 1) as int;
                assert(ii * MAX_WEIGHT <= 1_048_576 * 1_000_000) by (nonlinear_arith)
                    requires
                        0 <= ii <= 1_048_576,
                ;
            }
            wt = wt + wi;
            let ghost sums0 = sums@;
            for f in 0..d
                invariant
                    xs == mat(x@),
                    n == x.len(),
                    i < n,
                    kmeans_input(xs, mat(old@), d as int),
                    weights_ok(w@, n as int),
                    labels.len() == n,
                    labels@[i as int] == j,
                    wi == w@[i as int],
                    sums.len() == d,
                    forall|g: int|
                        0 <= g < f ==> #[trigger] sums@[g] == coord_sum(
                            xs,
                            w@,
                            labels@,
                            j as int,
                            g,
                            (i + 1) as int,
                        ),
                    forall|g: int| f <= g < d ==> #[trigger] sums@[g] == sums0[g],
                    forall|g: int|
                        0 <= g < d ==> #[trigger] sums0[g] == coord_sum(
                            xs,
                            w@,
                            labels@,
                            j as int,
                            g,
                            i as int,
                        ),
            {
                proof {
                    lemma_coord_sum_bounds(xs, w@, labels@, j as int, f as int, (i + 1) as int, d as int);
                    lemma_weight_bounds(w@, labels@, j as int, (i + 1) as int);
                    let a = weight_in(w@, labels@, j as int, (i + 1) as int);
                    let ii = (i + 1) as int;
                    assert(a * MAX_COORD <= 1_048_576 * 1_000_000 * MAX_COORD) by (nonlinear_arith)
                        requires
                            0 <= a <= ii * MAX_WEIGHT,
                            0 <= ii <= 1_048_576,
                    ;
                    assert(row_bounded(xs[i as int]));
                    let xv = x@[i as int]@[f as int] as int;
                    assert(-1_000_000 * MAX_COORD <= wi * xv <= 1_000_000 * MAX_COORD) by (nonlinear_arith)
                        requires
                            0 <= wi <= 1_000_000,
                            -MAX_COORD <= xv <= MAX_COORD,
                    ;
                }
                let v = sums[f] + wi * x[i][f];
                sums.set(f, v);
            }
        } else {
            assert forall|f: int| 0 <= f < d implies #[trigger] sums@[f] == coord_sum(
                xs,
                w@,
                labels@,
                j as int,
                f,
                (i + 1) as int,
            ) by {}
        }
    }
    if wt > 0 {
        let mut center: Vec<i64> = Vec::new();
        for f in 0..d
            invariant
                xs == mat(x@),
                kmeans_input(xs, mat(old@), d as int),
                weights_ok(w@, n as int),
                n == x.len(),
                labels.len() == n,
                sums.len() == d,
                wt > 0,
                wt == weight_in(w@, labels@, j as int, n as int),
                forall|g: int|
                    0 <= g < d ==> #[trigger] sums@[g] == coord_sum(
                        xs,
                        w@,
                        labels@,
                        j as int,
                        g,
                        n as int,
                    ),
                center.len() == f,
                forall|g: int|
                    0 <= g < f ==> #[trigger] center@[g] == rounded_mean(
                        coord_sum(xs, w@, labels@, j as int, g, n as int),
                        wt as int,
                    ) as i64,
        {
            proof {
                lemma_coord_sum_bounds(xs, w@, labels@, j as int, f as int, n as int, d as int);
                lemma_weight_bounds(w@, labels@, j as int, n as int);
                lemma_rounded_mean_bounds(sums@[f as int] as int, wt as int);
                let nn = n as int;
                assert(wt * MAX_COORD <= 1_048_576 * 1_000_000 * MAX_COORD) by (nonlinear_arith)
                    requires
                        0 <= wt <= nn * MAX_WEIGHT,
                        0 <= nn <= 1_048_576,
                ;
            }
            let num = 2 * (sums[f] + wt * MAX_COORD) + wt;
            let m = num / (2 * wt) - MAX_COORD;
            center.push(m);
        }
        assert(mat(old@)[j as int] == old@[j as int]@);
        assert(center@ =~= updated_center(xs, w@, labels@, mat(old@), j as int));
        (center, wt)
    } else {
        assert(mat(old@)[j as int] == old@[j as int]@);
        (old[j].clone(), wt)
    }
}

/// Sum of the squared shifts between two lists of centers.
fn center_shift_total(old: &Vec<Vec<i64>>, new: &Vec<Vec<i64>>, d: usize) -> (r: i128)
    requires
        is_matrix(mat(old@), d as int),
        is_matrix(mat(new@), d as int),
        old.len() == new.len(),
        old.len() <= MAX_SAMPLES,
    ensures
        r == total_shift(mat(old@), mat(new@), old.len() as int),
{
    let mut acc: i128 = 0;
    for j in 0..old.len()
        invariant
            is_matrix(mat(old@), d as int),
            is_matrix(mat(new@), d as int),
            old.len() == new.len(),
            old.len() <= MAX_SAMPLES,
            acc == total_shift(mat(old@), mat(new@), j as int),
            0 <= acc <= j * MAX_SQ_DIST,
    {
        assert(mat(old@)[j as int] == old@[j as int]@);
        assert(mat(new@)[j as int] == new@[j as int]@);
        let s = squared_distance(&old[j], &new[j]);
        acc = acc + s as i128;
    }
    acc
}

/// One Lloyd iteration: labels against `centers_old`, then (when
/// `update_centers`) the new centers, the weight each cluster holds and the
/// squared shift of each center. Without the update the centers are kept
/// and the weights and shifts are zero.
pub fn lloyd_iteration(
    x: &Vec<Vec<i64>>,
    sample_weight: &Vec<i64>,
    centers_old: &Vec<Vec<i64>>,
    d: usize,
    update_centers: bool,
) -> (r: (Vec<Vec<i64>>, Vec<i64>, Vec<usize>, Vec<i64>))
    requires
        kmeans_input(mat(x@), mat(centers_old@), d as int),
        weights_ok(sample_weight@, x.len() as int),
    ensures
        r.2@ == assign(mat(x@), mat(centers_old@)),
        forall|i: int| 0 <= i < r.2.len() ==> #[trigger] r.2@[i] < centers_old.len(),
        update_centers ==> mat(r.0@) == update(mat(x@), sample_weight@, r.2@, mat(centers_old@)),
        !update_centers ==> mat(r.0@) == mat(centers_old@),
        r.1.len() == centers_old.len(),
        r.3.len() == centers_old.len(),
        forall|j: int|
            0 <= j < centers_old.len() ==> #[trigger] r.1@[j] == if update_centers {
                weight_in(sample_weight@, r.2@, j, x.len() as int)
            } else {
                0
            },
        forall|j: int|
            0 <= j < centers_old.len() ==> #[trigger] r.3@[j] == if update_centers {
                sq_dist(centers_old@[j]@, r.0@[j]@)
            } else {
                0
            },
{
    let labels = assign_labels(x, centers_old, d);
    let k = centers_old.len();
    let mut centers: Vec<Vec<i64>> = Vec::new();
    let mut weights: Vec<i64> = Vec::new();
    let mut shifts: Vec<i64> = Vec::new();
    if !update_centers {
        for j in 0..k
            invariant
                weights.len() == j,
                shifts.len() == j,
                forall|t: int| 0 <= t < j ==> #[trigger] weights@[t] == 0,
                forall|t: int| 0 <= t < j ==> #[trigger] shifts@[t] == 0,
        {
            weights.push(0);
            shifts.push(0);
        }
        return (copy_matrix(centers_old), weights, labels, shifts);
    }
    let ghost newc = update(mat(x@), sample_weight@, labels@, mat(centers_old@));
    proof {
        lemma_update_bounded(mat(x@), sample_weight@, labels@, mat(centers_old@), d as int);
    }
    for j in 0..k
        invariant
            k == centers_old.len(),
            kmeans_input(mat(x@), mat(centers_old@), d as int),
            weights_ok(sample_weight@, x.len() as int),
            labels.len() == x.len(),
            newc == update(mat(x@), sample_weight@, labels@, mat(centers_old@)),
            is_matrix(newc, d as int),
            centers.len() == j,
            weights.len() == j,
            shifts.len() == j,
            forall|t: int| 0 <= t < j ==> (#[trigger] centers@[t])@ == newc[t],
            forall|t: int|
                0 <= t < j ==> #[trigger] weights@[t] == weight_in(
                    sample_weight@,
                    labels@,
                    t,
                    x.len() as int,
                ),
            forall|t: int|
                0 <= t < j ==> #[trigger] shifts@[t] == sq_dist(centers_old@[t]@, centers@[t]@),
    {
        let (c, wt) = center_of(x, sample_weight, &labels, centers_old, j, d);
        assert(mat(centers_old@)[j as int] == centers_old@[j as int]@);
        assert(c@ == newc[j as int]);
        let s = squared_distance(&centers_old[j], &c);
        centers.push(c);
        weights.push(wt);
        shifts.push(s);
    }
    assert(mat(centers@) =~= newc);
    (centers, weights, labels, shifts)
}

/// Weighted sum of squared distances of the points to their labelled centers.
fn inertia_dense(
    x: &Vec<Vec<i64>>,
    sample_weight: &Vec<i64>,
    centers: &Vec<Vec<i64>>,
    labels: &Vec<usize>,
    d: usize,
) -> (r: i128)
    requires
        kmeans_input(mat(x@), mat(centers@), d as int),
        weights_ok(sample_weight@, x.len() as int),
        labels.len() == x.len(),
        forall|i: int| 0 <= i < labels.len() ==> #[trigger] labels@[i] < centers.len(),
    ensures
        r == inertia(mat(x@), sample_weight@, mat(centers@), labels@),
        r >= 0,
{
    let mut acc: i128 = 0;
    for i in 0..x.len()
        invariant
            kmeans_input(mat(x@), mat(centers@), d as int),
            weights_ok(sample_weight@, x.len() as int),
            labels.len() == x.len(),
            forall|i: int| 0 <= i < labels.len() ==> #[trigger] labels@[i] < centers.len(),
            acc == inertia_upto(mat(x@), sample_weight@, mat(centers@), labels@, i as int),
            0 <= acc <= i * (MAX_WEIGHT * MAX_SQ_DIST),
    {
        let l = labels[i];
        assert(mat(x@)[i as int] == x@[i as int]@);
        assert(mat(centers@)[l as int] == centers@[l as int]@);
        let s = squared_distance(&x[i], &centers[l]);
        let wi = sample_weight[i];
        proof {
            let wv = wi as int;
            let sv = s as int;
            let ii = i as int;
            assert(0 <= wv * sv <= MAX_WEIGHT * MAX_SQ_DIST) by (nonlinear_arith)
                requires
                    0 <= wv <= MAX_WEIGHT,
                    0 <= sv <= MAX_SQ_DIST,
            ;
            assert((ii + 1) * (MAX_WEIGHT * MAX_SQ_DIST) == ii * (MAX_WEIGHT * MAX_SQ_DIST) + (
            MAX_WEIGHT * MAX_SQ_DIST)) by (nonlinear_arith);
            assert((ii + 1) * (MAX_WEIGHT * MAX_SQ_DIST) <= 1_048_576 * (MAX_WEIGHT * MAX_SQ_DIST))
                by (nonlinear_arith)
                requires
                    0 <= ii < 1_048_576,
            ;
        }
        acc = acc + (wi as i128) * (s as i128);
    }
    acc
}

/// Runs Lloyd's algorithm from `centers_init`: stops when the labels no
/// longer change, when the total squared center shift is at most `tol`, or
/// after `max_iter` iterations. Returns the labels, the inertia, the centers
/// and the number of iterations run. The labels always belong to the
/// returned centers.
pub fn kmeans_single_lloyd(
    x: &Vec<Vec<i64>>,
    sample_weight: &Vec<i64>,
    centers_init: &Vec<Vec<i64>>,
    d: usize,
    max_iter: usize,
    tol: i64,
) -> (r: (Vec<usize>, i128, Vec<Vec<i64>>, usize))
    requires
        kmeans_input(mat(x@), mat(centers_init@), d as int),
        weights_ok(sample_weight@, x.len() as int),
    ensures
        (r.0@, r.1 as int, mat(r.2@), r.3 as int) == lloyd_result(
            mat(x@),
            sample_weight@,
            mat(centers_init@),
            max_iter as int,
            tol as int,
        ),
        r.0@ == assign(mat(x@), mat(r.2@)),
        r.1 >= 0,
        is_matrix(mat(r.2@), d as int),
        r.0.len() == x.len(),
        r.2.len() == centers_init.len(),
        forall|i: int| 0 <= i < r.0.len() ==> #[trigger] r.0@[i] < centers_init.len(),
{
    let ghost xs = mat(x@);
    let ghost ws = sample_weight@;
    let n = x.len();
    let mut centers = copy_matrix(centers_init);
    let mut labels: Vec<usize> = Vec::new();
    for i in 0..n
        invariant
            labels.len() == i,
            forall|t: int| 0 <= t < i ==> #[trigger] labels@[t] == 0,
    {
        labels.push(0);
    }
    assert(labels@ =~= Seq::new(xs.len(), |i: int| 0usize));
    let mut labels_old: Option<Vec<usize>> = None;
    let mut strict = false;
    let mut iterations: usize = 0;
    let mut i: usize = 0;
    let ghost full = lloyd_from(xs, ws, mat(centers@), None, labels@, 0, max_iter as int, tol as int);
    assert(mat(centers@) =~= mat(centers_init@));
    while i < max_iter
        invariant_except_break
            i <= max_iter,
            iterations == i,
            !strict,
            labels_old matches Some(lo) ==> update(xs, ws, lo@, mat(centers@)) == mat(centers@),
            full == lloyd_from(
                xs,
                ws,
                mat(centers@),
                match labels_old {
                    Some(lo) => Some(lo@),
                    None => None,
                },
                labels@,
                i as int,
                max_iter as int,
                tol as int,
            ),
        invariant
            xs == mat(x@),
            ws == sample_weight@,
            kmeans_input(xs, mat(centers@), d as int),
            centers.len() == centers_init.len(),
            weights_ok(ws, n as int),
            n == x.len(),
        ensures
            kmeans_input(xs, mat(centers@), d as int),
            centers.len() == centers_init.len(),
            (labels@, mat(centers@), iterations as int, strict) == full,
            strict ==> labels@ == assign(xs, mat(centers@)),
            strict ==> labels.len() == n && forall|t: int|
                0 <= t < labels.len() ==> #[trigger] labels@[t] < centers.len(),
        decreases max_iter - i,
    {
        let (centers_new, _weights, new_labels, _shifts) = lloyd_iteration(
            x,
            sample_weight,
            &centers,
            d,
            true,
        );
        proof {
            lemma_update_bounded(xs, ws, new_labels@, mat(centers@), d as int);
            lemma_update_idempotent(xs, ws, new_labels@, mat(centers@));
        }
        iterations = i + 1;
        let same = match &labels_old {
            Some(lo) => vec_eq(lo, &new_labels),
            None => false,
        };
        if same {
            proof {
                assert(mat(centers_new@) == mat(centers@));
            }
            centers = centers_new;
            labels = new_labels;
            strict = true;
            break;
        }
        let shift = center_shift_total(&centers, &centers_new, d);
        centers = centers_new;
        labels = new_labels.clone();
        labels_old = Some(new_labels);
        i = i + 1;
        if shift <= tol as i128 {
            break;
        }
    }
    if !strict {
        labels = assign_labels(x, &centers, d);
    }
    let inertia = inertia_dense(x, sample_weight, &centers, &labels, d);
    (labels, inertia, centers, iterations)
}

/// A copy of a matrix, row by row.
pub fn copy_matrix(m: &Vec<Vec<i64>>) -> (r: Vec<Vec<i64>>)
    ensures
        mat(r@) == mat(m@),
{
    let mut r: Vec<Vec<i64>> = Vec::new();
    for i in 0..m.len()
        invariant
            r.len() == i,
            forall|t: int| 0 <= t < i ==> (#[trigger] r@[t])@ == m@[t]@,
    {
        r.push(m[i].clone());
    }
    assert(mat(r@) =~= mat(m@));
    r
}

/// Element-wise equality of two label lists.
fn vec_eq(a: &Vec<usize>, b: &Vec<usize>) -> (r: bool)
    ensures
        r == (a@ == b@),
{
    if a.len() != b.len() {
        return false;
    }
    for i in 0..a.len()
        invariant
            a.len() == b.len(),
            forall|t: int| 0 <= t < i ==> a@[t] == b@[t],
    {
        if a[i] != b[i] {
            return false;
        }
    }
    assert(a@ =~= b@);
    true
}

proof fn lemma_assign_upto(
    x: Seq<Seq<i64>>,
    w: Seq<i64>,
    c: Seq<Seq<i64>>,
    labels: Seq<usize>,
    upto: int,
)
    requires
        0 <= upto <= x.len(),
        0 < c.len() <= MAX_SAMPLES,
        weights_ok(w, x.len() as int),
        labels.len() == x.len(),
        forall|i: int| 0 <= i < labels.len() ==> #[trigger] labels[i] < c.len(),
    ensures
        inertia_upto(x, w, c, assign(x, c), upto) <= inertia_upto(x, w, c, labels, upto),
    decreases upto,
{
    if upto > 0 {
        let i = upto - 1;
        lemma_assign_upto(x, w, c, labels, i);
        lemma_nearest_bounds(c, x[i], c.len() as int);
        let best = nearest(c, x[i]);
        let a = sq_dist(x[i], c[best]);
        let b = sq_dist(x[i], c[labels[i] as int]);
        assert(a <= b);
        assert(assign(x, c)[i] as int == best);
        let wi = w[i] as int;
        assert(wi * a <= wi * b) by (nonlinear_arith)
            requires
                0 <= wi,
                a <= b,
        ;
    }
}

/// Relabelling every point with its nearest center never increases the
/// inertia, whatever the labels were.
pub proof fn lemma_assignment_never_increases_inertia(
    x: Seq<Seq<i64>>,
    w: Seq<i64>,
    c: Seq<Seq<i64>>,
    labels: Seq<usize>,
)
    requires
        0 < c.len() <= MAX_SAMPLES,
        weights_ok(w, x.len() as int),
        labels.len() == x.len(),
        forall|i: int| 0 <= i < labels.len() ==> #[trigger] labels[i] < c.len(),
    ensures
        inertia(x, w, c, assign(x, c)) <= inertia(x, w, c, labels),
{
    lemma_assign_upto(x, w, c, labels, x.len() as int);
}

/// `f(0) + ... + f(n - 1)`.
pub open spec fn sum_to(n: int, f: spec_fn(int) -> int) -> int
    decreases n,
{
    if n <= 0 {
        0
    } else {
        sum_to(n - 1, f) + f(n - 1)
    }
}

proof fn lemma_sum_le(n: int, f: spec_fn(int) -> int, g: spec_fn(int) -> int)
    requires
        forall|i: int| 0 <= i < n ==> #[trigger] f(i) <= g(i),
    ensures
        sum_to(n, f) <= sum_to(n, g),
    decreases n,
{
    if n > 0 {
        lemma_sum_le(n - 1, f, g);
    }
}

proof fn lemma_sum_nonneg(n: int, f: spec_fn(int) -> int)
    requires
        forall|i: int| 0 <= i < n ==> #[trigger] f(i) >= 0,
    ensures
        sum_to(n, f) >= 0,
    decreases n,
{
    if n > 0 {
        lemma_sum_nonneg(n - 1, f);
    }
}

proof fn lemma_sum_zero(n: int, f: spec_fn(int) -> int)
    requires
        forall|i: int| 0 <= i < n ==> #[trigger] f(i) == 0,
    ensures
        sum_to(n, f) == 0,
    decreases n,
{
    if n > 0 {
        lemma_sum_zero(n - 1, f);
    }
}

proof fn lemma_sum_sub(n: int, f: spec_fn(int) -> int, g: spec_fn(int) -> int)
    ensures
        sum_to(n, f) - sum_to(n, g) == sum_to(n, |i: int| f(i) - g(i)),
    decreases n,
{
    if n > 0 {
        lemma_sum_sub(n - 1, f, g);
    }
}

proof fn lemma_sum_scale(n: int, f: spec_fn(int) -> int, a: int)
    ensures
        a * sum_to(n, f) == sum_to(n, |i: int| a * f(i)),
    decreases n,
{
    if n > 0 {
        lemma_sum_scale(n - 1, f, a);
        assert(a * (sum_to(n - 1, f) + f(n - 1)) == a * sum_to(n - 1, f) + a * f(n - 1))
            by (nonlinear_arith);
    }
}

proof fn lemma_sum_ext(n: int, f: spec_fn(int) -> int, g: spec_fn(int) -> int)
    requires
        forall|i: int| 0 <= i < n ==> #[trigger] f(i) == g(i),
    ensures
        sum_to(n, f) == sum_to(n, g),
    decreases n,
{
    if n > 0 {
        lemma_sum_ext(n - 1, f, g);
    }
}

/// Sums that differ in one term differ by that term's change.
proof fn lemma_sum_one_change(n: int, f: spec_fn(int) -> int, g: spec_fn(int) -> int, j: int)
    requires
        0 <= j < n,
        forall|i: int| 0 <= i < n && i != j ==> #[trigger] f(i) == g(i),
    ensures
        sum_to(n, f) - sum_to(n, g) == f(j) - g(j),
    decreases n,
{
    if n - 1 == j {
        lemma_sum_ext(n - 1, f, g);
    } else {
        lemma_sum_one_change(n - 1, f, g, j);
    }
}

proof fn lemma_sq_dist_as_sum(a: Seq<i64>, b: Seq<i64>, j: int)
    requires
        j >= 0,
    ensures
        sq_dist_prefix(a, b, j) == sum_to(j, |f: int| (a[f] - b[f]) * (a[f] - b[f])),
    decreases j,
{
    if j > 0 {
        lemma_sq_dist_as_sum(a, b, j - 1);
    }
}

/// The gain of moving center `j` from `c` to `m` on coordinate `f`, given
/// the first `upto` points.
pub open spec fn coord_gain(
    x: Seq<Seq<i64>>,
    w: Seq<i64>,
    labels: Seq<usize>,
    c: Seq<Seq<i64>>,
    m: Seq<Seq<i64>>,
    j: int,
    f: int,
    upto: int,
) -> int {
    (m[j][f] - c[j][f]) * (2 * coord_sum(x, w, labels, j, f, upto) - weight_in(w, labels, j, upto) * (
    c[j][f] + m[j][f]))
}

/// The gain of moving every center from `c` to `m`, given the first `upto` points.
pub open spec fn total_gain(
    x: Seq<Seq<i64>>,
    w: Seq<i64>,
    labels: Seq<usize>,
    c: Seq<Seq<i64>>,
    m: Seq<Seq<i64>>,
    d: int,
    upto: int,
) -> int {
    sum_to(
        c.len() as int,
        |j: int| sum_to(d, |f: int| coord_gain(x, w, labels, c, m, j, f, upto)),
    )
}

proof fn lemma_point_gain(xi: Seq<i64>, cj: Seq<i64>, mj: Seq<i64>, wi: int, d: int)
    requires
        xi.len() == d,
        cj.len() == d,
        mj.len() == d,
        d >= 0,
    ensures
        wi * (sq_dist(xi, cj) - sq_dist(xi, mj)) == sum_to(
            d,
            |f: int| (mj[f] - cj[f]) * (2 * (wi * xi[f]) - wi * (cj[f] + mj[f])),
        ),
{
    lemma_sq_dist_as_sum(xi, cj, d);
    lemma_sq_dist_as_sum(xi, mj, d);
    let fc = |f: int| (xi[f] - cj[f]) * (xi[f] - cj[f]);
    let fm = |f: int| (xi[f] - mj[f]) * (xi[f] - mj[f]);
    lemma_sum_sub(d, fc, fm);
    let diff = |f: int| fc(f) - fm(f);
    lemma_sum_scale(d, diff, wi);
    let target = |f: int| (mj[f] - cj[f]) * (2 * (wi * xi[f]) - wi * (cj[f] + mj[f]));
    let scaled = |f: int| wi * diff(f);
    assert forall|f: int| 0 <= f < d implies scaled(f) == #[trigger] target(f) by {
        let x = xi[f] as int;
        let c = cj[f] as int;
        let m = mj[f] as int;
        assert(wi * ((x - c) * (x - c) - (x - m) * (x - m)) == (m - c) * (2 * (wi * x) - wi * (c
            + m))) by (nonlinear_arith);
    }
    lemma_sum_ext(d, scaled, target);
}

/// Inertia lost by moving the centers from `c` to `m` equals the total gain.
proof fn lemma_gain_upto(
    x: Seq<Seq<i64>>,
    w: Seq<i64>,
    labels: Seq<usize>,
    c: Seq<Seq<i64>>,
    m: Seq<Seq<i64>>,
    d: int,
    upto: int,
)
    requires
        0 <= upto <= x.len(),
        is_matrix(x, d),
        is_matrix(c, d),
        is_matrix(m, d),
        c.len() == m.len(),
        weights_ok(w, x.len() as int),
        labels.len() == x.len(),
        forall|i: int| 0 <= i < labels.len() ==> #[trigger] labels[i] < c.len(),
    ensures
        inertia_upto(x, w, c, labels, upto) - inertia_upto(x, w, m, labels, upto) == total_gain(
            x,
            w,
            labels,
            c,
            m,
            d,
            upto,
        ),
    decreases upto,
{
    let k = c.len() as int;
    if upto == 0 {
        let zero = |j: int| sum_to(d, |f: int| coord_gain(x, w, labels, c, m, j, f, 0));
        assert forall|j: int| 0 <= j < k implies #[trigger] zero(j) == 0 by {
            let g = |f: int| coord_gain(x, w, labels, c, m, j, f, 0);
            assert forall|f: int| 0 <= f < d implies #[trigger] g(f) == 0 by {
                assert(coord_sum(x, w, labels, j, f, 0) == 0);
                assert(weight_in(w, labels, j, 0) == 0);
                let a = m[j][f] - c[j][f];
                let b = c[j][f] + m[j][f];
                assert(a * (2 * 0 - 0 * b) == 0) by (nonlinear_arith);
            }
            lemma_sum_zero(d, g);
        }
        lemma_sum_zero(k, zero);
    } else {
        let i = upto - 1;
        lemma_gain_upto(x, w, labels, c, m, d, i);
        let li = labels[i] as int;
        let wi = w[i] as int;
        assert(x[i].len() == d && c[li].len() == d && m[li].len() == d);
        lemma_point_gain(x[i], c[li], m[li], wi, d);
        let inner_new = |j: int| sum_to(d, |f: int| coord_gain(x, w, labels, c, m, j, f, upto));
        let inner_old = |j: int| sum_to(d, |f: int| coord_gain(x, w, labels, c, m, j, f, i));
        assert forall|j: int| 0 <= j < k && j != li implies #[trigger] inner_new(j) == inner_old(j) by {
            assert forall|f: int| 0 <= f < d implies #[trigger] coord_gain(x, w, labels, c, m, j, f, upto)
                == coord_gain(x, w, labels, c, m, j, f, i) by {
                assert(coord_sum(x, w, labels, j, f, upto) == coord_sum(x, w, labels, j, f, i));
                assert(weight_in(w, labels, j, upto) == weight_in(w, labels, j, i));
            }
            lemma_sum_ext(
                d,
                |f: int| coord_gain(x, w, labels, c, m, j, f, upto),
                |f: int| coord_gain(x, w, labels, c, m, j, f, i),
            );
        }
        lemma_sum_one_change(k, inner_new, inner_old, li);
        let gn = |f: int| coord_gain(x, w, labels, c, m, li, f, upto);
        let go = |f: int| coord_gain(x, w, labels, c, m, li, f, i);
        lemma_sum_sub(d, gn, go);
        let target = |f: int| (m[li][f] - c[li][f]) * (2 * (wi * x[i][f]) - wi * (c[li][f] + m[li][f]));
        let dg = |f: int| gn(f) - go(f);
        assert forall|f: int| 0 <= f < d implies dg(f) == #[trigger] target(f) by {
            let s0 = coord_sum(x, w, labels, li, f, i);
            let w0 = weight_in(w, labels, li, i);
            assert(coord_sum(x, w, labels, li, f, upto) == s0 + wi * x[i][f]);
            assert(weight_in(w, labels, li, upto) == w0 + wi);
            let a = m[li][f] - c[li][f];
            let b = c[li][f] + m[li][f];
            let xv = x[i][f] as int;
            assert(a * (2 * (s0 + wi * xv) - (w0 + wi) * b) - a * (2 * s0 - w0 * b) == a * (2 * (wi
                * xv) - wi * b)) by (nonlinear_arith);
        }
        lemma_sum_ext(d, dg, target);
        let a = sq_dist(x[i], c[li]);
        let b = sq_dist(x[i], m[li]);
        assert(inertia_upto(x, w, c, labels, upto) == inertia_upto(x, w, c, labels, i) + wi * a);
        assert(inertia_upto(x, w, m, labels, upto) == inertia_upto(x, w, m, labels, i) + wi * b);
        assert(wi * a - wi * b == wi * (a - b)) by (nonlinear_arith);
    }
}

/// For a cluster with weight `wt > 0` and weighted coordinate sum `s`, the
/// rounded mean loses nothing against any other value `c`.
proof fn lemma_rounded_mean_best(s: int, wt: int, c: int)
    requires
        wt > 0,
        -wt * MAX_COORD <= s <= wt * MAX_COORD,
    ensures
        (rounded_mean(s, wt) - c) * (2 * s - wt * (c + rounded_mean(s, wt))) >= 0,
{
    let m = rounded_mean(s, wt);
    let num = 2 * (s + wt * MAX_COORD) + wt;
    let den = 2 * wt;
    let q = num / den;
    assert(num >= 0) by (nonlinear_arith)
        requires
            wt > 0,
            -wt * MAX_COORD <= s,
            num == 2 * (s + wt * MAX_COORD) + wt,
    ;
    assert(den * q <= num < den * (q + 1)) by (nonlinear_arith)
        requires
            den > 0,
            num >= 0,
            q == num / den,
    ;
    assert(m == q - MAX_COORD);
    let r = 2 * s - 2 * wt * m;
    assert(-wt <= r < wt) by (nonlinear_arith)
        requires
            den == 2 * wt,
            den * q <= num < den * (q + 1),
            num == 2 * (s + wt * MAX_COORD) + wt,
            m == q - MAX_COORD,
            r == 2 * s - 2 * wt * m,
    ;
    let t = c - m;
    assert((m - c) * (2 * s - wt * (c + m)) == wt * t * t - t * r) by (nonlinear_arith)
        requires
            t == c - m,
            r == 2 * s - 2 * wt * m,
    ;
    if t >= 1 {
        assert(wt * t * t - t * r >= 0) by (nonlinear_arith)
            requires
                t >= 1,
                r < wt,
                wt > 0,
        ;
    } else if t <= -1 {
        assert(wt * t * t - t * r >= 0) by (nonlinear_arith)
            requires
                t <= -1,
                -wt <= r,
                wt > 0,
        ;
    } else {
        assert(wt * t * t - t * r == 0) by (nonlinear_arith)
            requires
                t == 0,
        ;
    }
}

/// An update step never increases the inertia of the labels it used.
pub proof fn lemma_update_never_increases_inertia(
    x: Seq<Seq<i64>>,
    w: Seq<i64>,
    labels: Seq<usize>,
    c: Seq<Seq<i64>>,
    d: int,
)
    requires
        kmeans_input(x, c, d),
        weights_ok(w, x.len() as int),
        labels.len() == x.len(),
        forall|i: int| 0 <= i < labels.len() ==> #[trigger] labels[i] < c.len(),
    ensures
        inertia(x, w, update(x, w, labels, c), labels) <= inertia(x, w, c, labels),
{
    let m = update(x, w, labels, c);
    let n = x.len() as int;
    let k = c.len() as int;
    lemma_update_bounded(x, w, labels, c, d);
    lemma_gain_upto(x, w, labels, c, m, d, n);
    let inner = |j: int| sum_to(d, |f: int| coord_gain(x, w, labels, c, m, j, f, n));
    assert forall|j: int| 0 <= j < k implies #[trigger] inner(j) >= 0 by {
        let g = |f: int| coord_gain(x, w, labels, c, m, j, f, n);
        assert forall|f: int| 0 <= f < d implies #[trigger] g(f) >= 0 by {
            let wt = weight_in(w, labels, j, n);
            let sm = coord_sum(x, w, labels, j, f, n);
            if wt > 0 {
                lemma_coord_sum_bounds(x, w, labels, j, f, n, d);
                lemma_rounded_mean_bounds(sm, wt);
                assert(m[j][f] == rounded_mean(sm, wt));
                lemma_rounded_mean_best(sm, wt, c[j][f] as int);
            } else {
                assert(m[j] == c[j]);
                assert(m[j][f] - c[j][f] == 0);
                let b = 2 * sm - wt * (c[j][f] + m[j][f]);
                assert(0 * b == 0) by (nonlinear_arith);
            }
        }
        lemma_sum_nonneg(d, g);
    }
    lemma_sum_nonneg(k, inner);
}

/// One Lloyd iteration (assign every point to its nearest center, then move
/// every center to the rounded weighted mean of its points) never increases
/// the inertia: the inertia of the new centers under their own nearest-center
/// labels is at most that of the old centers under theirs.
pub proof fn lemma_lloyd_step_never_increases_inertia(
    x: Seq<Seq<i64>>,
    w: Seq<i64>,
    c: Seq<Seq<i64>>,
    d: int,
)
    requires
        kmeans_input(x, c, d),
        weights_ok(w, x.len() as int),
    ensures
        ({
            let l = assign(x, c);
            let c2 = update(x, w, l, c);
            inertia(x, w, c2, assign(x, c2)) <= inertia(x, w, c, l)
        }),
{
    let l = assign(x, c);
    assert forall|i: int| 0 <= i < l.len() implies #[trigger] l[i] < c.len() by {
        lemma_nearest_bounds(c, x[i], c.len() as int);
    }
    lemma_update_never_increases_inertia(x, w, l, c, d);
    let c2 = update(x, w, l, c);
    lemma_update_bounded(x, w, l, c, d);
    lemma_assignment_never_increases_inertia(x, w, c2, l);
}

/// The inertia of centers `c` with every point labelled by its nearest center.
pub open spec fn centers_inertia(x: Seq<Seq<i64>>, w: Seq<i64>, c: Seq<Seq<i64>>) -> int {
    inertia(x, w, c, assign(x, c))
}

/// When the labels stop changing, they are those of the final centers.
proof fn lemma_lloyd_strict_consistent(
    x: Seq<Seq<i64>>,
    w: Seq<i64>,
    c: Seq<Seq<i64>>,
    labels_old: Option<Seq<usize>>,
    labels: Seq<usize>,
    i: int,
    max_iter: int,
    tol: int,
)
    requires
        labels_old matches Some(l) ==> update(x, w, l, c) == c,
    ensures
        ({
            let r = lloyd_from(x, w, c, labels_old, labels, i, max_iter, tol);
            r.3 ==> r.0 == assign(x, r.1)
        }),
    decreases max_iter - i,
{
    if i < max_iter {
        let nl = assign(x, c);
        let nc = update(x, w, nl, c);
        lemma_update_idempotent(x, w, nl, c);
        if labels_old == Some(nl) {
            assert(nc == c);
        } else if total_shift(c, nc, c.len() as int) <= tol {
        } else {
            lemma_lloyd_strict_consistent(x, w, nc, Some(nl), nl, i + 1, max_iter, tol);
        }
    }
}

/// The final centers of a run never have more inertia than its start.
proof fn lemma_lloyd_chain(
    x: Seq<Seq<i64>>,
    w: Seq<i64>,
    c: Seq<Seq<i64>>,
    labels_old: Option<Seq<usize>>,
    labels: Seq<usize>,
    i: int,
    max_iter: int,
    tol: int,
    d: int,
)
    requires
        kmeans_input(x, c, d),
        weights_ok(w, x.len() as int),
    ensures
        centers_inertia(x, w, lloyd_from(x, w, c, labels_old, labels, i, max_iter, tol).1)
            <= centers_inertia(x, w, c),
    decreases max_iter - i,
{
    if i < max_iter {
        let nl = assign(x, c);
        let nc = update(x, w, nl, c);
        lemma_lloyd_step_never_increases_inertia(x, w, c, d);
        lemma_update_bounded(x, w, nl, c, d);
        if labels_old == Some(nl) {
        } else if total_shift(c, nc, c.len() as int) <= tol {
        } else {
            lemma_lloyd_chain(x, w, nc, Some(nl), nl, i + 1, max_iter, tol, d);
        }
    }
}

proof fn lemma_lloyd_more_iterations(
    x: Seq<Seq<i64>>,
    w: Seq<i64>,
    c: Seq<Seq<i64>>,
    labels_old: Option<Seq<usize>>,
    labels: Seq<usize>,
    i: int,
    m1: int,
    m2: int,
    tol: int,
    d: int,
)
    requires
        kmeans_input(x, c, d),
        weights_ok(w, x.len() as int),
        m1 <= m2,
    ensures
        centers_inertia(x, w, lloyd_from(x, w, c, labels_old, labels, i, m2, tol).1)
            <= centers_inertia(x, w, lloyd_from(x, w, c, labels_old, labels, i, m1, tol).1),
    decreases m1 - i,
{
    if i >= m1 {
        lemma_lloyd_chain(x, w, c, labels_old, labels, i, m2, tol, d);
    } else {
        let nl = assign(x, c);
        let nc = update(x, w, nl, c);
        lemma_update_bounded(x, w, nl, c, d);
        if labels_old == Some(nl) {
        } else if total_shift(c, nc, c.len() as int) <= tol {
        } else {
            lemma_lloyd_more_iterations(x, w, nc, Some(nl), nl, i + 1, m1, m2, tol, d);
        }
    }
}

/// Allowing more iterations never increases the inertia that a k-means run
/// returns: with `m1 <= m2`, the run capped at `m2` iterations ends with at
/// most the inertia of the run capped at `m1`.
pub proof fn lemma_more_iterations_never_increase_inertia(
    x: Seq<Seq<i64>>,
    w: Seq<i64>,
    c0: Seq<Seq<i64>>,
    d: int,
    m1: int,
    m2: int,
    tol: int,
)
    requires
        kmeans_input(x, c0, d),
        weights_ok(w, x.len() as int),
        m1 <= m2,
    ensures
        lloyd_result(x, w, c0, m2, tol).1 <= lloyd_result(x, w, c0, m1, tol).1,
{
    let zeros = Seq::new(x.len(), |i: int| 0usize);
    lemma_lloyd_strict_consistent(x, w, c0, None, zeros, 0, m1, tol);
    lemma_lloyd_strict_consistent(x, w, c0, None, zeros, 0, m2, tol);
    lemma_lloyd_more_iterations(x, w, c0, None, zeros, 0, m1, m2, tol, d);
}

} // verus!
