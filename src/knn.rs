//! Distances to nearest neighbours, and the choice of a clustering radius
//! at the elbow of the sorted neighbour distances.
use vstd::prelude::*;

use crate::error::ClassifyError;
use crate::linalg::{
    all_bounded, check_matrix, floor_sqrt, integer_sqrt, is_matrix, leq, mat, rectangular,
    sort_values, sq_dist, squared_distance, shape_error, well_shaped,
};

verus! {

/// Largest number of points a run handles.
pub const MAX_POINTS: usize = 1_048_576;

/// The smallest clustering radius handed on, in fixed-point units.
pub const MIN_EPS: i64 = 1;

/// Squared distances from point `i` to every other point, in index order.
pub open spec fn others(m: Seq<Seq<i64>>, i: int) -> Seq<i64> {
    Seq::new(
        (m.len() - 1) as nat,
        |t: int| sq_dist(m[i], m[if t < i { t } else { t + 1 }]) as i64,
    )
}

/// The `k` smallest squared distances from point `i` to the other points,
/// ascending.
pub open spec fn k_nearest(m: Seq<Seq<i64>>, i: int, k: int) -> Seq<i64> {
    others(m, i).sort_by(|a: i64, b: i64| leq(a, b)).take(k)
}

/// The distances from point `i` to its `k` nearest other points, ascending,
/// each rounded down to a whole fixed-point unit.
pub open spec fn k_nearest_dist(m: Seq<Seq<i64>>, i: int, k: int) -> Seq<i64> {
    k_nearest(m, i, k).map_values(|v: i64| floor_sqrt(v as int) as i64)
}

/// Squared distances from every point to its `k` nearest neighbours, the
/// point itself excluded: row `i` holds the `k` smallest squared distances
/// from point `i` to the others, ascending.
fn k_squared_distances(x: &Vec<Vec<i64>>, k: usize) -> (r: Result<Vec<Vec<i64>>, ClassifyError>)
    requires
        all_bounded(mat(x@)),
    ensures
        r is Ok <==> well_shaped(mat(x@)) && k < x.len(),
        !well_shaped(mat(x@)) ==> r == Err::<Vec<Vec<i64>>, ClassifyError>(shape_error(mat(x@))),
        well_shaped(mat(x@)) && k >= x.len() ==> r == Err::<Vec<Vec<i64>>, ClassifyError>(
            ClassifyError::TooManyNeighbours,
        ),
        r matches Ok(rows) ==> rows.len() == x.len() && forall|i: int|
            0 <= i < x.len() ==> (#[trigger] rows@[i])@ == k_nearest(mat(x@), i, k as int),
{
    let d = match check_matrix(x) {
        Ok(d) => d,
        Err(e) => {
            return Err(e);
        },
    };
    let n = x.len();
    if k >= n {
        return Err(ClassifyError::TooManyNeighbours);
    }
    assert(is_matrix(mat(x@), d as int)) by {
        assert forall|i: int| 0 <= i < mat(x@).len() implies (#[trigger] mat(x@)[i]).len() == d
            && crate::linalg::row_bounded(mat(x@)[i]) by {
            assert(rectangular(mat(x@)));
        }
    }
    let mut rows: Vec<Vec<i64>> = Vec::new();
    for i in 0..n
        invariant
            n == x.len(),
            k < n,
            is_matrix(mat(x@), d as int),
            rows.len() == i,
            forall|t: int| 0 <= t < i ==> (#[trigger] rows@[t])@ == k_nearest(mat(x@), t, k as int),
    {
        let mut dists: Vec<i64> = Vec::new();
        for j in 0..n
            invariant
                n == x.len(),
                i < n,
                is_matrix(mat(x@), d as int),
                dists.len() == if j <= i { j as int } else { j - 1 },
                forall|t: int| 0 <= t < dists.len() ==> #[trigger] dists@[t] == others(mat(x@), i as int)[t],
        {
            if j != i {
                assert(mat(x@)[i as int] == x@[i as int]@);
                assert(mat(x@)[j as int] == x@[j as int]@);
                let v = squared_distance(&x[i], &x[j]);
                dists.push(v);
            }
        }
        assert(dists@ =~= others(mat(x@), i as int));
        let sorted = sort_values(&dists);
        proof {
            dists@.lemma_sort_by_ensures(|a: i64, b: i64| leq(a, b));
            vstd::seq_lib::to_multiset_len(sorted@);
            vstd::seq_lib::to_multiset_len(dists@);
        }
        let mut row: Vec<i64> = Vec::new();
        for j in 0..k
            invariant
                k < n,
                sorted@.len() == n - 1,
                row.len() == j,
                forall|t: int| 0 <= t < j ==> #[trigger] row@[t] == sorted@[t],
        {
            row.push(sorted[j]);
        }
        assert(row@ =~= k_nearest(mat(x@), i as int, k as int));
        rows.push(row);
    }
    Ok(rows)
}

/// Distances from every point to its `k` nearest neighbours, the point
/// itself excluded: row `i` holds the `k` smallest distances from point `i`
/// to the others, ascending, each rounded down to a whole fixed-point unit
/// (exact where the distance is a whole number of units).
pub fn k_distances(x: &Vec<Vec<i64>>, k: usize) -> (r: Result<Vec<Vec<i64>>, ClassifyError>)
    requires
        all_bounded(mat(x@)),
    ensures
        r is Ok <==> well_shaped(mat(x@)) && k < x.len(),
        !well_shaped(mat(x@)) ==> r == Err::<Vec<Vec<i64>>, ClassifyError>(shape_error(mat(x@))),
        well_shaped(mat(x@)) && k >= x.len() ==> r == Err::<Vec<Vec<i64>>, ClassifyError>(
            ClassifyError::TooManyNeighbours,
        ),
        r matches Ok(rows) ==> rows.len() == x.len() && forall|i: int|
            0 <= i < x.len() ==> (#[trigger] rows@[i])@ == k_nearest_dist(mat(x@), i, k as int),
{
    let sq = match k_squared_distances(x, k) {
        Ok(rows) => rows,
        Err(e) => {
            return Err(e);
        },
    };
    let mut rows: Vec<Vec<i64>> = Vec::new();
    for i in 0..sq.len()
        invariant
            sq.len() == x.len(),
            forall|t: int|
                0 <= t < x.len() ==> (#[trigger] sq@[t])@ == k_nearest(mat(x@), t, k as int),
            rows.len() == i,
            forall|t: int| 0 <= t < i ==> (#[trigger] rows@[t])@ == k_nearest_dist(mat(x@), t, k as int),
    {
        let src = &sq[i];
        let mut row: Vec<i64> = Vec::new();
        for j in 0..src.len()
            invariant
                row.len() == j,
                forall|t: int| 0 <= t < j ==> #[trigger] row@[t] == floor_sqrt(src@[t] as int) as i64,
        {
            let v = integer_sqrt(src[j]);
            row.push(v);
        }
        assert(row@ =~= k_nearest_dist(mat(x@), i as int, k as int));
        rows.push(row);
    }
    Ok(rows)
}

/// Twice the signed area spanned by the chord from the first to the last
/// point of the curve and the point `(i, v[i])`: proportional to the
/// perpendicular distance from that point to the chord.
pub open spec fn cross(v: Seq<i64>, i: int) -> int {
    let n = v.len() as int;
    i * (v[n - 1] - v[0]) - (v[i] - v[0]) * (n - 1)
}

pub open spec fn abs(a: int) -> int {
    if a < 0 {
        -a
    } else {
        a
    }
}

/// The first index among `0..i` farthest from the chord.
pub open spec fn knee_upto(v: Seq<i64>, i: int) -> int
    decreases i,
{
    if i <= 1 {
        0
    } else {
        let m = knee_upto(v, i - 1);
        if abs(cross(v, i - 1)) > abs(cross(v, m)) {
            i - 1
        } else {
            m
        }
    }
}

/// The index of the point of maximum curvature: the first point farthest
/// from the chord.
pub open spec fn knee_index(v: Seq<i64>) -> int {
    knee_upto(v, v.len() as int)
}

/// The knee is the first point whose distance to the chord is largest.
pub proof fn lemma_knee_is_first_farthest(v: Seq<i64>, i: int)
    requires
        1 <= i <= v.len(),
    ensures
        0 <= knee_upto(v, i) < i,
        forall|j: int| 0 <= j < i ==> abs(#[trigger] cross(v, j)) <= abs(cross(v, knee_upto(v, i))),
        forall|j: int|
            0 <= j < knee_upto(v, i) ==> abs(#[trigger] cross(v, j)) < abs(
                cross(v, knee_upto(v, i)),
            ),
    decreases i,
{
    if i > 1 {
        lemma_knee_is_first_farthest(v, i - 1);
    }
}

/// The value at the elbow of an ascending curve: the point farthest from
/// the chord joining its first and last points, the first one on a tie.
pub fn elbow_kneedle(kd: &Vec<i64>) -> (r: i64)
    requires
        0 < kd.len() <= MAX_POINTS,
    ensures
        r == kd@[knee_index(kd@)],
{
    let n = kd.len();
    let y1 = kd[0] as i128;
    let y2 = kd[n - 1] as i128;
    let ab_x = (n - 1) as i128;
    let ab_y = y2 - y1;
    let mut max_abs: i128 = 0;
    let mut max_i: usize = 0;
    proof {
        assert(cross(kd@, 0) == 0);
    }
    for i in 1..n
        invariant
            n == kd.len(),
            0 < n <= MAX_POINTS,
            y1 == kd@[0],
            y2 == kd@[n - 1],
            ab_x == n - 1,
            ab_y == y2 - y1,
            max_i == knee_upto(kd@, i as int),
            max_abs == abs(cross(kd@, max_i as int)),
            max_i < i,
    {
        let py = kd[i] as i128;
        let px = i as i128;
        assert(-0x1_0000_0000_0000_0000 <= ab_y <= 0x1_0000_0000_0000_0000);
        assert(-0x1_0000_0000_0000_0000 <= py - y1 <= 0x1_0000_0000_0000_0000);
        assert(-0x1_0000_0000_0000_0000_0000_0 <= px * ab_y <= 0x1_0000_0000_0000_0000_0000_0)
            by (nonlinear_arith)
            requires
                0 <= px <= 0x10_0000,
                -0x1_0000_0000_0000_0000 <= ab_y <= 0x1_0000_0000_0000_0000,
        ;
        assert(-0x1_0000_0000_0000_0000_0000_0 <= (py - y1) * ab_x
            <= 0x1_0000_0000_0000_0000_0000_0) by (nonlinear_arith)
            requires
                0 <= ab_x <= 0x10_0000,
                -0x1_0000_0000_0000_0000 <= py - y1 <= 0x1_0000_0000_0000_0000,
        ;
        let c = px * ab_y - (py - y1) * ab_x;
        let a = if c < 0 {
            -c
        } else {
            c
        };
        if a > max_abs {
            max_abs = a;
            max_i = i;
        }
    }
    proof {
        lemma_knee_is_first_farthest(kd@, n as int);
    }
    kd[max_i]
}

/// The clustering radius for points whose `k`-th neighbour distances are
/// `kth`: the elbow of those distances in ascending order, at least `MIN_EPS`.
pub open spec fn eps_of(kth: Seq<i64>) -> i64 {
    let v = kth.sort_by(|a: i64, b: i64| leq(a, b));
    if v[knee_index(v)] < MIN_EPS {
        MIN_EPS
    } else {
        v[knee_index(v)]
    }
}

/// The `k`-th nearest squared distance of every point.
pub open spec fn kth_distances(m: Seq<Seq<i64>>, k: int) -> Seq<i64> {
    Seq::new(m.len(), |i: int| k_nearest(m, i, k)[k - 1])
}

/// The distance of every point to its `k`-th nearest neighbour, rounded
/// down to a whole fixed-point unit.
pub open spec fn kth_roots(m: Seq<Seq<i64>>, k: int) -> Seq<i64> {
    Seq::new(m.len(), |i: int| floor_sqrt(kth_distances(m, k)[i] as int) as i64)
}

/// Chooses the clustering radius (a distance, in fixed-point units, rounded
/// down) for the points of `x` from their distances to their `k`-th nearest
/// neighbour.
pub fn select_eps(x: &Vec<Vec<i64>>, k: usize) -> (r: Result<i64, ClassifyError>)
    requires
        all_bounded(mat(x@)),
        x.len() <= MAX_POINTS,
    ensures
        r is Ok <==> well_shaped(mat(x@)) && 0 < k < x.len(),
        r matches Ok(eps) ==> eps == eps_of(kth_roots(mat(x@), k as int)),
        !well_shaped(mat(x@)) ==> r == Err::<i64, ClassifyError>(shape_error(mat(x@))),
        well_shaped(mat(x@)) && (k == 0 || k >= x.len()) ==> r == Err::<i64, ClassifyError>(
            ClassifyError::TooManyNeighbours,
        ),
{
    if k == 0 {
        match check_matrix(x) {
            Ok(_) => {
                return Err(ClassifyError::TooManyNeighbours);
            },
            Err(e) => {
                return Err(e);
            },
        }
    }
    let rows = match k_squared_distances(x, k) {
        Ok(rows) => rows,
        Err(e) => {
            return Err(e);
        },
    };
    let mut col: Vec<i64> = Vec::new();
    for i in 0..rows.len()
        invariant
            rows.len() == x.len(),
            0 < k < x.len(),
            forall|t: int|
                0 <= t < x.len() ==> (#[trigger] rows@[t])@ == k_nearest(mat(x@), t, k as int),
            col.len() == i,
            forall|t: int| 0 <= t < i ==> #[trigger] col@[t] == kth_distances(mat(x@), k as int)[t],
    {
        proof {
            let m = mat(x@);
            others(m, i as int).lemma_sort_by_ensures(|a: i64, b: i64| leq(a, b));
            vstd::seq_lib::to_multiset_len(others(m, i as int).sort_by(|a: i64, b: i64| leq(a, b)));
            vstd::seq_lib::to_multiset_len(others(m, i as int));
        }
        col.push(rows[i][k - 1]);
    }
    assert(col@ =~= kth_distances(mat(x@), k as int));
    let mut roots: Vec<i64> = Vec::new();
    for i in 0..col.len()
        invariant
            col@ == kth_distances(mat(x@), k as int),
            roots.len() == i,
            forall|t: int| 0 <= t < i ==> #[trigger] roots@[t] == kth_roots(mat(x@), k as int)[t],
    {
        let r = integer_sqrt(col[i]);
        roots.push(r);
    }
    assert(roots@ =~= kth_roots(mat(x@), k as int));
    let sorted = sort_values(&roots);
    proof {
        roots@.lemma_sort_by_ensures(|a: i64, b: i64| leq(a, b));
        vstd::seq_lib::to_multiset_len(sorted@);
        vstd::seq_lib::to_multiset_len(roots@);
    }
    let e = elbow_kneedle(&sorted);
    if e < MIN_EPS {
        Ok(MIN_EPS)
    } else {
        Ok(e)
    }
}

} // verus!
