//! Exact linear algebra on fixed-point embeddings.
//!
//! A matrix is a `Vec` of rows of `i64` coordinates (an embedding scaled to
//! fixed point). Distances are kept squared, so every result is an exact
//! integer.
use vstd::prelude::*;
use vstd::relations::sorted_by;

use crate::error::ClassifyError;

verus! {

/// Largest magnitude of a coordinate.
pub const MAX_COORD: i64 = 1_000_000;

/// Largest number of coordinates in a row.
pub const MAX_DIM: usize = 4096;

/// Largest squared distance between two bounded rows.
pub const MAX_SQ_DIST: i64 = 16_384_000_000_000_000;

/// The rows of a matrix, as sequences.
pub open spec fn mat(x: Seq<Vec<i64>>) -> Seq<Seq<i64>> {
    x.map_values(|r: Vec<i64>| r@)
}

/// Every coordinate lies in `[-MAX_COORD, MAX_COORD]`.
pub open spec fn row_bounded(p: Seq<i64>) -> bool {
    forall|j: int| 0 <= j < p.len() ==> -MAX_COORD <= #[trigger] p[j] <= MAX_COORD
}

/// Every row has `d` coordinates, `d <= MAX_DIM`, and all of them are bounded.
pub open spec fn is_matrix(m: Seq<Seq<i64>>, d: int) -> bool {
    &&& 0 <= d <= MAX_DIM
    &&& forall|i: int| 0 <= i < m.len() ==> (#[trigger] m[i]).len() == d && row_bounded(m[i])
}

/// The coordinates of every row are bounded and no row is longer than `MAX_DIM`.
pub open spec fn all_bounded(m: Seq<Seq<i64>>) -> bool {
    forall|i: int| 0 <= i < m.len() ==> (#[trigger] m[i]).len() <= MAX_DIM && row_bounded(m[i])
}

/// Every row has as many coordinates as the first.
pub open spec fn rectangular(m: Seq<Seq<i64>>) -> bool {
    forall|i: int| 0 <= i < m.len() ==> (#[trigger] m[i]).len() == m[0].len()
}

/// A matrix that the clustering stages accept: at least one row, at least
/// one coordinate, and rows of one length.
pub open spec fn well_shaped(m: Seq<Seq<i64>>) -> bool {
    m.len() > 0 && m[0].len() > 0 && rectangular(m)
}

/// The error a matrix that is not well shaped is reported with.
pub open spec fn shape_error(m: Seq<Seq<i64>>) -> ClassifyError {
    if m.len() == 0 || m[0].len() == 0 {
        ClassifyError::EmptyMatrix
    } else {
        ClassifyError::RaggedRows
    }
}

/// Squared distance over the first `j` coordinates.
pub open spec fn sq_dist_prefix(a: Seq<i64>, b: Seq<i64>, j: int) -> int
    decreases j,
{
    if j <= 0 {
        0
    } else {
        sq_dist_prefix(a, b, j - 1) + (a[j - 1] - b[j - 1]) * (a[j - 1] - b[j - 1])
    }
}

/// Squared Euclidean distance.
pub open spec fn sq_dist(a: Seq<i64>, b: Seq<i64>) -> int {
    sq_dist_prefix(a, b, a.len() as int)
}

/// Squared Euclidean norm.
pub open spec fn sq_norm(a: Seq<i64>) -> int {
    sq_dist(a, Seq::new(a.len(), |j: int| 0i64))
}

/// The order on values used for sorting.
pub open spec fn leq(a: i64, b: i64) -> bool {
    a <= b
}

/// Column `c` of a matrix, top to bottom.
pub open spec fn column(m: Seq<Seq<i64>>, c: int) -> Seq<i64> {
    Seq::new(m.len(), |i: int| m[i][c])
}

pub proof fn lemma_sq_dist_bounds(a: Seq<i64>, b: Seq<i64>, j: int)
    requires
        0 <= j <= a.len(),
        a.len() == b.len(),
        row_bounded(a),
        row_bounded(b),
    ensures
        0 <= sq_dist_prefix(a, b, j) <= j * 4_000_000_000_000,
    decreases j,
{
    if j > 0 {
        lemma_sq_dist_bounds(a, b, j - 1);
        let t = a[j - 1] - b[j - 1];
        assert(-2_000_000 <= t <= 2_000_000);
        assert(0 <= t * t <= 4_000_000_000_000) by (nonlinear_arith)
            requires
                -2_000_000 <= t <= 2_000_000,
        ;
    }
}

pub proof fn lemma_sq_dist_max(a: Seq<i64>, b: Seq<i64>)
    requires
        a.len() == b.len(),
        a.len() <= MAX_DIM,
        row_bounded(a),
        row_bounded(b),
    ensures
        0 <= sq_dist(a, b) <= MAX_SQ_DIST,
{
    lemma_sq_dist_bounds(a, b, a.len() as int);
    let n = a.len() as int;
    assert(n * 4_000_000_000_000 <= 4096 * 4_000_000_000_000) by (nonlinear_arith)
        requires
            0 <= n <= 4096,
    ;
}

/// Squared Euclidean distance between two rows of the same length.
pub fn squared_distance(a: &Vec<i64>, b: &Vec<i64>) -> (r: i64)
    requires
        a.len() == b.len(),
        a.len() <= MAX_DIM,
        row_bounded(a@),
        row_bounded(b@),
    ensures
        r == sq_dist(a@, b@),
        0 <= r <= MAX_SQ_DIST,
{
    let mut acc: i64 = 0;
    let mut j: usize = 0;
    proof {
        lemma_sq_dist_max(a@, b@);
    }
    while j < a.len()
        invariant
            j <= a.len(),
            a.len() == b.len(),
            a.len() <= MAX_DIM,
            row_bounded(a@),
            row_bounded(b@),
            acc == sq_dist_prefix(a@, b@, j as int),
        decreases a.len() - j,
    {
        proof {
            lemma_sq_dist_bounds(a@, b@, (j + 1) as int);
            let n = (j + 1) as int;
            assert(n * 4_000_000_000_000 <= 4096 * 4_000_000_000_000) by (nonlinear_arith)
                requires
                    0 <= n <= 4096,
            ;
        }
        let t = a[j] - b[j];
        assert(0 <= t * t <= 4_000_000_000_000) by (nonlinear_arith)
            requires
                -2_000_000 <= t <= 2_000_000,
        ;
        acc = acc + t * t;
        j += 1;
    }
    proof {
        lemma_sq_dist_max(a@, b@);
    }
    acc
}

/// Squared Euclidean norm of every row.
pub fn row_norms(x: &Vec<Vec<i64>>) -> (r: Vec<i64>)
    requires
        all_bounded(mat(x@)),
    ensures
        r.len() == x.len(),
        forall|i: int| 0 <= i < x.len() ==> r[i] == sq_norm(#[trigger] x@[i]@),
{
    let mut r: Vec<i64> = Vec::new();
    for i in 0..x.len()
        invariant
            all_bounded(mat(x@)),
            r.len() == i,
            forall|k: int| 0 <= k < i ==> r[k] == sq_norm(#[trigger] x@[k]@),
    {
        let row = &x[i];
        assert(mat(x@)[i as int] == row@);
        let zero: Vec<i64> = vec_of_zeros(row.len());
        assert(zero@ == Seq::new(row@.len(), |j: int| 0i64));
        let d = squared_distance(row, &zero);
        r.push(d);
    }
    r
}

fn vec_of_zeros(n: usize) -> (r: Vec<i64>)
    ensures
        r@ == Seq::new(n as nat, |j: int| 0i64),
        row_bounded(r@),
{
    let mut r: Vec<i64> = Vec::new();
    for i in 0..n
        invariant
            r.len() == i,
            forall|k: int| 0 <= k < i ==> r[k] == 0,
    {
        r.push(0);
    }
    assert(r@ =~= Seq::new(n as nat, |j: int| 0i64));
    r
}

/// `r` is the whole part of the square root of `v`.
pub open spec fn is_floor_sqrt(r: int, v: int) -> bool {
    0 <= r && r * r <= v && v < (r + 1) * (r + 1)
}

/// The whole part of the square root of `v` (zero when `v` is not positive).
pub open spec fn floor_sqrt(v: int) -> int {
    if v <= 0 {
        0
    } else {
        choose|r: int| is_floor_sqrt(r, v)
    }
}

proof fn lemma_floor_sqrt_unique(a: int, b: int, v: int)
    requires
        is_floor_sqrt(a, v),
        is_floor_sqrt(b, v),
    ensures
        a == b,
{
    if a < b {
        assert((a + 1) * (a + 1) <= b * b) by (nonlinear_arith)
            requires
                0 <= a + 1 <= b,
        ;
    } else if b < a {
        assert((b + 1) * (b + 1) <= a * a) by (nonlinear_arith)
            requires
                0 <= b + 1 <= a,
        ;
    }
}

/// The whole part of the square root of `v`, zero when `v` is not positive.
pub fn integer_sqrt(v: i64) -> (r: i64)
    ensures
        r == floor_sqrt(v as int),
        v >= 0 ==> is_floor_sqrt(r as int, v as int),
{
    if v <= 0 {
        if v == 0 {
            assert(is_floor_sqrt(0, 0));
        }
        return 0;
    }
    let mut lo: i64 = 0;
    let mut hi: i64 = 3_037_000_500;
    assert(3_037_000_500 * 3_037_000_500 > 0x7fff_ffff_ffff_ffff);
    while hi - lo > 1
        invariant
            0 <= lo < hi <= 3_037_000_500,
            v > 0,
            lo * lo <= v,
            v < hi * hi,
        decreases hi - lo,
    {
        let mid = lo + (hi - lo) / 2;
        assert(0 <= mid * mid <= 3_037_000_500 * 3_037_000_500) by (nonlinear_arith)
            requires
                0 <= mid <= 3_037_000_500,
        ;
        let sq = (mid as i128) * (mid as i128);
        if sq <= v as i128 {
            lo = mid;
        } else {
            hi = mid;
        }
    }
    proof {
        assert(is_floor_sqrt(lo as int, v as int));
        let c = choose|r: int| is_floor_sqrt(r, v as int);
        lemma_floor_sqrt_unique(c, lo as int, v as int);
    }
    lo
}

/// A distance as reported: the squared distance itself, or its square root
/// rounded down to a whole fixed-point unit.
pub open spec fn reported(sq: int, squared: bool) -> int {
    if squared {
        sq
    } else {
        floor_sqrt(sq)
    }
}

/// Euclidean distances from every row of `a` to every row of `b`: entry
/// `(i, j)` is the squared distance between `a[i]` and `b[j]` when `squared`,
/// and otherwise the distance rounded down to a whole fixed-point unit.
pub fn euclidean_distances(a: &Vec<Vec<i64>>, b: &Vec<Vec<i64>>, d: usize, squared: bool) -> (r: Vec<
    Vec<i64>,
>)
    requires
        is_matrix(mat(a@), d as int),
        is_matrix(mat(b@), d as int),
    ensures
        r.len() == a.len(),
        forall|i: int| 0 <= i < a.len() ==> (#[trigger] r@[i]).len() == b.len(),
        forall|i: int, j: int|
            0 <= i < a.len() && 0 <= j < b.len() ==> #[trigger] r@[i]@[j] == reported(
                sq_dist(a@[i]@, b@[j]@),
                squared,
            ),
{
    let mut r: Vec<Vec<i64>> = Vec::new();
    for i in 0..a.len()
        invariant
            is_matrix(mat(a@), d as int),
            is_matrix(mat(b@), d as int),
            r.len() == i,
            forall|k: int| 0 <= k < i ==> (#[trigger] r@[k]).len() == b.len(),
            forall|k: int, j: int|
                0 <= k < i && 0 <= j < b.len() ==> #[trigger] r@[k]@[j] == reported(
                    sq_dist(a@[k]@, b@[j]@),
                    squared,
                ),
    {
        let mut row: Vec<i64> = Vec::new();
        assert(mat(a@)[i as int] == a@[i as int]@);
        for j in 0..b.len()
            invariant
                is_matrix(mat(a@), d as int),
                is_matrix(mat(b@), d as int),
                i < a.len(),
                row.len() == j,
                forall|t: int| 0 <= t < j ==> #[trigger] row@[t] == reported(
                    sq_dist(a@[i as int]@, b@[t]@),
                    squared,
                ),
        {
            assert(mat(b@)[j as int] == b@[j as int]@);
            assert(mat(a@)[i as int] == a@[i as int]@);
            let v = squared_distance(&a[i], &b[j]);
            if squared {
                row.push(v);
            } else {
                row.push(integer_sqrt(v));
            }
        }
        r.push(row);
    }
    r
}

/// Euclidean distances (squared, or rounded down, as `squared` asks) from
/// the rows of `x` to the rows of `y`, or among the rows of `x` when `y` is
/// absent.
pub fn pairwize_euclidean_distances(x: &Vec<Vec<i64>>, y: Option<&Vec<Vec<i64>>>, d: usize, squared: bool) -> (r: Vec<
    Vec<i64>,
>)
    requires
        is_matrix(mat(x@), d as int),
        y matches Some(y) ==> is_matrix(mat(y@), d as int),
    ensures
        r.len() == x.len(),
        forall|i: int, j: int|
            0 <= i < x.len() && 0 <= j < (match y {
                Some(y) => y@,
                None => x@,
            }).len() ==> #[trigger] r@[i]@[j] == reported(
                sq_dist(
                    x@[i]@,
                    (match y {
                        Some(y) => y@,
                        None => x@,
                    })[j]@,
                ),
                squared,
            ),
        forall|i: int| 0 <= i < x.len() ==> (#[trigger] r@[i]).len() == (match y {
            Some(y) => y@,
            None => x@,
        }).len(),
{
    match y {
        Some(y) => euclidean_distances(x, y, d, squared),
        None => euclidean_distances(x, x, d, squared),
    }
}

/// Checks the shape of a matrix and returns its number of columns.
pub fn check_matrix(x: &Vec<Vec<i64>>) -> (r: Result<usize, ClassifyError>)
    ensures
        r is Ok <==> well_shaped(mat(x@)),
        r matches Ok(d) ==> d == x@[0].len(),
        !well_shaped(mat(x@)) ==> r == Err::<usize, ClassifyError>(shape_error(mat(x@))),
{
    if x.len() == 0 || x[0].len() == 0 {
        assert(x.len() == 0 || mat(x@)[0] == x@[0]@);
        return Err(ClassifyError::EmptyMatrix);
    }
    assert(mat(x@)[0] == x@[0]@);
    let d = x[0].len();
    for i in 0..x.len()
        invariant
            x.len() > 0,
            d > 0,
            d == x@[0].len(),
            forall|k: int| 0 <= k < i ==> (#[trigger] x@[k]).len() == d,
    {
        if x[i].len() != d {
            assert(mat(x@)[0] == x@[0]@);
            assert(mat(x@)[i as int].len() != mat(x@)[0].len());
            return Err(ClassifyError::RaggedRows);
        }
    }
    assert(rectangular(mat(x@))) by {
        assert(mat(x@)[0] == x@[0]@);
    }
    Ok(d)
}

/// Sorts `v` in ascending order.
pub fn sort_values(v: &Vec<i64>) -> (r: Vec<i64>)
    ensures
        r@ == v@.sort_by(|a: i64, b: i64| leq(a, b)),
{
    let mut out: Vec<i64> = Vec::new();
    assert(out@ =~= v@.take(0));
    for i in 0..v.len()
        invariant
            forall|s: int, t: int| 0 <= s < t < out@.len() ==> out@[s] <= out@[t],
            out@.to_multiset() == v@.take(i as int).to_multiset(),
    {
        let x = v[i];
        let mut pos: usize = 0;
        while pos < out.len() && out[pos] <= x
            invariant
                pos <= out.len(),
                forall|t: int| 0 <= t < pos ==> out@[t] <= x,
            decreases out.len() - pos,
        {
            pos += 1;
        }
        let ghost before = out@;
        out.insert(pos, x);
        proof {
            assert(out@ == before.insert(pos as int, x));
            vstd::seq_lib::to_multiset_insert(before, pos as int, x);
            assert(v@.take(i + 1) =~= v@.take(i as int).push(x));
            vstd::seq_lib::to_multiset_build(v@.take(i as int), x);
            assert forall|s: int, t: int| 0 <= s < t < out@.len() implies out@[s] <= out@[t] by {
                if t < pos {
                } else if t == pos {
                } else if s < pos {
                    assert(before[s] <= x);
                    assert(x < before[pos as int]);
                    if pos < t - 1 {
                        assert(before[pos as int] <= before[t - 1]);
                    }
                } else if s == pos {
                    assert(x < before[pos as int]);
                    if pos < t - 1 {
                        assert(before[pos as int] <= before[t - 1]);
                    }
                } else {
                    assert(before[s - 1] <= before[t - 1]);
                }
            }
        }
    }
    proof {
        assert(v@.take(v.len() as int) =~= v@);
        assert(sorted_by(out@, |a: i64, b: i64| leq(a, b)));
        v@.lemma_sort_by_ensures(|a: i64, b: i64| leq(a, b));
        vstd::seq_lib::lemma_sorted_unique(
            out@,
            v@.sort_by(|a: i64, b: i64| leq(a, b)),
            |a: i64, b: i64| leq(a, b),
        );
    }
    out
}

/// The `k`-th smallest value (counting from 0) of each column.
pub fn kth_by_column(x: &Vec<Vec<i64>>, k: usize) -> (r: Vec<i64>)
    requires
        x.len() > 0,
        k < x.len(),
        forall|i: int| 0 <= i < x.len() ==> (#[trigger] x@[i]).len() == x@[0].len(),
    ensures
        r.len() == x@[0].len(),
        forall|c: int|
            0 <= c < r.len() ==> #[trigger] r@[c] == column(mat(x@), c).sort_by(
                |a: i64, b: i64| leq(a, b),
            )[k as int],
{
    let n_cols = x[0].len();
    let mut r: Vec<i64> = Vec::new();
    for c in 0..n_cols
        invariant
            n_cols == x@[0].len(),
            k < x.len(),
            forall|i: int| 0 <= i < x.len() ==> (#[trigger] x@[i]).len() == x@[0].len(),
            r.len() == c,
            forall|t: int|
                0 <= t < c ==> #[trigger] r@[t] == column(mat(x@), t).sort_by(
                    |a: i64, b: i64| leq(a, b),
                )[k as int],
    {
        let mut col: Vec<i64> = Vec::new();
        for i in 0..x.len()
            invariant
                c < n_cols,
                n_cols == x@[0].len(),
                forall|i: int| 0 <= i < x.len() ==> (#[trigger] x@[i]).len() == x@[0].len(),
                col.len() == i,
                forall|t: int| 0 <= t < i ==> #[trigger] col@[t] == x@[t]@[c as int],
        {
            col.push(x[i][c]);
        }
        assert(col@ =~= column(mat(x@), c as int));
        let sorted = sort_values(&col);
        proof {
            col@.lemma_sort_by_ensures(|a: i64, b: i64| leq(a, b));
            assert(sorted@.len() == col@.len()) by {
                vstd::seq_lib::to_multiset_len(sorted@);
                vstd::seq_lib::to_multiset_len(col@);
            }
        }
        r.push(sorted[k]);
    }
    r
}

} // verus!
