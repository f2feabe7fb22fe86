//! Choice of the initial k-means centers from a stream of uniform random
//! numbers: uniformly at random, or by k-means++.
//!
//! A draw is a `u32` read as the fraction `u / 2^32` of the unit interval.
use vstd::prelude::*;

use crate::kmeans::{weights_ok, MAX_SAMPLES, MAX_WEIGHT};
use crate::linalg::{is_matrix, mat, sq_dist, squared_distance, MAX_SQ_DIST};

verus! {

/// The number of equal parts a draw divides the unit interval into.
pub const DRAW_SCALE: u64 = 0x1_0000_0000;

/// The index in `0..n` that draw `u` selects.
pub open spec fn pick(u: u32, n: int) -> int {
    (u as int * n) / 0x1_0000_0000
}

/// The fraction `u / 2^32` of `total`, rounded down.
pub open spec fn scale_draw(u: u32, total: int) -> int {
    (u as int * total) / 0x1_0000_0000
}

/// Row `i` of `d` scaled by the weight `wi`.
pub open spec fn scaled_row(wi: i64, row: Seq<i64>) -> Seq<int> {
    Seq::new(row.len(), |j: int| wi * row[j])
}

/// The rows of `d`, each scaled by its weight, laid end to end.
pub open spec fn flat_weighted(w: Seq<i64>, d: Seq<Seq<i64>>, rows: int) -> Seq<int>
    decreases rows,
{
    if rows <= 0 {
        Seq::empty()
    } else {
        flat_weighted(w, d, rows - 1) + scaled_row(w[rows - 1], d[rows - 1])
    }
}

/// Sum of the first `p` values.
pub open spec fn prefix(s: Seq<int>, p: int) -> int
    decreases p,
{
    if p <= 0 {
        0
    } else {
        prefix(s, p - 1) + s[p - 1]
    }
}

/// The first position at or after `p` whose running total reaches `target`,
/// or the length when none does.
pub open spec fn search_from(s: Seq<int>, target: int, p: int) -> int
    decreases s.len() - p,
{
    if p >= s.len() {
        s.len() as int
    } else if prefix(s, p + 1) >= target {
        p
    } else {
        search_from(s, target, p + 1)
    }
}

/// Where `target` would be inserted, on the left, into the running totals of `s`.
pub open spec fn search_left(s: Seq<int>, target: int) -> int {
    search_from(s, target, 0)
}

/// Largest number of entries a weighted search scans.
pub const MAX_SEARCH_ENTRIES: usize = 4_294_967_295;

/// Largest weighted squared distance.
pub open spec fn weighted_cap() -> int {
    16_384_000_000_000_000_000_000
}

/// Values a weighted search accepts: one row per weight, `m` columns, each
/// entry a squared distance.
pub open spec fn search_input(w: Seq<i64>, d: Seq<Seq<i64>>, m: int) -> bool {
    &&& d.len() == w.len()
    &&& w.len() * m <= MAX_SEARCH_ENTRIES
    &&& forall|i: int| 0 <= i < w.len() ==> 0 <= #[trigger] w[i] <= MAX_WEIGHT
    &&& forall|i: int|
        0 <= i < d.len() ==> (#[trigger] d[i]).len() == m && forall|j: int|
            0 <= j < m ==> 0 <= #[trigger] d[i][j] <= MAX_SQ_DIST
}

proof fn lemma_flat_len(w: Seq<i64>, d: Seq<Seq<i64>>, m: int, rows: int)
    requires
        0 <= rows <= d.len(),
        d.len() == w.len(),
        forall|i: int| 0 <= i < d.len() ==> (#[trigger] d[i]).len() == m,
    ensures
        flat_weighted(w, d, rows).len() == rows * m,
    decreases rows,
{
    if rows > 0 {
        lemma_flat_len(w, d, m, rows - 1);
        assert(d[rows - 1].len() == m);
        assert(rows * m == (rows - 1) * m + m) by (nonlinear_arith);
    } else {
        assert(rows * m == 0) by (nonlinear_arith)
            requires
                rows == 0,
        ;
    }
}

proof fn lemma_prefix_bounds(s: Seq<int>, p: int, cap: int)
    requires
        0 <= p <= s.len(),
        forall|i: int| 0 <= i < s.len() ==> 0 <= #[trigger] s[i] <= cap,
    ensures
        0 <= prefix(s, p) <= p * cap,
    decreases p,
{
    if p > 0 {
        lemma_prefix_bounds(s, p - 1, cap);
        assert(0 <= s[p - 1] <= cap);
        assert(p * cap == (p - 1) * cap + cap) by (nonlinear_arith);
    } else {
        assert(p * cap == 0) by (nonlinear_arith)
            requires
                p == 0,
        ;
    }
}

/// Like `numpy.searchsorted(cumsum(w * d), rand_vals)`: scales each row of
/// `closest_dist_sq` by its sample weight, lays the rows end to end, and
/// for each value returns the first position whose running total reaches it
/// (the length when none does).
pub fn searchsorted_weighted(
    sample_weight: &Vec<i64>,
    closest_dist_sq: &Vec<Vec<i64>>,
    m: usize,
    rand_vals: &Vec<i128>,
) -> (r: Vec<usize>)
    requires
        search_input(sample_weight@, mat(closest_dist_sq@), m as int),
    ensures
        r.len() == rand_vals.len(),
        forall|t: int|
            0 <= t < r.len() ==> #[trigger] r@[t] == search_left(
                flat_weighted(
                    sample_weight@,
                    mat(closest_dist_sq@),
                    sample_weight.len() as int,
                ),
                rand_vals@[t] as int,
            ),
{
    let ghost w = sample_weight@;
    let ghost d = mat(closest_dist_sq@);
    let n = sample_weight.len();
    let mut flat: Vec<i128> = Vec::new();
    for i in 0..n
        invariant
            n == w.len(),
            w == sample_weight@,
            d == mat(closest_dist_sq@),
            search_input(w, d, m as int),
            flat@.map_values(|v: i128| v as int) == flat_weighted(w, d, i as int),
            forall|t: int| 0 <= t < flat.len() ==> 0 <= #[trigger] flat@[t] <= weighted_cap(),
    {
        let wi = sample_weight[i];
        let row = &closest_dist_sq[i];
        assert(d[i as int] == row@);
        let ghost before = flat@;
        for j in 0..m
            invariant
                n == w.len(),
                i < n,
                w == sample_weight@,
                d == mat(closest_dist_sq@),
                search_input(w, d, m as int),
                row@ == d[i as int],
                wi == w[i as int],
                flat.len() == before.len() + j,
                forall|t: int| 0 <= t < before.len() ==> flat@[t] == before[t],
                forall|t: int|
                    0 <= t < j ==> #[trigger] flat@[before.len() + t] == wi * row@[t],
                forall|t: int| 0 <= t < flat.len() ==> 0 <= #[trigger] flat@[t] <= weighted_cap(),
        {
            let v = row[j];
            proof {
                let wv = wi as int;
                let vv = v as int;
                assert(0 <= wv * vv <= weighted_cap()) by (nonlinear_arith)
                    requires
                        0 <= wv <= 1_000_000,
                        0 <= vv <= 16_384_000_000_000_000,
                        weighted_cap() == 16_384_000_000_000_000_000_000,
                ;
            }
            flat.push((wi as i128) * (v as i128));
            assert(flat@[flat.len() - 1] == wi * v);
        }
        proof {
            let prev = flat_weighted(w, d, i as int);
            let next = flat_weighted(w, d, (i + 1) as int);
            assert(next == prev + scaled_row(w[i as int], d[i as int]));
            assert(before.map_values(|v: i128| v as int) == prev);
            let mapped = flat@.map_values(|v: i128| v as int);
            assert forall|t: int| 0 <= t < flat.len() implies mapped[t] == #[trigger] next[t] by {
                if t < before.len() {
                    assert(flat@[t] == before[t]);
                    assert(before.map_values(|v: i128| v as int)[t] == before[t] as int);
                } else {
                    assert(flat@[before.len() + (t - before.len())] == wi * row@[t - before.len()]);
                }
            }
            assert(mapped =~= next);
        }
    }
    let ghost s = flat_weighted(w, d, n as int);
    proof {
        lemma_flat_len(w, d, m as int, n as int);
    }
    assert(s.len() == flat.len());
    let mut cum: Vec<i128> = Vec::new();
    let mut acc: i128 = 0;
    for p in 0..flat.len()
        invariant
            s == flat_weighted(w, d, n as int),
            flat@.map_values(|v: i128| v as int) == s,
            s.len() == flat.len(),
            flat.len() <= MAX_SEARCH_ENTRIES,
            forall|t: int| 0 <= t < flat.len() ==> 0 <= #[trigger] flat@[t] <= weighted_cap(),
            cum.len() == p,
            acc == prefix(s, p as int),
            forall|t: int| 0 <= t < p ==> #[trigger] cum@[t] == prefix(s, t + 1),
    {
        proof {
            assert forall|i: int| 0 <= i < s.len() implies 0 <= #[trigger] s[i] <= weighted_cap() by {
                assert(s[i] == flat@[i] as int);
            }
            lemma_prefix_bounds(s, (p + 1) as int, weighted_cap());
            let pp = (p + 1) as int;
            assert(pp * weighted_cap() <= 4_294_967_295 * 16_384_000_000_000_000_000_000)
                by (nonlinear_arith)
                requires
                    0 <= pp <= 4_294_967_295,
                    weighted_cap() == 16_384_000_000_000_000_000_000,
            ;
            assert(s[p as int] == flat@[p as int] as int);
            assert(prefix(s, (p + 1) as int) == prefix(s, p as int) + s[p as int]);
        }
        acc = acc + flat[p];
        cum.push(acc);
    }
    let mut r: Vec<usize> = Vec::new();
    for t in 0..rand_vals.len()
        invariant
            s.len() == cum.len(),
            forall|q: int| 0 <= q < cum.len() ==> #[trigger] cum@[q] == prefix(s, q + 1),
            r.len() == t,
            forall|q: int|
                0 <= q < t ==> #[trigger] r@[q] == search_left(s, rand_vals@[q] as int),
    {
        let target = rand_vals[t];
        let mut p: usize = 0;
        while p < cum.len() && cum[p] < target
            invariant
                p <= cum.len(),
                s.len() == cum.len(),
                forall|q: int| 0 <= q < cum.len() ==> #[trigger] cum@[q] == prefix(s, q + 1),
                search_left(s, target as int) == search_from(s, target as int, p as int),
            decreases cum.len() - p,
        {
            p += 1;
        }
        r.push(p);
    }
    r
}

/// `floor(ln k)` for `1 <= k <= MAX_SAMPLES`: the number of `t >= 1` with
/// `e^t <= k` (the bounds are `e^t` rounded up).
pub open spec fn ln_floor(k: int) -> int {
    if k >= 442414 {
        13
    } else if k >= 162755 {
        12
    } else if k >= 59875 {
        11
    } else if k >= 22027 {
        10
    } else if k >= 8104 {
        9
    } else if k >= 2981 {
        8
    } else if k >= 1097 {
        7
    } else if k >= 404 {
        6
    } else if k >= 149 {
        5
    } else if k >= 55 {
        4
    } else if k >= 21 {
        3
    } else if k >= 8 {
        2
    } else if k >= 3 {
        1
    } else {
        0
    }
}

/// The number of candidates k-means++ tries for each new center: `2 + ln k`.
pub fn default_local_trials(k: usize) -> (r: usize)
    ensures
        r == 2 + ln_floor(k as int),
{
    let t: usize = if k >= 442414 {
        13
    } else if k >= 162755 {
        12
    } else if k >= 59875 {
        11
    } else if k >= 22027 {
        10
    } else if k >= 8104 {
        9
    } else if k >= 2981 {
        8
    } else if k >= 1097 {
        7
    } else if k >= 404 {
        6
    } else if k >= 149 {
        5
    } else if k >= 55 {
        4
    } else if k >= 21 {
        3
    } else if k >= 8 {
        2
    } else if k >= 3 {
        1
    } else {
        0
    };
    2 + t
}

/// `n` points' weights times their squared distances.
pub open spec fn weighted(w: Seq<i64>, c: Seq<i64>) -> Seq<int> {
    Seq::new(w.len(), |i: int| w[i] * c[i])
}

/// Weighted sum of squared distances.
pub open spec fn potential(w: Seq<i64>, c: Seq<i64>) -> int {
    prefix(weighted(w, c), w.len() as int)
}

/// Squared distance of every point to its nearest center once point `cand`
/// is a center too.
pub open spec fn closest_after(x: Seq<Seq<i64>>, cand: int, closest: Seq<i64>) -> Seq<i64> {
    Seq::new(
        x.len(),
        |i: int|
            if (sq_dist(x[cand], x[i]) as i64) < closest[i] {
                sq_dist(x[cand], x[i]) as i64
            } else {
                closest[i]
            },
    )
}

/// The first position among `0..j` holding the smallest value.
pub open spec fn argmin_upto(s: Seq<int>, j: int) -> int
    decreases j,
{
    if j <= 1 {
        0
    } else {
        let m = argmin_upto(s, j - 1);
        if s[j - 1] < s[m] {
            j - 1
        } else {
            m
        }
    }
}

pub proof fn lemma_argmin_bounds(s: Seq<int>, j: int)
    requires
        1 <= j <= s.len(),
    ensures
        0 <= argmin_upto(s, j) < j,
        forall|t: int| 0 <= t < j ==> s[argmin_upto(s, j)] <= #[trigger] s[t],
    decreases j,
{
    if j > 1 {
        lemma_argmin_bounds(s, j - 1);
    }
}

/// The progress of k-means++: the chosen point indices, each point's
/// squared distance to its nearest chosen point, their weighted sum, and
/// the position of the next unused draw.
pub struct SeedState {
    pub idx: Seq<int>,
    pub closest: Seq<i64>,
    pub pot: int,
    pub pos: int,
}

/// The first center of k-means++: a point drawn uniformly.
pub open spec fn pp_first(x: Seq<Seq<i64>>, w: Seq<i64>, draws: Seq<u32>) -> SeedState {
    let id0 = pick(draws[0], x.len() as int);
    let closest = Seq::new(x.len(), |i: int| sq_dist(x[id0], x[i]) as i64);
    SeedState { idx: seq![id0], closest, pot: potential(w, closest), pos: 1 }
}

/// The candidate that trial `t` draws: a point chosen with probability
/// proportional to its weighted squared distance to the nearest center.
pub open spec fn pp_candidate(
    w: Seq<i64>,
    draws: Seq<u32>,
    st: SeedState,
    t: int,
) -> int {
    let p = search_left(weighted(w, st.closest), scale_draw(draws[st.pos + t], st.pot));
    if p >= w.len() - 1 {
        w.len() - 1
    } else {
        p
    }
}

/// The potential after adding the candidate of trial `t`.
pub open spec fn pp_trial_pot(
    x: Seq<Seq<i64>>,
    w: Seq<i64>,
    draws: Seq<u32>,
    st: SeedState,
    t: int,
) -> int {
    potential(w, closest_after(x, pp_candidate(w, draws, st, t), st.closest))
}

/// One more center: of `trials` candidates, the one that leaves the smallest
/// potential (the first on a tie).
pub open spec fn pp_step(
    x: Seq<Seq<i64>>,
    w: Seq<i64>,
    draws: Seq<u32>,
    trials: int,
    st: SeedState,
) -> SeedState {
    let pots = Seq::new(trials as nat, |t: int| pp_trial_pot(x, w, draws, st, t));
    let best = argmin_upto(pots, trials);
    let cand = pp_candidate(w, draws, st, best);
    SeedState {
        idx: st.idx.push(cand),
        closest: closest_after(x, cand, st.closest),
        pot: pots[best],
        pos: st.pos + trials,
    }
}

/// The state of k-means++ once `k` centers are chosen.
pub open spec fn pp_run(
    x: Seq<Seq<i64>>,
    w: Seq<i64>,
    draws: Seq<u32>,
    trials: int,
    k: int,
) -> SeedState
    decreases k,
{
    if k <= 1 {
        pp_first(x, w, draws)
    } else {
        pp_step(x, w, draws, trials, pp_run(x, w, draws, trials, k - 1))
    }
}

/// The number of draws k-means++ consumes.
pub open spec fn pp_draws(k: int, trials: int) -> int {
    1 + (k - 1) * trials
}

/// Points, weights and draws that k-means++ accepts.
pub open spec fn seeding_input(
    x: Seq<Seq<i64>>,
    w: Seq<i64>,
    d: int,
    k: int,
    trials: int,
    draws: Seq<u32>,
) -> bool {
    &&& is_matrix(x, d)
    &&& 0 < x.len() <= MAX_SAMPLES
    &&& weights_ok(w, x.len() as int)
    &&& 1 <= k <= MAX_SAMPLES
    &&& 1 <= trials <= MAX_SAMPLES
    &&& draws.len() >= pp_draws(k, trials)
}

/// What every state of k-means++ satisfies.
pub open spec fn seed_state_ok(x: Seq<Seq<i64>>, w: Seq<i64>, st: SeedState) -> bool {
    &&& st.closest.len() == x.len()
    &&& forall|i: int| 0 <= i < x.len() ==> 0 <= #[trigger] st.closest[i] <= MAX_SQ_DIST
    &&& st.pot == potential(w, st.closest)
    &&& forall|c: int| 0 <= c < st.idx.len() ==> 0 <= #[trigger] st.idx[c] < x.len()
}

proof fn lemma_weighted_bounds(w: Seq<i64>, c: Seq<i64>)
    requires
        c.len() == w.len(),
        w.len() <= MAX_SAMPLES,
        forall|i: int| 0 <= i < w.len() ==> 0 <= #[trigger] w[i] <= MAX_WEIGHT,
        forall|i: int| 0 <= i < c.len() ==> 0 <= #[trigger] c[i] <= MAX_SQ_DIST,
    ensures
        forall|i: int| 0 <= i < w.len() ==> 0 <= #[trigger] weighted(w, c)[i] <= weighted_cap(),
        0 <= potential(w, c) <= 1_048_576 * weighted_cap(),
{
    assert forall|i: int| 0 <= i < w.len() implies 0 <= #[trigger] weighted(w, c)[i]
        <= weighted_cap() by {
        let a = w[i] as int;
        let b = c[i] as int;
        assert(0 <= a * b <= 16_384_000_000_000_000_000_000) by (nonlinear_arith)
            requires
                0 <= a <= 1_000_000,
                0 <= b <= 16_384_000_000_000_000,
        ;
    }
    lemma_prefix_bounds(weighted(w, c), w.len() as int, weighted_cap());
    let n = w.len() as int;
    assert(n * weighted_cap() <= 1_048_576 * weighted_cap()) by (nonlinear_arith)
        requires
            0 <= n <= 1_048_576,
            weighted_cap() > 0,
    ;
}

proof fn lemma_flat_column(w: Seq<i64>, col: Seq<Seq<i64>>, c: Seq<i64>, rows: int)
    requires
        0 <= rows <= w.len(),
        col.len() == w.len(),
        c.len() == w.len(),
        forall|i: int| 0 <= i < col.len() ==> #[trigger] col[i] == seq![c[i]],
    ensures
        flat_weighted(w, col, rows) == weighted(w, c).take(rows),
    decreases rows,
{
    if rows > 0 {
        lemma_flat_column(w, col, c, rows - 1);
        assert(col[rows - 1] == seq![c[rows - 1]]);
        assert(flat_weighted(w, col, rows) =~= weighted(w, c).take(rows));
    } else {
        assert(flat_weighted(w, col, rows) =~= weighted(w, c).take(rows));
    }
}

/// Weighted sum of squared distances.
fn potential_of(w: &Vec<i64>, c: &Vec<i64>) -> (r: i128)
    requires
        c.len() == w.len(),
        w.len() <= MAX_SAMPLES,
        forall|i: int| 0 <= i < w.len() ==> 0 <= #[trigger] w@[i] <= MAX_WEIGHT,
        forall|i: int| 0 <= i < c.len() ==> 0 <= #[trigger] c@[i] <= MAX_SQ_DIST,
    ensures
        r == potential(w@, c@),
{
    proof {
        lemma_weighted_bounds(w@, c@);
    }
    let mut acc: i128 = 0;
    for i in 0..w.len()
        invariant
            c.len() == w.len(),
            w.len() <= MAX_SAMPLES,
            forall|i: int| 0 <= i < w.len() ==> 0 <= #[trigger] weighted(w@, c@)[i] <= weighted_cap(),
            acc == prefix(weighted(w@, c@), i as int),
    {
        proof {
            lemma_prefix_bounds(weighted(w@, c@), (i + 1) as int, weighted_cap());
            let ii = (i + 1) as int;
            assert(ii * weighted_cap() <= 1_048_576 * 16_384_000_000_000_000_000_000) by (nonlinear_arith)
                requires
                    0 <= ii <= 1_048_576,
                    weighted_cap() == 16_384_000_000_000_000_000_000,
            ;
            assert(weighted(w@, c@)[i as int] == w@[i as int] * c@[i as int]);
        }
        acc = acc + (w[i] as i128) * (c[i] as i128);
    }
    acc
}

/// Squared distances to the nearest center once point `cand` is a center.
fn closest_with(x: &Vec<Vec<i64>>, d: usize, cand: usize, closest: &Vec<i64>) -> (r: Vec<i64>)
    requires
        is_matrix(mat(x@), d as int),
        cand < x.len(),
        closest.len() == x.len(),
        forall|i: int| 0 <= i < x.len() ==> 0 <= #[trigger] closest@[i] <= MAX_SQ_DIST,
    ensures
        r@ == closest_after(mat(x@), cand as int, closest@),
        forall|i: int| 0 <= i < x.len() ==> 0 <= #[trigger] r@[i] <= MAX_SQ_DIST,
{
    let mut r: Vec<i64> = Vec::new();
    assert(mat(x@)[cand as int] == x@[cand as int]@);
    for i in 0..x.len()
        invariant
            is_matrix(mat(x@), d as int),
            cand < x.len(),
            closest.len() == x.len(),
            forall|i: int| 0 <= i < x.len() ==> 0 <= #[trigger] closest@[i] <= MAX_SQ_DIST,
            mat(x@)[cand as int] == x@[cand as int]@,
            r.len() == i,
            forall|t: int| 0 <= t < i ==> #[trigger] r@[t] == closest_after(mat(x@), cand as int, closest@)[t],
            forall|t: int| 0 <= t < i ==> 0 <= #[trigger] r@[t] <= MAX_SQ_DIST,
    {
        assert(mat(x@)[i as int] == x@[i as int]@);
        let s = squared_distance(&x[cand], &x[i]);
        if s < closest[i] {
            r.push(s);
        } else {
            r.push(closest[i]);
        }
    }
    assert(r@ =~= closest_after(mat(x@), cand as int, closest@));
    r
}

/// The index in `0..n` selected by draw `u`.
fn pick_index(u: u32, n: usize) -> (r: usize)
    requires
        0 < n <= MAX_SAMPLES,
    ensures
        r == pick(u, n as int),
        r < n,
{
    assert(0 <= (u as int) * (n as int) < 0x1_0000_0000 * (n as int)) by (nonlinear_arith)
        requires
            0 <= u < 0x1_0000_0000,
            0 < n,
    ;
    assert(0x1_0000_0000 * (n as int) <= 0x1_0000_0000 * 1_048_576) by (nonlinear_arith)
        requires
            0 < n <= 1_048_576,
    ;
    let p: u64 = (u as u64) * (n as u64);
    assert(((u as int) * (n as int)) / 0x1_0000_0000 < n) by (nonlinear_arith)
        requires
            0 <= (u as int) * (n as int) < 0x1_0000_0000 * (n as int),
    ;
    (p / DRAW_SCALE) as usize
}

/// The candidate point that draw `u` selects for the current potential.
fn draw_candidate(w: &Vec<i64>, closest: &Vec<i64>, pot: i128, u: u32) -> (r: usize)
    requires
        0 < w.len() <= MAX_SAMPLES,
        closest.len() == w.len(),
        forall|i: int| 0 <= i < w.len() ==> 0 <= #[trigger] w@[i] <= MAX_WEIGHT,
        forall|i: int| 0 <= i < closest.len() ==> 0 <= #[trigger] closest@[i] <= MAX_SQ_DIST,
        pot == potential(w@, closest@),
    ensures
        r < w.len(),
        r == ({
            let p = search_left(weighted(w@, closest@), scale_draw(u, pot as int));
            if p >= w.len() - 1 {
                w.len() - 1
            } else {
                p
            }
        }),
{
    proof {
        lemma_weighted_bounds(w@, closest@);
    }
    let mut col: Vec<Vec<i64>> = Vec::new();
    for i in 0..closest.len()
        invariant
            col.len() == i,
            forall|t: int| 0 <= t < i ==> (#[trigger] col@[t])@ == seq![closest@[t]],
    {
        let mut cell: Vec<i64> = Vec::new();
        cell.push(closest[i]);
        assert(cell@ =~= seq![closest@[i as int]]);
        col.push(cell);
    }
    proof {
        lemma_flat_column(w@, mat(col@), closest@, w.len() as int);
        assert(weighted(w@, closest@).take(w.len() as int) =~= weighted(w@, closest@));
        let n = w.len() as int;
        assert(n * 1 <= MAX_SEARCH_ENTRIES) by (nonlinear_arith)
            requires
                n <= MAX_SAMPLES,
        ;
        assert forall|i: int| 0 <= i < mat(col@).len() implies (#[trigger] mat(col@)[i]).len() == 1
            && forall|j: int| 0 <= j < 1 ==> 0 <= #[trigger] mat(col@)[i][j] <= MAX_SQ_DIST by {
            assert(mat(col@)[i] == seq![closest@[i]]);
        }
    }
    proof {
        let pv = pot as int;
        assert(0 <= (u as int) * pv <= 0x1_0000_0000 * (1_048_576 * 16_384_000_000_000_000_000_000))
            by (nonlinear_arith)
            requires
                0 <= u < 0x1_0000_0000,
                0 <= pv <= 1_048_576 * 16_384_000_000_000_000_000_000,
        ;
    }
    let target: i128 = ((u as i128) * pot) / (DRAW_SCALE as i128);
    let mut targets: Vec<i128> = Vec::new();
    targets.push(target);
    let found = searchsorted_weighted(w, &col, 1, &targets);
    let p = found[0];
    if p >= w.len() - 1 {
        w.len() - 1
    } else {
        p
    }
}

/// Rows of `x` at the given indices.
pub open spec fn rows_at(x: Seq<Seq<i64>>, idx: Seq<int>) -> Seq<Seq<i64>> {
    Seq::new(idx.len(), |c: int| x[idx[c]])
}

/// k-means++ seeding: the first center is a point drawn uniformly; each
/// further center is, of `n_local_trials` candidates drawn with probability
/// proportional to their weighted squared distance to the nearest center so
/// far, the one that leaves the smallest potential. Returns the centers and
/// the indices of the points chosen.
pub fn kmeans_plus_plus(
    x: &Vec<Vec<i64>>,
    d: usize,
    n_clusters: usize,
    sample_weight: &Vec<i64>,
    draws: &Vec<u32>,
    n_local_trials: usize,
) -> (r: (Vec<Vec<i64>>, Vec<usize>))
    requires
        seeding_input(
            mat(x@),
            sample_weight@,
            d as int,
            n_clusters as int,
            n_local_trials as int,
            draws@,
        ),
    ensures
        r.1@.map_values(|v: usize| v as int) == pp_run(
            mat(x@),
            sample_weight@,
            draws@,
            n_local_trials as int,
            n_clusters as int,
        ).idx,
        mat(r.0@) == rows_at(mat(x@), r.1@.map_values(|v: usize| v as int)),
        r.0.len() == n_clusters,
        is_matrix(mat(r.0@), d as int),
{
    let ghost xs = mat(x@);
    let ghost ws = sample_weight@;
    let ghost ds = draws@;
    let trials = n_local_trials;
    let n = x.len();
    let id0 = pick_index(draws[0], n);
    assert(xs[id0 as int] == x@[id0 as int]@);
    let mut closest: Vec<i64> = Vec::new();
    for i in 0..n
        invariant
            xs == mat(x@),
            n == x.len(),
            is_matrix(xs, d as int),
            id0 < n,
            xs[id0 as int] == x@[id0 as int]@,
            closest.len() == i,
            forall|t: int|
                0 <= t < i ==> #[trigger] closest@[t] == sq_dist(xs[id0 as int], xs[t]) as i64,
            forall|t: int| 0 <= t < i ==> 0 <= #[trigger] closest@[t] <= MAX_SQ_DIST,
    {
        assert(xs[i as int] == x@[i as int]@);
        let v = squared_distance(&x[id0], &x[i]);
        closest.push(v);
    }
    let mut pot = potential_of(sample_weight, &closest);
    let mut indices: Vec<usize> = Vec::new();
    indices.push(id0);
    let mut centers: Vec<Vec<i64>> = Vec::new();
    centers.push(x[id0].clone());
    let mut pos: usize = 1;
    proof {
        let st = pp_run(xs, ws, ds, trials as int, 1);
        assert(closest@ =~= st.closest);
        assert(indices@.map_values(|v: usize| v as int) =~= st.idx);
        assert(mat(centers@) =~= rows_at(xs, st.idx));
    }
    for c in 1..n_clusters
        invariant
            xs == mat(x@),
            ws == sample_weight@,
            ds == draws@,
            n == x.len(),
            trials == n_local_trials,
            seeding_input(xs, ws, d as int, n_clusters as int, trials as int, ds),
            indices@.map_values(|v: usize| v as int) == pp_run(xs, ws, ds, trials as int, c as int).idx,
            closest@ == pp_run(xs, ws, ds, trials as int, c as int).closest,
            pot == pp_run(xs, ws, ds, trials as int, c as int).pot,
            pos == pp_run(xs, ws, ds, trials as int, c as int).pos,
            pos == 1 + (c - 1) * trials,
            closest.len() == n,
            forall|i: int| 0 <= i < n ==> 0 <= #[trigger] closest@[i] <= MAX_SQ_DIST,
            pot == potential(ws, closest@),
            forall|t: int| 0 <= t < indices.len() ==> #[trigger] indices@[t] < n,
            mat(centers@) == rows_at(xs, indices@.map_values(|v: usize| v as int)),
            centers.len() == c,
            indices.len() == c,
    {
        let ghost st = pp_run(xs, ws, ds, trials as int, c as int);
        let ghost pots = Seq::new(trials as nat, |t: int| pp_trial_pot(xs, ws, ds, st, t));
        assert(pos + trials <= draws.len()) by {
            let cc = c as int;
            let tt = trials as int;
            let kk = n_clusters as int;
            assert(1 + (cc - 1) * tt + tt <= 1 + (kk - 1) * tt) by (nonlinear_arith)
                requires
                    1 <= cc < kk,
                    tt >= 1,
            ;
        }
        let mut best: usize = 0;
        let mut best_cand = draw_candidate(sample_weight, &closest, pot, draws[pos]);
        let mut best_closest = closest_with(x, d, best_cand, &closest);
        let mut best_pot = potential_of(sample_weight, &best_closest);
        for t in 1..trials
            invariant
                xs == mat(x@),
                ws == sample_weight@,
                ds == draws@,
                n == x.len(),
                trials == n_local_trials,
                seeding_input(xs, ws, d as int, n_clusters as int, trials as int, ds),
                st == pp_run(xs, ws, ds, trials as int, c as int),
                pots == Seq::new(trials as nat, |t: int| pp_trial_pot(xs, ws, ds, st, t)),
                closest@ == st.closest,
                pot == st.pot,
                pos == st.pos,
                pos + trials <= draws.len(),
                closest.len() == n,
                forall|i: int| 0 <= i < n ==> 0 <= #[trigger] closest@[i] <= MAX_SQ_DIST,
                pot == potential(ws, closest@),
                best == argmin_upto(pots, t as int),
                best < t,
                best_cand == pp_candidate(ws, ds, st, best as int),
                best_cand < n,
                best_closest@ == closest_after(xs, best_cand as int, st.closest),
                forall|i: int| 0 <= i < n ==> 0 <= #[trigger] best_closest@[i] <= MAX_SQ_DIST,
                best_pot == pots[best as int],
        {
            let cand = draw_candidate(sample_weight, &closest, pot, draws[pos + t]);
            let cl = closest_with(x, d, cand, &closest);
            let p = potential_of(sample_weight, &cl);
            if p < best_pot {
                best = t;
                best_cand = cand;
                best_closest = cl;
                best_pot = p;
            }
        }
        proof {
            assert(pp_run(xs, ws, ds, trials as int, (c + 1) as int) == pp_step(xs, ws, ds, trials as int, st));
        }
        let ghost old_idx = indices@.map_values(|v: usize| v as int);
        let ghost old_raw = indices@;
        let ghost old_centers = mat(centers@);
        indices.push(best_cand);
        assert(xs[best_cand as int] == x@[best_cand as int]@);
        let row = x[best_cand].clone();
        assert(row@ == xs[best_cand as int]);
        centers.push(row);
        closest = best_closest;
        pot = best_pot;
        pos = pos + trials;
        proof {
            let nst = pp_run(xs, ws, ds, trials as int, (c + 1) as int);
            assert(indices@.map_values(|v: usize| v as int) =~= nst.idx);
            let idx = indices@.map_values(|v: usize| v as int);
            assert forall|q: int| 0 <= q < centers.len() implies #[trigger] mat(centers@)[q] == rows_at(
                xs,
                idx,
            )[q] by {
                assert(idx[q] == indices@[q] as int);
                if q < c {
                    assert(mat(centers@)[q] == old_centers[q]);
                    assert(indices@[q] == old_raw[q]);
                    assert(old_idx[q] == old_raw[q] as int);
                } else {
                    assert(mat(centers@)[q] == row@);
                    assert(indices@[q] == best_cand);
                }
            }
            assert(mat(centers@) =~= rows_at(xs, idx));
            assert(pos == 1 + c * trials) by (nonlinear_arith)
                requires
                    pos == 1 + (c - 1) * trials + trials,
            ;
        }
    }
    proof {
        assert forall|i: int| 0 <= i < mat(centers@).len() implies (#[trigger] mat(centers@)[i]).len()
            == d && crate::linalg::row_bounded(mat(centers@)[i]) by {
            let idx = indices@.map_values(|v: usize| v as int);
            assert(mat(centers@)[i] == xs[idx[i]]);
        }
    }
    (centers, indices)
}

/// Uniform seeding: `k` points drawn with replacement.
pub open spec fn random_centers(x: Seq<Seq<i64>>, k: int, draws: Seq<u32>) -> Seq<Seq<i64>> {
    Seq::new(k as nat, |c: int| x[pick(draws[c], x.len() as int)])
}

/// Picks `n_clusters` points uniformly with replacement, one draw each.
pub fn random_init(x: &Vec<Vec<i64>>, d: usize, n_clusters: usize, draws: &Vec<u32>) -> (r: Vec<
    Vec<i64>,
>)
    requires
        is_matrix(mat(x@), d as int),
        0 < x.len() <= MAX_SAMPLES,
        draws.len() >= n_clusters,
    ensures
        mat(r@) == random_centers(mat(x@), n_clusters as int, draws@),
        r.len() == n_clusters,
        is_matrix(mat(r@), d as int),
{
    let mut r: Vec<Vec<i64>> = Vec::new();
    for c in 0..n_clusters
        invariant
            is_matrix(mat(x@), d as int),
            0 < x.len() <= MAX_SAMPLES,
            draws.len() >= n_clusters,
            r.len() == c,
            forall|t: int| 0 <= t < c ==> (#[trigger] r@[t])@ == mat(x@)[pick(draws@[t], x.len() as int)],
    {
        let i = pick_index(draws[c], x.len());
        assert(mat(x@)[i as int] == x@[i as int]@);
        r.push(x[i].clone());
    }
    assert(mat(r@) =~= random_centers(mat(x@), n_clusters as int, draws@));
    proof {
        assert forall|q: int| 0 <= q < mat(r@).len() implies (#[trigger] mat(r@)[q]).len() == d
            && crate::linalg::row_bounded(mat(r@)[q]) by {
            let i = pick(draws@[q], x.len() as int);
            assert(0 <= i < x.len()) by (nonlinear_arith)
                requires
                    i == (draws@[q] as int * x.len()) / 0x1_0000_0000,
                    0 <= draws@[q] < 0x1_0000_0000,
                    x.len() > 0,
            ;
        }
    }
    r
}

} // verus!
