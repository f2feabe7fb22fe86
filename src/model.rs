//! The k-means model: restarts from seeded centers, keeps the run with the
//! lowest inertia, and reports per-cluster diagnostics.
use vstd::prelude::*;

use crate::error::ClassifyError;
use crate::kmeans::{
    assign, copy_matrix, kmeans_single_lloyd, lloyd_result, weights_ok, MAX_SAMPLES,
};
use crate::knn::{k_distances, k_nearest_dist};
use crate::linalg::{
    all_bounded, check_matrix, floor_sqrt, is_matrix, mat, rectangular, row_bounded, sq_dist,
    shape_error, squared_distance, well_shaped, MAX_SQ_DIST,
};
use crate::seeding::{
    default_local_trials, kmeans_plus_plus, ln_floor, pp_draws, pp_run, random_centers,
    random_init, rows_at, seeding_input,
};

verus! {

/// How initial centers are chosen, with the number of restarts (`0` for
/// the default).
#[derive(PartialEq, Eq, Structural, Clone, Copy, Debug)]
pub enum KnnInit {
    Random(usize),
    KMeansPlusPlus(usize),
}

/// Restarts for uniform seeding when none are set.
pub const DEFAULT_RANDOM_RESTARTS: usize = 10;

/// Default number of clusters.
pub const DEFAULT_K: usize = 8;

/// Default iteration cap of one run.
pub const DEFAULT_MAX_ITER: usize = 300;

/// The number of restarts that `init` asks for.
pub open spec fn restarts(init: KnnInit) -> int {
    match init {
        KnnInit::Random(n) => if n > 0 {
            n as int
        } else {
            DEFAULT_RANDOM_RESTARTS as int
        },
        KnnInit::KMeansPlusPlus(n) => if n > 0 {
            n as int
        } else {
            1
        },
    }
}

/// The draws one run of seeding consumes.
pub open spec fn draws_per_run(init: KnnInit, k: int) -> int {
    match init {
        KnnInit::Random(_) => k,
        KnnInit::KMeansPlusPlus(_) => pp_draws(k, 2 + ln_floor(k)),
    }
}

/// The initial centers of a run that reads its draws from `ds`.
pub open spec fn init_centers(
    init: KnnInit,
    x: Seq<Seq<i64>>,
    w: Seq<i64>,
    k: int,
    ds: Seq<u32>,
) -> Seq<Seq<i64>> {
    match init {
        KnnInit::Random(_) => random_centers(x, k, ds),
        KnnInit::KMeansPlusPlus(_) => rows_at(x, pp_run(x, w, ds, 2 + ln_floor(k), k).idx),
    }
}

/// Unit sample weights.
pub open spec fn unit_weights(n: int) -> Seq<i64> {
    Seq::new(n as nat, |i: int| 1i64)
}

/// The result of run `r`: seeded from the draws starting at `r` times the
/// draws per run.
pub open spec fn run_result(
    init: KnnInit,
    x: Seq<Seq<i64>>,
    k: int,
    draws: Seq<u32>,
    max_iter: int,
    tol: int,
    r: int,
) -> (Seq<usize>, int, Seq<Seq<i64>>, int) {
    let w = unit_weights(x.len() as int);
    let per = draws_per_run(init, k);
    lloyd_result(x, w, init_centers(init, x, w, k, draws.skip(r * per)), max_iter, tol)
}

/// The best of the first `runs` runs: the lowest inertia, the earliest on a tie.
pub open spec fn best_of(
    init: KnnInit,
    x: Seq<Seq<i64>>,
    k: int,
    draws: Seq<u32>,
    max_iter: int,
    tol: int,
    runs: int,
) -> (Seq<usize>, int, Seq<Seq<i64>>, int)
    decreases runs,
{
    if runs <= 1 {
        run_result(init, x, k, draws, max_iter, tol, 0)
    } else {
        let prev = best_of(init, x, k, draws, max_iter, tol, runs - 1);
        let cur = run_result(init, x, k, draws, max_iter, tol, runs - 1);
        if cur.1 < prev.1 {
            cur
        } else {
            prev
        }
    }
}

/// Sum of squared distances of the first `upto` points labelled `j` to center `j`.
pub open spec fn wcss_upto(
    x: Seq<Seq<i64>>,
    c: Seq<Seq<i64>>,
    labels: Seq<usize>,
    j: int,
    upto: int,
) -> int
    decreases upto,
{
    if upto <= 0 {
        0
    } else {
        wcss_upto(x, c, labels, j, upto - 1) + if labels[upto - 1] == j {
            sq_dist(x[upto - 1], c[j])
        } else {
            0
        }
    }
}

/// Whether some point carries label `j`.
pub open spec fn label_used(labels: Seq<usize>, j: int) -> bool {
    exists|i: int| 0 <= i < labels.len() && labels[i] as int == j
}

/// How many of the clusters `0..j` hold at least one point.
pub open spec fn nonempty_upto(labels: Seq<usize>, j: int) -> int
    decreases j,
{
    if j <= 0 {
        0
    } else {
        nonempty_upto(labels, j - 1) + if label_used(labels, j - 1) {
            1int
        } else {
            0
        }
    }
}

impl KnnInit {
    fn value(&self) -> (r: usize)
        ensures
            r == match *self {
                KnnInit::Random(n) => n,
                KnnInit::KMeansPlusPlus(n) => n,
            },
    {
        match self {
            KnnInit::Random(n) => *n,
            KnnInit::KMeansPlusPlus(n) => *n,
        }
    }

    /// Sets the number of restarts, keeping the seeding strategy.
    pub fn set_n_init(&mut self, n_init: usize)
        ensures
            *final(self) == match *old(self) {
                KnnInit::Random(_) => KnnInit::Random(n_init),
                KnnInit::KMeansPlusPlus(_) => KnnInit::KMeansPlusPlus(n_init),
            },
    {
        match self {
            KnnInit::Random(_) => {
                *self = KnnInit::Random(n_init);
            },
            KnnInit::KMeansPlusPlus(_) => {
                *self = KnnInit::KMeansPlusPlus(n_init);
            },
        }
    }

    /// The number of restarts: the one set, or 10 for uniform seeding and 1
    /// for k-means++.
    pub fn n_init(&self) -> (r: usize)
        ensures
            r == restarts(*self),
    {
        if self.value() > 0 {
            self.value()
        } else {
            match self {
                KnnInit::Random(_) => DEFAULT_RANDOM_RESTARTS,
                KnnInit::KMeansPlusPlus(_) => 1,
            }
        }
    }

    /// The number of draws one seeding consumes for `k` clusters.
    pub fn draws_per_run(&self, k: usize) -> (r: usize)
        requires
            1 <= k <= MAX_SAMPLES,
        ensures
            r == draws_per_run(*self, k as int),
    {
        match self {
            KnnInit::Random(_) => k,
            KnnInit::KMeansPlusPlus(_) => {
                let t = default_local_trials(k);
                assert((k - 1) * t <= 1_048_576 * 15) by (nonlinear_arith)
                    requires
                        1 <= k <= 1_048_576,
                        t <= 15,
                ;
                1 + (k - 1) * t
            },
        }
    }

    /// Initial centers for `n_clusters` clusters, reading the draws from
    /// position `start` on.
    fn init_centroids(
        &self,
        x: &Vec<Vec<i64>>,
        d: usize,
        sample_weight: &Vec<i64>,
        n_clusters: usize,
        draws: &Vec<u32>,
        start: usize,
    ) -> (r: Vec<Vec<i64>>)
        requires
            is_matrix(mat(x@), d as int),
            0 < x.len() <= MAX_SAMPLES,
            weights_ok(sample_weight@, x.len() as int),
            1 <= n_clusters <= MAX_SAMPLES,
            start + draws_per_run(*self, n_clusters as int) <= draws.len(),
        ensures
            mat(r@) == init_centers(*self, mat(x@), sample_weight@, n_clusters as int, draws@.skip(start as int)),
            r.len() == n_clusters,
            is_matrix(mat(r@), d as int),
    {
        let need = self.draws_per_run(n_clusters);
        let mut sub: Vec<u32> = Vec::new();
        for i in 0..need
            invariant
                start + need <= draws.len(),
                sub.len() == i,
                forall|t: int| 0 <= t < i ==> #[trigger] sub@[t] == draws@[start + t],
        {
            sub.push(draws[start + i]);
        }
        let ghost ds = draws@.skip(start as int);
        match self {
            KnnInit::Random(_) => {
                let r = random_init(x, d, n_clusters, &sub);
                assert(random_centers(mat(x@), n_clusters as int, sub@) =~= random_centers(
                    mat(x@),
                    n_clusters as int,
                    ds,
                ));
                r
            },
            KnnInit::KMeansPlusPlus(_) => {
                let t = default_local_trials(n_clusters);
                proof {
                    assert(t <= MAX_SAMPLES);
                    assert(seeding_input(mat(x@), sample_weight@, d as int, n_clusters as int, t as int, sub@));
                    lemma_pp_prefix(mat(x@), sample_weight@, sub@, ds, t as int, n_clusters as int);
                }
                let (centers, _indices) = kmeans_plus_plus(x, d, n_clusters, sample_weight, &sub, t);
                centers
            },
        }
    }
}

/// k-means++ reads only its first draws, so any longer stream that starts
/// with them gives the same seeding.
proof fn lemma_pp_prefix(
    x: Seq<Seq<i64>>,
    w: Seq<i64>,
    a: Seq<u32>,
    b: Seq<u32>,
    trials: int,
    k: int,
)
    requires
        1 <= k,
        1 <= trials,
        a.len() >= pp_draws(k, trials),
        b.len() >= a.len(),
        forall|t: int| 0 <= t < a.len() ==> a[t] == b[t],
    ensures
        pp_run(x, w, a, trials, k) == pp_run(x, w, b, trials, k),
    decreases k,
{
    if k > 1 {
        assert(pp_draws(k - 1, trials) <= pp_draws(k, trials)) by (nonlinear_arith)
            requires
                k >= 2,
                trials >= 1,
        ;
        lemma_pp_prefix(x, w, a, b, trials, k - 1);
        lemma_pp_run_pos(x, w, a, trials, k - 1);
        let st = pp_run(x, w, a, trials, k - 1);
        assert(st.pos + trials <= pp_draws(k, trials)) by (nonlinear_arith)
            requires
                st.pos == 1 + (k - 2) * trials,
        ;
        let pa = Seq::new(trials as nat, |t: int| crate::seeding::pp_trial_pot(x, w, a, st, t));
        let pb = Seq::new(trials as nat, |t: int| crate::seeding::pp_trial_pot(x, w, b, st, t));
        assert(pa =~= pb);
        assert forall|t: int| 0 <= t < trials implies #[trigger] a[st.pos + t] == b[st.pos + t] by {}
        assert forall|t: int| 0 <= t < trials implies crate::seeding::pp_candidate(w, a, st, t)
            == crate::seeding::pp_candidate(w, b, st, t) by {
            assert(a[st.pos + t] == b[st.pos + t]);
        }
        assert(pa =~= pb);
        let best = crate::seeding::argmin_upto(pa, trials);
        assert(crate::seeding::argmin_upto(pa, trials) == crate::seeding::argmin_upto(pb, trials));
        crate::seeding::lemma_argmin_bounds(pa, trials);
        assert(crate::seeding::pp_candidate(w, a, st, best) == crate::seeding::pp_candidate(
            w,
            b,
            st,
            best,
        ));
        assert(crate::seeding::pp_step(x, w, a, trials, st) == crate::seeding::pp_step(
            x,
            w,
            b,
            trials,
            st,
        ));
        assert(pp_run(x, w, b, trials, k - 1) == st);
    } else {
        assert(pp_draws(k, trials) == 1) by (nonlinear_arith)
            requires
                k == 1,
                pp_draws(k, trials) == 1 + (k - 1) * trials,
        ;
        assert(a[0] == b[0]);
    }
}

proof fn lemma_pp_run_pos(x: Seq<Seq<i64>>, w: Seq<i64>, draws: Seq<u32>, trials: int, k: int)
    requires
        1 <= k,
    ensures
        pp_run(x, w, draws, trials, k).pos == 1 + (k - 1) * trials,
    decreases k,
{
    if k > 1 {
        lemma_pp_run_pos(x, w, draws, trials, k - 1);
        assert(1 + (k - 2) * trials + trials == 1 + (k - 1) * trials) by (nonlinear_arith);
    } else {
        assert((k - 1) * trials == 0) by (nonlinear_arith)
            requires
                k == 1,
        ;
    }
}

/// A k-means model: its settings and, once fitted, its result.
pub struct Knn {
    pub k: usize,
    pub init: KnnInit,
    pub max_iterations: usize,
    /// Stop once the total squared shift of the centers is at most this.
    pub tolerace: i64,
    pub cluster_centers: Option<Vec<Vec<i64>>>,
    pub labels: Option<Vec<usize>>,
    pub inertia: Option<i128>,
    pub n_iter: Option<usize>,
}

impl Default for KnnInit {
    fn default() -> (r: Self)
        ensures
            r == KnnInit::Random(0),
    {
        KnnInit::Random(0)
    }
}

impl Default for Knn {
    /// An unfitted model for `DEFAULT_K` clusters with the default settings.
    fn default() -> (r: Self)
        ensures
            r.k == DEFAULT_K,
            r.init == KnnInit::Random(0),
            r.max_iterations == DEFAULT_MAX_ITER,
            r.tolerace == 0,
            r.fitted() is None,
    {
        Knn::new(DEFAULT_K)
    }
}

impl Knn {
    /// The centers and labels, when both are set.
    pub open spec fn centers_and_labels(&self) -> Option<(Seq<Seq<i64>>, Seq<usize>)> {
        match (self.cluster_centers, self.labels) {
            (Some(c), Some(l)) => Some((mat(c@), l@)),
            _ => None,
        }
    }

    /// The fitted labels, inertia, centers and iteration count, if fitted.
    pub open spec fn fitted(&self) -> Option<(Seq<usize>, int, Seq<Seq<i64>>, int)> {
        match (self.labels, self.inertia, self.cluster_centers, self.n_iter) {
            (Some(l), Some(i), Some(c), Some(n)) => Some((l@, i as int, mat(c@), n as int)),
            _ => None,
        }
    }

    /// An unfitted model for `k` clusters with the default settings: uniform
    /// seeding with the default restarts, at most 300 iterations, and no
    /// tolerance on the center shift.
    pub fn new(k: usize) -> (r: Self)
        ensures
            r.k == k,
            r.init == KnnInit::Random(0),
            r.max_iterations == DEFAULT_MAX_ITER,
            r.tolerace == 0,
            r.cluster_centers is None,
            r.labels is None,
            r.inertia is None,
            r.n_iter is None,
    {
        Knn {
            k,
            init: KnnInit::Random(0),
            max_iterations: DEFAULT_MAX_ITER,
            tolerace: 0,
            cluster_centers: None,
            labels: None,
            inertia: None,
            n_iter: None,
        }
    }

    pub fn set_k(&mut self, k: usize)
        ensures
            final(self).k == k,
            final(self).init == old(self).init,
            final(self).max_iterations == old(self).max_iterations,
            final(self).tolerace == old(self).tolerace,
            final(self).fitted() == old(self).fitted(),
    {
        self.k = k;
    }

    pub fn set_init(&mut self, init: KnnInit)
        ensures
            final(self).k == old(self).k,
            final(self).init == init,
            final(self).max_iterations == old(self).max_iterations,
            final(self).tolerace == old(self).tolerace,
            final(self).fitted() == old(self).fitted(),
    {
        self.init = init;
    }

    pub fn set_n_init(&mut self, n_init: usize)
        ensures
            final(self).k == old(self).k,
            final(self).init == match old(self).init {
                KnnInit::Random(_) => KnnInit::Random(n_init),
                KnnInit::KMeansPlusPlus(_) => KnnInit::KMeansPlusPlus(n_init),
            },
            final(self).max_iterations == old(self).max_iterations,
            final(self).tolerace == old(self).tolerace,
            final(self).fitted() == old(self).fitted(),
    {
        self.init.set_n_init(n_init);
    }

    pub fn set_max_iterations(&mut self, max_iterations: usize)
        ensures
            final(self).k == old(self).k,
            final(self).init == old(self).init,
            final(self).max_iterations == max_iterations,
            final(self).tolerace == old(self).tolerace,
            final(self).fitted() == old(self).fitted(),
    {
        self.max_iterations = max_iterations;
    }

    pub fn set_tolerace(&mut self, tolerace: i64)
        ensures
            final(self).k == old(self).k,
            final(self).init == old(self).init,
            final(self).max_iterations == old(self).max_iterations,
            final(self).tolerace == tolerace,
            final(self).fitted() == old(self).fitted(),
    {
        self.tolerace = tolerace;
    }

    /// Fits the model to the points of `x` with unit weights: runs k-means
    /// from as many seedings as the restarts ask for, each reading its own
    /// slice of `draws`, and keeps the run with the lowest inertia.
    pub fn fit(&mut self, x: &Vec<Vec<i64>>, draws: &Vec<u32>) -> (r: Result<(), ClassifyError>)
        requires
            all_bounded(mat(x@)),
            x.len() <= MAX_SAMPLES,
            1 <= old(self).k <= MAX_SAMPLES ==> restarts(old(self).init) * draws_per_run(
                old(self).init,
                old(self).k as int,
            ) <= draws.len(),
        ensures
            r is Ok <==> well_shaped(mat(x@)) && 1 <= old(self).k <= MAX_SAMPLES,
            !well_shaped(mat(x@)) ==> r == Err::<(), ClassifyError>(shape_error(mat(x@))),
            well_shaped(mat(x@)) && old(self).k == 0 ==> r == Err::<(), ClassifyError>(
                ClassifyError::NoClusters,
            ),
            well_shaped(mat(x@)) && old(self).k > MAX_SAMPLES ==> r == Err::<(), ClassifyError>(
                ClassifyError::TooLarge,
            ),
            final(self).k == old(self).k,
            final(self).init == old(self).init,
            final(self).max_iterations == old(self).max_iterations,
            final(self).tolerace == old(self).tolerace,
            r is Err ==> final(self).fitted() == old(self).fitted(),
            r is Ok ==> final(self).fitted() == Some(
                best_of(
                    old(self).init,
                    mat(x@),
                    old(self).k as int,
                    draws@,
                    old(self).max_iterations as int,
                    old(self).tolerace as int,
                    restarts(old(self).init),
                ),
            ),
            r is Ok ==> ({
                let f = final(self).fitted()->0;
                &&& f.0.len() == x.len()
                &&& forall|i: int| 0 <= i < f.0.len() ==> #[trigger] f.0[i] < old(self).k
                &&& f.2.len() == old(self).k
                &&& is_matrix(f.2, x@[0].len() as int)
                &&& all_bounded(f.2)
                &&& f.1 >= 0
                &&& f.0 == assign(mat(x@), f.2)
            }),
    {
        let d = match check_matrix(x) {
            Ok(d) => d,
            Err(e) => {
                return Err(e);
            },
        };
        let n = x.len();
        let k = self.k;
        if k == 0 {
            return Err(ClassifyError::NoClusters);
        }
        if k > MAX_SAMPLES {
            return Err(ClassifyError::TooLarge);
        }
        assert(is_matrix(mat(x@), d as int)) by {
            assert forall|i: int| 0 <= i < mat(x@).len() implies (#[trigger] mat(x@)[i]).len() == d
                && row_bounded(mat(x@)[i]) by {
                assert(rectangular(mat(x@)));
            }
        }
        let mut w: Vec<i64> = Vec::new();
        for i in 0..n
            invariant
                w.len() == i,
                forall|t: int| 0 <= t < i ==> #[trigger] w@[t] == 1,
        {
            w.push(1);
        }
        assert(w@ =~= unit_weights(n as int));
        let runs = self.init.n_init();
        let per = self.init.draws_per_run(k);
        let init = self.init;
        let max_iter = self.max_iterations;
        let tol = self.tolerace;
        let ghost xs = mat(x@);
        let mut best: Option<(Vec<usize>, i128, Vec<Vec<i64>>, usize)> = None;
        let mut start: usize = 0;
        assert(0 * per == 0) by (nonlinear_arith);
        for run in 0..runs
            invariant
                xs == mat(x@),
                is_matrix(xs, d as int),
                0 < n == x.len() <= MAX_SAMPLES,
                1 <= k <= MAX_SAMPLES,
                w@ == unit_weights(n as int),
                weights_ok(w@, n as int),
                runs == restarts(init),
                per == draws_per_run(init, k as int),
                runs * per <= draws.len(),
                start == run * per,
                run == 0 <==> best is None,
                best matches Some(b) ==> (b.0@, b.1 as int, mat(b.2@), b.3 as int) == best_of(
                    init,
                    xs,
                    k as int,
                    draws@,
                    max_iter as int,
                    tol as int,
                    run as int,
                ),
                best matches Some(b) ==> b.0.len() == n && b.2.len() == k && is_matrix(mat(b.2@), d as int) && forall|i: int|
                    0 <= i < b.0.len() ==> #[trigger] b.0@[i] < k,
                best matches Some(b) ==> b.1 >= 0 && b.0@ == assign(xs, mat(b.2@)),
        {
            assert(start + per <= draws.len()) by {
                let rr = run as int;
                let pp = per as int;
                let nn = runs as int;
                assert(rr * pp + pp <= nn * pp) by (nonlinear_arith)
                    requires
                        0 <= rr < nn,
                        pp >= 0,
                ;
            }
            let centers_init = init.init_centroids(x, d, &w, k, draws, start);
            let (labels, inertia, centers, n_iter) = kmeans_single_lloyd(
                x,
                &w,
                &centers_init,
                d,
                max_iter,
                tol,
            );
            proof {
                assert(run_result(init, xs, k as int, draws@, max_iter as int, tol as int, run as int)
                    == (labels@, inertia as int, mat(centers@), n_iter as int));
            }
            let better = match &best {
                None => true,
                Some(b) => inertia < b.1,
            };
            if better {
                best = Some((labels, inertia, centers, n_iter));
            }
            start = start + per;
            assert(start == (run + 1) * per) by (nonlinear_arith)
                requires
                    start == run * per + per,
            ;
        }
        match best {
            Some(b) => {
                let (labels, inertia, centers, n_iter) = b;
                self.labels = Some(labels);
                self.inertia = Some(inertia);
                self.cluster_centers = Some(centers);
                self.n_iter = Some(n_iter);
                Ok(())
            },
            None => {
                return Err(ClassifyError::NoClusters);
            },
        }
    }

    /// The fitted labels.
    pub fn labels(&self) -> (r: Option<Vec<usize>>)
        ensures
            r matches Some(l) ==> self.fitted() matches Some(f) && l@ == f.0,
            r is None ==> self.fitted() is None,
    {
        match (&self.labels, &self.inertia, &self.cluster_centers, &self.n_iter) {
            (Some(l), Some(_), Some(_), Some(_)) => Some(l.clone()),
            _ => None,
        }
    }

    /// The fitted centers.
    pub fn centers(&self) -> (r: Option<Vec<Vec<i64>>>)
        ensures
            r matches Some(c) ==> self.fitted() matches Some(f) && mat(c@) == f.2,
            r is None ==> self.fitted() is None,
    {
        match (&self.labels, &self.inertia, &self.cluster_centers, &self.n_iter) {
            (Some(_), Some(_), Some(c), Some(_)) => Some(copy_matrix(c)),
            _ => None,
        }
    }

    /// The fitted inertia.
    pub fn inertia(&self) -> (r: Option<i128>)
        ensures
            r matches Some(i) ==> self.fitted() matches Some(f) && i == f.1,
            r is None ==> self.fitted() is None,
    {
        match (&self.labels, &self.inertia, &self.cluster_centers, &self.n_iter) {
            (Some(_), Some(i), Some(_), Some(_)) => Some(*i),
            _ => None,
        }
    }

    /// The iteration count of the kept run.
    pub fn n_iter(&self) -> (r: Option<usize>)
        ensures
            r matches Some(i) ==> self.fitted() matches Some(f) && i == f.3,
            r is None ==> self.fitted() is None,
    {
        match (&self.labels, &self.inertia, &self.cluster_centers, &self.n_iter) {
            (Some(_), Some(_), Some(_), Some(i)) => Some(*i),
            _ => None,
        }
    }

    /// Distances from every fitted center to every point of `x` (one row per
    /// center), rounded down to whole fixed-point units. An unfitted model is
    /// fitted to `x` first.
    pub fn transform(&mut self, x: &Vec<Vec<i64>>, draws: &Vec<u32>) -> (r: Result<
        Vec<Vec<i64>>,
        ClassifyError,
    >)
        requires
            all_bounded(mat(x@)),
            x.len() <= MAX_SAMPLES,
            1 <= old(self).k <= MAX_SAMPLES ==> restarts(old(self).init) * draws_per_run(
                old(self).init,
                old(self).k as int,
            ) <= draws.len(),
            old(self).fitted() matches Some(f) ==> all_bounded(f.2),
        ensures
            final(self).k == old(self).k,
            final(self).init == old(self).init,
            old(self).fitted() is Some ==> final(self).fitted() == old(self).fitted(),
            r is Ok <==> well_shaped(mat(x@)) && (old(self).fitted() is None ==> 1 <= old(self).k
                <= MAX_SAMPLES) && (old(self).fitted() matches Some(f) ==> forall|j: int|
                0 <= j < f.2.len() ==> (#[trigger] f.2[j]).len() == x@[0].len()),
            r matches Ok(rows) ==> final(self).fitted() matches Some(f) && rows.len() == f.2.len()
                && forall|j: int, i: int|
                0 <= j < f.2.len() && 0 <= i < x.len() ==> #[trigger] rows@[j]@[i] == floor_sqrt(
                    sq_dist(f.2[j], mat(x@)[i]),
                ),
    {
        if self.cluster_centers.is_none() || self.labels.is_none() || self.inertia.is_none()
            || self.n_iter.is_none() {
            match self.fit(x, draws) {
                Ok(()) => {},
                Err(e) => {
                    return Err(e);
                },
            }
        }
        let centers = match (&self.cluster_centers, &self.labels, &self.inertia, &self.n_iter) {
            (Some(c), Some(_), Some(_), Some(_)) => c,
            _ => {
                return Err(ClassifyError::EmptyMatrix);
            },
        };
        let ghost f = self.fitted()->0;
        assert(mat(centers@) == f.2);
        let d = match check_matrix(x) {
            Ok(d) => d,
            Err(e) => {
                return Err(e);
            },
        };
        assert(mat(x@)[0] == x@[0]@);
        if d > crate::linalg::MAX_DIM {
            return Err(ClassifyError::RaggedRows);
        }
        for j in 0..centers.len()
            invariant
                mat(centers@) == f.2,
                all_bounded(f.2),
                d <= crate::linalg::MAX_DIM,
                self.k == old(self).k,
                self.init == old(self).init,
                old(self).fitted() is Some ==> self.fitted() == old(self).fitted(),
                f == self.fitted()->0,
                self.fitted() is Some,
                d == x@[0].len(),
                old(self).fitted() is None ==> is_matrix(f.2, d as int),
                forall|t: int| 0 <= t < j ==> (#[trigger] mat(centers@)[t]).len() == d,
        {
            assert(mat(centers@)[j as int] == centers@[j as int]@);
            if centers[j].len() != d {
                assert(f.2[j as int].len() != x@[0].len());
                return Err(ClassifyError::RaggedRows);
            }
        }
        assert(is_matrix(mat(x@), d as int)) by {
            assert forall|i: int| 0 <= i < mat(x@).len() implies (#[trigger] mat(x@)[i]).len() == d
                && row_bounded(mat(x@)[i]) by {
                assert(rectangular(mat(x@)));
            }
        }
        let rows = crate::linalg::euclidean_distances(centers, x, d, false);
        proof {
            assert forall|j: int, i: int|
                0 <= j < f.2.len() && 0 <= i < x.len() implies #[trigger] rows@[j]@[i] == floor_sqrt(
                sq_dist(f.2[j], mat(x@)[i]),
            ) by {
                assert(mat(centers@)[j] == centers@[j]@);
                assert(mat(x@)[i] == x@[i]@);
            }
        }
        Ok(rows)
    }

    /// Distances from each point of `x` to its `k` nearest other points,
    /// ascending and rounded down to whole fixed-point units (the model's `k`
    /// is the number of neighbours).
    pub fn distances(&self, x: &Vec<Vec<i64>>) -> (r: Result<Vec<Vec<i64>>, ClassifyError>)
        requires
            all_bounded(mat(x@)),
        ensures
            r is Ok <==> well_shaped(mat(x@)) && self.k < x.len(),
            r matches Ok(rows) ==> rows.len() == x.len() && forall|i: int|
                0 <= i < x.len() ==> (#[trigger] rows@[i])@ == k_nearest_dist(mat(x@), i, self.k as int),
    {
        k_distances(x, self.k)
    }

    /// How many clusters hold at least one point: fewer than the number of
    /// centers means that some cluster ended empty and kept its center.
    /// `None` when the centers or the labels are unset.
    pub fn n_nonempty_clusters(&self) -> (r: Option<usize>)
        ensures
            self.centers_and_labels() is None ==> r is None,
            self.centers_and_labels() matches Some(f) ==> r matches Some(c) && c == nonempty_upto(
                f.1,
                f.0.len() as int,
            ),
    {
        let (centers, labels) = match (&self.cluster_centers, &self.labels) {
            (Some(c), Some(l)) => (c, l),
            _ => {
                return None;
            },
        };
        let k = centers.len();
        let mut count: usize = 0;
        for j in 0..k
            invariant
                count == nonempty_upto(labels@, j as int),
                count <= j,
        {
            let mut found = false;
            for i in 0..labels.len()
                invariant
                    found <==> exists|t: int| 0 <= t < i && labels@[t] as int == j,
            {
                if labels[i] == j {
                    found = true;
                }
            }
            if found {
                count = count + 1;
            }
        }
        Some(count)
    }

    /// Within-cluster sum of squares: entry `j` is the sum of the squared
    /// distances of the points labelled `j` to center `j`. `None` when the
    /// centers or the labels are unset, when `x` does not have one point per
    /// label, when a label is not below the number of centers, or when a
    /// point's length differs from its center's.
    pub fn wcss(&self, x: &Vec<Vec<i64>>) -> (r: Option<Vec<i128>>)
        requires
            all_bounded(mat(x@)),
            x.len() <= MAX_SAMPLES,
            self.centers_and_labels() matches Some(f) ==> all_bounded(f.0),
        ensures
            self.centers_and_labels() is None ==> r is None,
            self.centers_and_labels() matches Some(f) ==> (r is Some <==> (f.1.len() == x.len()
                && forall|i: int|
                0 <= i < x.len() ==> #[trigger] f.1[i] < f.0.len() && mat(x@)[i].len() == f.0[f.1[i]
                    as int].len())),
            r matches Some(v) ==> self.centers_and_labels() matches Some(f) && v.len() == f.0.len()
                && forall|j: int|
                0 <= j < v.len() ==> #[trigger] v@[j] == wcss_upto(mat(x@), f.0, f.1, j, x.len() as int),
    {
        let (centers, labels) = match (&self.cluster_centers, &self.labels) {
            (Some(c), Some(l)) => (c, l),
            _ => {
                return None;
            },
        };
        if labels.len() != x.len() {
            return None;
        }
        let ghost f = (mat(centers@), labels@);
        assert(self.centers_and_labels() == Some(f));
        let k = centers.len();
        let mut per: Vec<i128> = Vec::new();
        for j in 0..k
            invariant
                per.len() == j,
                forall|t: int| 0 <= t < j ==> #[trigger] per@[t] == 0,
        {
            per.push(0);
        }
        for i in 0..x.len()
            invariant
                labels.len() == x.len(),
                x.len() <= MAX_SAMPLES,
                all_bounded(mat(x@)),
                mat(centers@) == f.0,
                labels@ == f.1,
                self.centers_and_labels() == Some(f),
                k == centers.len(),
                per.len() == k,
                all_bounded(f.0),
                forall|t: int| 0 <= t < i ==> #[trigger] f.1[t] < f.0.len() && mat(x@)[t].len() == f.0[f.1[t] as int].len(),
                forall|j: int|
                    0 <= j < k ==> #[trigger] per@[j] == wcss_upto(mat(x@), f.0, f.1, j, i as int),
                forall|j: int| 0 <= j < k ==> 0 <= #[trigger] per@[j] <= i * MAX_SQ_DIST,
        {
            let l = labels[i];
            if l >= k {
                return None;
            }
            if x[i].len() != centers[l].len() {
                assert(mat(x@)[i as int] == x@[i as int]@);
                assert(mat(centers@)[l as int] == centers@[l as int]@);
                return None;
            }
            assert(mat(x@)[i as int] == x@[i as int]@);
            assert(mat(centers@)[l as int] == centers@[l as int]@);
            let ghost before = per@;
            let s = squared_distance(&x[i], &centers[l]);
            let v = per[l] + s as i128;
            per.set(l, v);
            assert forall|j: int| 0 <= j < k implies #[trigger] per@[j] == wcss_upto(
                mat(x@),
                f.0,
                f.1,
                j,
                (i + 1) as int,
            ) by {
                if j != l {
                    assert(per@[j] == before[j]);
                }
            }
        }
        Some(per)
    }
}

} // verus!
