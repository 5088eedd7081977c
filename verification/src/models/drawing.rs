//! What the models emit when they are sampled.

use crate::covariance::store::CovarStore;
use crate::engine::emission::EmissionModel;
use crate::engine::fitted::{first_above, running_sums};
use crate::engine::sampling::{cumulative_search_falls, falls_on};
use crate::linalg::Dense;
use crate::models::categorical::CategoricalEm;
use crate::models::gaussian::{gaussian_draw, state_covariance, GaussianEm};
use crate::models::gmm::GmmEm;
use crate::models::mixing::mixtures_of;
use crate::models::multinomial::MultinomialEm;
use crate::models::poisson::{poisson_draws, PoissonEm};
use crate::models::variational::categorical::VariationalCategoricalEm;
use crate::models::variational::gaussian::VariationalGaussianEm;
use crate::reading::{real_lanes, real_sigma, real_sums, reads_real};
use crate::reals::{annuls, rsum, rsum_ext, rsum_lone};
use crate::rng::choice::{cumulated, leading_at_most, picked};
use crate::rng::discrete::{
    allotment_adds_up, allotted, binomial_draw, count_total, multinomial_counts, poisson_draw,
};
use crate::rng::gauss::{drawing_factor, normal_draw, normal_draws, transformed_at};
use crate::rng::state::RngView;
use crate::rng::uniform::sample_of;
use crate::scalar::{at_most, num, Scalar};
use vstd::prelude::*;

verus! {

/// `gs` are the random states before the counts of the first features of a state and
/// after the last of them: each count is drawn at the rate of its own feature, from the
/// random state that the counts before it leave.
pub open spec fn counts_drawn<T: Scalar>(
    e: &PoissonEm<T>,
    state: int,
    s: RngView<T>,
    gs: Seq<RngView<T>>,
) -> bool {
    &&& gs.len() >= 1
    &&& gs[0] == s
    &&& forall|f: int|
        0 <= f < gs.len() - 1 ==> {
            let d = poisson_draw(#[trigger] gs[f], e.lambdas->0.at(state, f));
            d.0 == gs[f + 1] && d.1 is Some
        }
}

proof fn poisson_run<T: Scalar>(e: &PoissonEm<T>, state: int, s: RngView<T>, n: int) -> (gs: Seq<
    RngView<T>,
>)
    requires
        n >= 0,
    ensures
        counts_drawn(e, state, s, gs),
        ({
            let d = poisson_draws(s, e.lambdas->0.row_view(state), n);
            match d.1 {
                Some(row) => {
                    &&& row.len() == n
                    &&& gs.len() == n + 1
                    &&& gs[n] == d.0
                    &&& forall|f: int|
                        0 <= f < n ==> #[trigger] row[f] == num::<T>(
                            poisson_draw(gs[f], e.lambdas->0.at(state, f)).1->0 as int,
                        )
                },
                None => {
                    &&& gs.len() <= n
                    &&& poisson_draw(gs.last(), e.lambdas->0.at(state, gs.len() - 1)) == (
                        d.0,
                        None::<i64>,
                    )
                },
            }
        }),
    decreases n,
{
    if n == 0 {
        seq![s]
    } else {
        let gs = poisson_run(e, state, s, n - 1);
        let lams = e.lambdas->0.row_view(state);
        assert(lams[n - 1] == e.lambdas->0.at(state, n - 1));
        match poisson_draws(s, lams, n - 1).1 {
            None => gs,
            Some(_) => {
                let d = poisson_draw(gs[n - 1], e.lambdas->0.at(state, n - 1));
                if d.1 is Some {
                    let more = gs.push(d.0);
                    assert forall|f: int| 0 <= f < more.len() - 1 implies ({
                        let d = poisson_draw(#[trigger] more[f], e.lambdas->0.at(state, f));
                        d.0 == more[f + 1] && d.1 is Some
                    }) by {
                        if f < n - 1 {
                            assert(gs[f] == more[f]);
                        }
                    }
                    more
                } else {
                    gs
                }
            },
        }
    }
}

/// A row of the Poisson model holds, for every feature, a Poisson count at the rate of
/// that feature in the state, drawn from the random state that the counts before it
/// leave; the row fails where one of its counts does.
pub proof fn poisson_row_draws_every_rate<T: Dense>(
    e: &PoissonEm<T>,
    state: int,
    s: RngView<T>,
) -> (gs: Seq<RngView<T>>)
    requires
        e.has_rates(),
        0 <= state < e.n_components,
    ensures
        counts_drawn(e, state, s, gs),
        match e.draw(state, s).1 {
            Some(row) => {
                &&& row.len() == e.lambdas->0.ncols
                &&& gs.len() == row.len() + 1
                &&& gs.last() == e.draw(state, s).0
                &&& forall|f: int|
                    0 <= f < row.len() ==> #[trigger] row[f] == num::<T>(
                        poisson_draw(gs[f], e.lambdas->0.at(state, f)).1->0 as int,
                    )
            },
            None => {
                &&& gs.len() <= e.lambdas->0.ncols
                &&& poisson_draw(gs.last(), e.lambdas->0.at(state, gs.len() - 1)) == (
                    e.draw(state, s).0,
                    None::<i64>,
                )
            },
        },
{
    poisson_run(e, state, s, e.width())
}

/// A row of the categorical model holds the symbol on whose probability in the state
/// the next uniform number falls.
pub proof fn categorical_row_holds_fallen_symbol<T: Dense>(
    rd: spec_fn(T) -> real,
    e: &CategoricalEm<T>,
    state: int,
    s: RngView<T>,
) -> (k: int)
    requires
        reads_real(rd),
        e.emissionprob matches Some(p) && p.has_dims(e.n_components as int, p.ncols as int)
            && p.ncols >= 1,
        0 <= state < e.n_components,
    ensures
        e.draw(state, s) == (s.sampled(), Some(seq![num::<T>(k)])),
        falls_on(
            |j: int| rd(e.emissionprob->0.at(state, j)),
            e.emissionprob->0.ncols as int,
            rd(sample_of::<T>(s.mt)),
            k,
        ),
{
    let p = |j: int| rd(e.emissionprob->0.at(state, j));
    let row = e.emissionprob->0.row_view(state);
    cumulative_search_falls(rd, row, p, sample_of::<T>(s.mt));
    first_above(running_sums(row), sample_of::<T>(s.mt), 0)
}

/// A row of the variational categorical model holds the symbol on whose probability in
/// the state the next uniform number falls.
pub proof fn variational_row_holds_fallen_symbol<T: Dense>(
    rd: spec_fn(T) -> real,
    e: &VariationalCategoricalEm<T>,
    state: int,
    s: RngView<T>,
) -> (k: int)
    requires
        reads_real(rd),
        e.emissionprob matches Some(p) && p.has_dims(e.n_components as int, p.ncols as int)
            && p.ncols >= 1,
        0 <= state < e.n_components,
    ensures
        e.draw(state, s) == (s.sampled(), Some(seq![num::<T>(k)])),
        falls_on(
            |j: int| rd(e.emissionprob->0.at(state, j)),
            e.emissionprob->0.ncols as int,
            rd(sample_of::<T>(s.mt)),
            k,
        ),
{
    let p = |j: int| rd(e.emissionprob->0.at(state, j));
    let row = e.emissionprob->0.row_view(state);
    cumulative_search_falls(rd, row, p, sample_of::<T>(s.mt));
    first_above(running_sums(row), sample_of::<T>(s.mt), 0)
}

/// The covariance of features `k` and `l` that a store keeps for state `c`.
pub open spec fn kept_covariance<T: Scalar>(store: &CovarStore<T>, c: int, k: int, l: int) -> T {
    match store {
        CovarStore::Full(m) => m.at(c, k, l),
        CovarStore::Tied(m) => m.at(k, l),
        CovarStore::Diag(m) => if k == l {
            m.at(c, k)
        } else {
            num(0)
        },
        CovarStore::Spherical(v) => if k == l {
            v@[c]
        } else {
            num(0)
        },
    }
}

/// The covariance matrix that a store keeps for state `c`.
pub open spec fn kept_matrix<T: Scalar>(store: &CovarStore<T>, c: int, nf: int) -> Seq<Seq<T>> {
    Seq::new(nf as nat, |k: int| Seq::new(nf as nat, |l: int| kept_covariance(store, c, k, l)))
}

/// `z` are standard normals drawn one after the other, `gs` the random states before
/// the first and after each.
pub open spec fn normals_drawn<T: Scalar>(s: RngView<T>, gs: Seq<RngView<T>>, z: Seq<T>) -> bool {
    &&& gs.len() == z.len() + 1
    &&& gs[0] == s
    &&& forall|j: int|
        0 <= j < z.len() ==> #[trigger] normal_draw(gs[j]) == (gs[j + 1], Some(z[j]))
}

/// `drawn` is a draw about `mean`: every entry is its mean plus the standard normals
/// `z`, weighed by its row of the Cholesky factor of `cov`, or its own standard normal
/// where there is no factor; it fails where a standard normal does.
pub open spec fn drawn_about<T: Dense>(
    rd: spec_fn(T) -> real,
    mean: Seq<T>,
    cov: Seq<Seq<T>>,
    drawn: (RngView<T>, Option<Seq<T>>),
    gs: Seq<RngView<T>>,
    z: Seq<T>,
) -> bool {
    match drawn.1 {
        Some(row) => {
            &&& row.len() == mean.len()
            &&& z.len() == mean.len()
            &&& gs.last() == drawn.0
            &&& forall|i: int|
                0 <= i < row.len() ==> rd(#[trigger] row[i]) == rd(mean[i]) + match T::s_cholesky(
                    cov,
                ) {
                    Some(l) => rsum(mean.len() as int, |j: int| rd(l[i][j]) * rd(z[j])),
                    None => rd(z[i]),
                }
        },
        None => {
            &&& z.len() < mean.len()
            &&& normal_draw(gs.last()) == (drawn.0, None::<T>)
        },
    }
}

proof fn normal_run<T: Scalar>(s: RngView<T>, n: int) -> (r: (Seq<RngView<T>>, Seq<T>))
    requires
        n >= 0,
    ensures
        normals_drawn(s, r.0, r.1),
        ({
            let d = normal_draws(s, n);
            match d.1 {
                Some(z) => z == r.1 && r.1.len() == n && r.0.last() == d.0,
                None => r.1.len() < n && normal_draw(r.0.last()) == (d.0, None::<T>),
            }
        }),
    decreases n,
{
    if n == 0 {
        (seq![s], Seq::empty())
    } else {
        let (gs, z) = normal_run(s, n - 1);
        match normal_draws(s, n - 1).1 {
            None => (gs, z),
            Some(_) => {
                let d = normal_draw(gs.last());
                if d.1 is Some {
                    let (g, y) = (gs.push(d.0), z.push(d.1->0));
                    assert forall|j: int| 0 <= j < y.len() implies #[trigger] normal_draw(g[j]) == (
                        g[j + 1],
                        Some(y[j]),
                    ) by {
                        if j < n - 1 {
                            assert(normal_draw(gs[j]) == (gs[j + 1], Some(z[j])));
                        } else {
                            assert(gs.last() == g[j]);
                        }
                    }
                    (g, y)
                } else {
                    (gs, z)
                }
            },
        }
    }
}

proof fn gaussian_run<T: Dense>(
    rd: spec_fn(T) -> real,
    mean: Seq<T>,
    cov: Seq<Seq<T>>,
    s: RngView<T>,
) -> (r: (Seq<RngView<T>>, Seq<T>))
    requires
        reads_real(rd),
    ensures
        normals_drawn(s, r.0, r.1),
        drawn_about(rd, mean, cov, gaussian_draw(mean, cov, s), r.0, r.1),
{
    let n = mean.len() as int;
    let (gs, z) = normal_run(s, n);
    let drawn = gaussian_draw(mean, cov, s);
    if drawn.1 is Some {
        let row = drawn.1->0;
        real_sums(rd);
        assert forall|i: int| 0 <= i < row.len() implies rd(#[trigger] row[i]) == rd(mean[i])
            + match T::s_cholesky(cov) {
            Some(l) => rsum(n, |j: int| rd(l[i][j]) * rd(z[j])),
            None => rd(z[i]),
        } by {
            let l = drawing_factor(cov, mean.len());
            let f = |j: int| l[i][j].s_times(z[j]);
            real_lanes(rd, n, f);
            reveal(reads_real);
            assert(row[i] == transformed_at(mean, l, z, i));
            rsum_ext(n, |j: int| rd(f(j)), |j: int| rd(l[i][j]) * rd(z[j]));
            if T::s_cholesky(cov) is None {
                let g = |j: int| rd(f(j));
                assert forall|j: int| 0 <= j < n && j != i implies #[trigger] g(j) == 0real by {
                    assert(l[i][j] == num::<T>(0));
                    annuls(rd(z[j]));
                }
                rsum_lone(n, g, i);
                assert(l[i][i] == num::<T>(1));
                assert(1real * rd(z[i]) == rd(z[i]));
            }
        }
    }
    (gs, z)
}

/// A row of the Gaussian model is drawn about the mean of its state with the covariance
/// of its state.
pub proof fn gaussian_row_is_drawn_about_its_mean<T: Dense>(
    rd: spec_fn(T) -> real,
    e: &GaussianEm<T>,
    state: int,
    s: RngView<T>,
) -> (r: (Seq<RngView<T>>, Seq<T>))
    requires
        reads_real(rd),
    ensures
        normals_drawn(s, r.0, r.1),
        drawn_about(
            rd,
            e.means->0.row_view(state),
            kept_matrix(&e.covars->0, state, e.width()),
            e.draw(state, s),
            r.0,
            r.1,
        ),
{
    let cov = kept_matrix(&e.covars->0, state, e.width());
    matrix_kept(&e.covars->0, state, e.width());
    gaussian_run(rd, e.means->0.row_view(state), cov, s)
}

/// The covariance matrix of a state is the one that the store keeps for it.
pub proof fn matrix_kept<T: Scalar>(store: &CovarStore<T>, c: int, nf: int)
    ensures
        state_covariance(store, c, nf) == kept_matrix(store, c, nf),
{
    let (a, b) = (state_covariance(store, c, nf), kept_matrix(store, c, nf));
    assert forall|k: int| 0 <= k < a.len() implies a[k] == b[k] by {
        assert(a[k] =~= b[k]);
    }
    assert(a =~= b);
}

/// A row of the variational Gaussian model is drawn about the posterior mean of its
/// state with the covariance of its state.
pub proof fn variational_row_is_drawn_about_its_mean<T: Dense>(
    rd: spec_fn(T) -> real,
    e: &VariationalGaussianEm<T>,
    state: int,
    s: RngView<T>,
) -> (r: (Seq<RngView<T>>, Seq<T>))
    requires
        reads_real(rd),
    ensures
        normals_drawn(s, r.0, r.1),
        drawn_about(
            rd,
            e.means_posterior->0.row_view(state),
            kept_matrix(&e.covars->0, state, e.width()),
            e.draw(state, s),
            r.0,
            r.1,
        ),
{
    matrix_kept(&e.covars->0, state, e.width());
    gaussian_run(
        rd,
        e.means_posterior->0.row_view(state),
        kept_matrix(&e.covars->0, state, e.width()),
        s,
    )
}

proof fn leading_falls<T: Scalar>(
    rd: spec_fn(T) -> real,
    a: Seq<T>,
    p: spec_fn(int) -> real,
    u: T,
    k: int,
)
    requires
        reads_real(rd),
        0 <= k <= a.len(),
        a.len() >= 1,
        p == (|j: int| rd(a[j])),
        rsum(a.len() as int, p) > 0real,
        forall|j: int| 1 <= j <= k ==> #[trigger] rsum(j, p) <= rd(u) * rsum(a.len() as int, p),
    ensures
        ({
            let m = leading_at_most(a, u, k);
            let at = rd(u) * rsum(a.len() as int, p);
            &&& k <= m <= a.len()
            &&& forall|j: int| 1 <= j <= m ==> #[trigger] rsum(j, p) <= at
            &&& m < a.len() ==> at < rsum(m + 1, p)
        }),
    decreases a.len() - k,
{
    let n = a.len() as int;
    if k < n {
        let f = |i: int| a[i];
        real_sums(rd);
        real_sigma(rd, k + 1, f);
        real_sigma(rd, n, f);
        rsum_ext(k + 1, |i: int| rd(f(i)), p);
        rsum_ext(n, |i: int| rd(f(i)), p);
        let q = cumulated(a, k).s_over(cumulated(a, n - 1));
        let total = rsum(n, p);
        let cum = rsum(k + 1, p);
        let (x, v) = (rd(q), rd(u));
        reveal(reads_real);
        assert(rd(cumulated(a, n - 1)) == total);
        assert(x * total == cum);
        assert(at_most(q, u) <==> x <= v);
        if x <= v {
            assert(x * total <= v * total) by (nonlinear_arith)
                requires
                    x <= v,
                    total > 0real,
            ;
            leading_falls(rd, a, p, u, k + 1);
        } else {
            assert(v * total < x * total) by (nonlinear_arith)
                requires
                    v < x,
                    total > 0real,
            ;
        }
    }
}

/// A row of the mixture model is drawn from the mixture on whose weight in the state
/// the next uniform number falls, scaled to the sum of the weights: about the mean of
/// that mixture with the covariance of that mixture.
pub proof fn mixture_row_is_drawn_from_fallen_mixture<T: Dense>(
    rd: spec_fn(T) -> real,
    e: &GmmEm<T>,
    state: int,
    s: RngView<T>,
) -> (r: (int, Seq<RngView<T>>, Seq<T>))
    requires
        reads_real(rd),
        e.shaped(),
        0 <= state < e.n_components,
        rsum(e.n_mix as int, |j: int| rd(e.weights->0.at(state, j))) > 0real,
    ensures
        falls_on(
            |j: int| rd(e.weights->0.at(state, j)),
            e.n_mix as int,
            rd(sample_of::<T>(s.mt)) * rsum(
                e.n_mix as int,
                |j: int| rd(e.weights->0.at(state, j)),
            ),
            r.0,
        ),
        normals_drawn(s.sampled(), r.1, r.2),
        drawn_about(
            rd,
            e.means->0.items@[state].row_view(r.0),
            kept_matrix(&mixtures_of(&e.covars->0, state), r.0, e.width()),
            e.draw(state, s),
            r.1,
            r.2,
        ),
{
    let row = e.weights->0.row_view(state);
    let u = sample_of::<T>(s.mt);
    let p = |j: int| rd(row[j]);
    let w = |j: int| rd(e.weights->0.at(state, j));
    assert(p =~= w);
    leading_falls(rd, row, p, u, 0);
    let g = picked(row, u);
    let store = mixtures_of(&e.covars->0, state);
    let cov = kept_matrix(&store, g, e.width());
    assert(e.covars->0.mix_covariance(state, g, e.width()) == cov) by {
        let a = e.covars->0.mix_covariance(state, g, e.width());
        assert forall|k: int| 0 <= k < a.len() implies a[k] == cov[k] by {
            assert(a[k] =~= cov[k]);
        }
        assert(a =~= cov);
    }
    let (gs, z) = gaussian_run(rd, e.means->0.items@[state].row_view(g), cov, s.sampled());
    (g, gs, z)
}

/// The share of category `k`: nothing where no trial is left, else a binomial share of
/// the trials that are left, at its probability `qs[k]` among the categories that are
/// left.
pub open spec fn share_at<T: Scalar>(
    rd: spec_fn(T) -> real,
    p: spec_fn(int) -> real,
    trials: int,
    gs: Seq<RngView<T>>,
    qs: Seq<T>,
    counts: Seq<i64>,
    k: int,
) -> bool {
    let left = trials - count_total(counts, k);
    if k > 0 && left <= 0 {
        counts[k] == 0 && gs[k + 1] == gs[k]
    } else {
        &&& binomial_draw(gs[k], left as i64, qs[k]) == (gs[k + 1], Some(counts[k]))
        &&& 1real - rsum(k, p) != 0real ==> rd(qs[k]) * (1real - rsum(k, p)) == p(k)
    }
}

/// `counts` are shared out among the categories of a state one after the other, `gs`
/// the random states before the first and after each.
pub open spec fn shared_out<T: Scalar>(
    rd: spec_fn(T) -> real,
    p: spec_fn(int) -> real,
    trials: int,
    s: RngView<T>,
    gs: Seq<RngView<T>>,
    qs: Seq<T>,
    counts: Seq<i64>,
) -> bool {
    &&& gs.len() == counts.len() + 1
    &&& qs.len() == counts.len()
    &&& gs[0] == s
    &&& forall|k: int|
        0 <= k < counts.len() ==> #[trigger] share_at(rd, p, trials, gs, qs, counts, k)
}

proof fn allotment_run<T: Scalar>(
    rd: spec_fn(T) -> real,
    pix: Seq<T>,
    p: spec_fn(int) -> real,
    n: i64,
    s: RngView<T>,
    k: int,
) -> (r: (Seq<RngView<T>>, Seq<T>))
    requires
        reads_real(rd),
        0 <= k <= pix.len(),
        p == (|j: int| rd(pix[j])),
        !allotted(s, n, pix, k).failed,
    ensures
        ({
            let a = allotted(s, n, pix, k);
            &&& a.counts.len() == k
            &&& a.left == n - count_total(a.counts, k)
            &&& shared_out(rd, p, n as int, s, r.0, r.1, a.counts)
            &&& r.0.last() == a.state
            &&& (k == 0 || a.left > 0) ==> rd(a.mass) == 1real - rsum(k, p)
        }),
    decreases k,
{
    reveal(reads_real);
    let a = allotted(s, n, pix, k);
    if k == 0 {
        assert(rd(num::<T>(1)) == 1real);
        (seq![s], Seq::empty())
    } else {
        let b = allotted(s, n, pix, k - 1);
        let (gs, qs) = allotment_run(rd, pix, p, n, s, k - 1);
        let q = pix[k - 1].s_over(b.mass);
        let (g, r) = (gs.push(a.state), qs.push(q));
        allotment_adds_up(s, n, pix, k);
        assert forall|i: int| 0 <= i < k implies #[trigger] share_at(
            rd,
            p,
            n as int,
            g,
            r,
            a.counts,
            i,
        ) by {
            assert(a.counts == b.counts.push(a.counts[k - 1]));
            counts_before(b.counts, a.counts[k - 1], i);
            if i < k - 1 {
                assert(share_at(rd, p, n as int, gs, qs, b.counts, i));
            } else {
                assert(gs.last() == g[i]);
            }
        }
        counts_before(b.counts, a.counts[k - 1], k - 1);
        (g, r)
    }
}

proof fn counts_before(c: Seq<i64>, x: i64, k: int)
    requires
        0 <= k <= c.len(),
    ensures
        count_total(c.push(x), k) == count_total(c, k),
    decreases k,
{
    if k > 0 {
        counts_before(c, x, k - 1);
    }
}

/// A row of the multinomial model shares the trials out among the categories: every
/// category but the last gets a binomial share of the trials that are left, at its
/// probability among the categories that are left, and the last gets the rest.
pub proof fn multinomial_row_shares_the_trials<T: Dense>(
    rd: spec_fn(T) -> real,
    e: &MultinomialEm<T>,
    state: int,
    s: RngView<T>,
) -> (r: (Seq<RngView<T>>, Seq<T>, Seq<i64>))
    requires
        reads_real(rd),
        e.samplable(),
        e.emissionprob matches Some(p) && p.has_dims(e.n_components as int, p.ncols as int)
            && p.ncols >= 1,
        0 <= state < e.n_components,
        e.draw(state, s).1 is Some,
    ensures
        ({
            let row = e.draw(state, s).1->0;
            let last = e.emissionprob->0.ncols - 1;
            let left = e.n_trials->0 - count_total(r.2, last);
            &&& row.len() == last + 1
            &&& r.2.len() == last
            &&& r.0.last() == e.draw(state, s).0
            &&& shared_out(
                rd,
                |j: int| rd(e.emissionprob->0.at(state, j)),
                e.n_trials->0 as int,
                s,
                r.0,
                r.1,
                r.2,
            )
            &&& forall|k: int| 0 <= k < last ==> #[trigger] row[k] == num::<T>(r.2[k] as int)
            &&& row[last] == num::<T>(
                if left > 0 {
                    (left as i64) as int
                } else {
                    0
                },
            )
        }),
{
    let pix = e.emissionprob->0.row_view(state);
    let n = e.n_trials->0;
    let p = |j: int| rd(pix[j]);
    let w = |j: int| rd(e.emissionprob->0.at(state, j));
    assert(p =~= w);
    let (gs, qs) = allotment_run(rd, pix, p, n, s, pix.len() - 1);
    let a = allotted(s, n, pix, pix.len() - 1);
    allotment_adds_up(s, n, pix, pix.len() - 1);
    let counts = multinomial_counts(s, n, pix);
    assert(counts.len() == pix.len());
    (gs, qs, a.counts)
}

} // verus!
