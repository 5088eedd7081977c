//! What a state of the mixture model emits, and how its M-step weighs the rows, where
//! arithmetic is exact.

use crate::covariance::store::CovarStore;
use crate::engine::agreement::{
    exact_logs, log_added, log_constants, log_of, log_subtracted, log_sum_is_log_of_sum,
};
use crate::engine::emission::EmissionModel;
use crate::engine::params::{Param, ParamSet};
use crate::exact::{exact_numbers, multiplied};
use crate::linalg::Dense;
use crate::matrix::Matrix;
use crate::models::gmm::{GmmCovars, GmmEm, GmmStats};
use crate::models::moments::{
    deviation_by_moments, entry_at, gathered, off_centre, over_rows, product_of,
};
use crate::reading::{power_of_ten, real_grown, real_sigma, real_sums, reads_real, reads_sums};
use crate::reals::{annuls, associates, commutes, distributes, rsum, rsum_ext};
use crate::scalar::{dec, grown, grown_ext, num, sigma, sigma_ext, Scalar};
use crate::stats::mvn::log_density_at;
use vstd::prelude::*;

verus! {

/// The covariances of the mixtures of state `i`, as those of the states of a Gaussian
/// model.
pub open spec fn mixtures_of<T>(covars: &GmmCovars<T>, i: int) -> CovarStore<T> {
    match covars {
        GmmCovars::Spherical(c) => CovarStore::Spherical(c.rows@[i]),
        GmmCovars::Diag(c) => CovarStore::Diag(c.items@[i]),
        GmmCovars::Full(c) => CovarStore::Full(c@[i]),
        GmmCovars::Tied(c) => CovarStore::Tied(c.items@[i]),
    }
}

/// The log-density of row `t` in mixture `m` of state `i`: that of a Gaussian state
/// with the mixture's mean and covariance.
pub open spec fn component<T: Dense>(e: &GmmEm<T>, x: &Matrix<T>, i: int, t: int, m: int) -> T {
    log_density_at(x, &e.means->0.items@[i], &mixtures_of(&e.covars->0, i), t, m)
}

proof fn density_is_component<T: Dense>(e: &GmmEm<T>, x: &Matrix<T>, i: int, t: int, m: int)
    ensures
        e.density_at(x, i, t, m) == component(e, x, i, t, m),
{
    let means = e.means->0.items@[i];
    match e.covars->0 {
        GmmCovars::Spherical(c) => {
            let v = c.rows@[i];
            let (a, b) = (|f: int| c.at(i, m), |f: int| v@[m]);
            assert(a =~= b);
        },
        GmmCovars::Diag(c) => {
            let v = c.items@[i];
            let (a, b) = (|f: int| c.at(i, m, f), |f: int| v.at(m, f));
            assert(a =~= b);
        },
        _ => {},
    }
}

/// The densities of all mixtures of state `i` and their weights are numbers.
pub open spec fn mixture_in<T: Dense>(
    p: Set<T>,
    l: Set<T>,
    e: &GmmEm<T>,
    x: &Matrix<T>,
    i: int,
    t: int,
) -> bool {
    forall|m: int|
        0 <= m < e.n_mix ==> l.contains(#[trigger] component(e, x, i, t, m)) && p.contains(
            e.weights->0.at(i, m),
        )
}

proof fn weighted_reads<T: Dense>(
    p: Set<T>,
    l: Set<T>,
    e: &GmmEm<T>,
    x: &Matrix<T>,
    i: int,
    t: int,
    m: int,
)
    requires
        exact_numbers(p),
        exact_logs(p, l),
        mixture_in(p, l, e, x, i, t),
        0 <= m < e.n_mix,
    ensures
        l.contains(e.weighted_at(x, i, t, m)),
        e.weighted_at(x, i, t, m).s_exp() == e.weights->0.at(i, m).s_times(
            component(e, x, i, t, m).s_exp(),
        ),
        p.contains(e.weighted_at(x, i, t, m).s_exp()),
{
    density_is_component(e, x, i, t, m);
    let d = component(e, x, i, t, m);
    let w = e.weights->0.at(i, m);
    assert(l.contains(d));
    log_of(p, l, w);
    log_added(p, l, d, w.s_ln());
    multiplied(p, d.s_exp(), w);
}

/// The likelihood of a row in a state is the sum over its mixtures of the weight of the
/// mixture times its density; scoring and fitting work with the same likelihood.
pub proof fn state_emits_from_its_mixtures<T: Dense>(
    p: Set<T>,
    l: Set<T>,
    e: &GmmEm<T>,
    x: &Matrix<T>,
    i: int,
    t: int,
)
    requires
        exact_numbers(p),
        exact_logs(p, l),
        mixture_in(p, l, e, x, i, t),
    ensures
        l.contains(e.log_like(x, t, i)),
        e.log_like(x, t, i).s_exp() == sigma(
            e.n_mix as int,
            |m: int| e.weights->0.at(i, m).s_times(component(e, x, i, t, m).s_exp()),
        ),
        e.like(x, t, i) == e.log_like(x, t, i).s_exp(),
        e.fit_log_like(x, t, i) == e.log_like(x, t, i),
        e.fit_like(x, t, i) == e.like(x, t, i),
{
    let row = e.weighted_row(x, i, t);
    let nm = e.n_mix as int;
    assert forall|m: int| 0 <= m < row.len() implies l.contains(#[trigger] row[m]) by {
        weighted_reads(p, l, e, x, i, t, m);
    }
    log_sum_is_log_of_sum(p, l, row);
    let f = |m: int| row[m].s_exp();
    let g = |m: int| e.weights->0.at(i, m).s_times(component(e, x, i, t, m).s_exp());
    assert forall|m: int| 0 <= m < nm implies #[trigger] f(m) == g(m) by {
        weighted_reads(p, l, e, x, i, t, m);
    }
    sigma_ext(nm, f, g);
}

/// The responsibility of a mixture times the likelihood of the row in its state is the
/// weight of the mixture times its density; a single mixture is wholly responsible.
pub proof fn responsibility_is_share<T: Dense>(
    p: Set<T>,
    l: Set<T>,
    e: &GmmEm<T>,
    x: &Matrix<T>,
    i: int,
    t: int,
    m: int,
)
    requires
        exact_numbers(p),
        exact_logs(p, l),
        mixture_in(p, l, e, x, i, t),
        0 <= m < e.n_mix,
        e.log_like(x, t, i).s_exp() != num::<T>(0),
    ensures
        e.n_mix == 1 ==> e.responsibility(x, i, t, m) == num::<T>(1),
        e.n_mix > 1 ==> e.responsibility(x, i, t, m).s_times(e.log_like(x, t, i).s_exp())
            == e.weights->0.at(i, m).s_times(component(e, x, i, t, m).s_exp()),
{
    log_constants(p, l);
    weighted_reads(p, l, e, x, i, t, m);
    state_emits_from_its_mixtures(p, l, e, x, i, t);
    let whole = e.log_like(x, t, i);
    log_subtracted(p, l, e.weighted_at(x, i, t, m), whole);
}

/// What mixture `m` of state `i` has of each row: the state's posterior times the
/// mixture's responsibility.
pub open spec fn share_of<T: Dense>(
    rd: spec_fn(T) -> real,
    e: &GmmEm<T>,
    subs: Seq<Matrix<T>>,
    posts: Seq<Matrix<T>>,
    i: int,
    m: int,
) -> spec_fn(int, int) -> real {
    |s: int, t: int| rd(posts[s].at(t, i)) * rd(e.responsibility(&subs[s], i, t, m))
}

/// The posterior of state `i` in each row.
pub open spec fn state_share<T>(
    rd: spec_fn(T) -> real,
    posts: Seq<Matrix<T>>,
    i: int,
) -> spec_fn(int, int) -> real {
    |s: int, t: int| rd(posts[s].at(t, i))
}

/// The products of the deviations of features `k` and `l` from the means that the
/// E-step worked with, weighed by the share of mixture `m` of state `i`.
pub open spec fn mixture_scatter<T: Dense>(
    rd: spec_fn(T) -> real,
    e: &GmmEm<T>,
    subs: Seq<Matrix<T>>,
    posts: Seq<Matrix<T>>,
    i: int,
    m: int,
    k: int,
    l: int,
) -> spec_fn(int, int) -> real {
    |s: int, t: int|
        share_of(rd, e, subs, posts, i, m)(s, t) * ((rd(subs[s].at(t, k)) - rd(
            e.means->0.at(i, m, k),
        )) * (rd(subs[s].at(t, l)) - rd(e.means->0.at(i, m, l))))
}

/// What grows row by row over all sequences, read.
proof fn grows_over_rows<T: Scalar>(
    rd: spec_fn(T) -> real,
    subs: Seq<Matrix<T>>,
    n: int,
    val: spec_fn(int) -> T,
    step: spec_fn(int, int) -> T,
    g: spec_fn(int, int) -> real,
)
    requires
        reads_sums(rd),
        0 <= n,
        forall|s: int|
            0 <= s < n ==> val(s + 1) == grown(
                #[trigger] val(s),
                subs[s].rows.len() as int,
                |t: int| step(s, t),
            ),
        forall|s: int, t: int| rd(#[trigger] step(s, t)) == g(s, t),
    ensures
        rd(val(n)) == rd(val(0)) + rsum(
            n,
            |s: int| rsum(subs[s].rows.len() as int, |t: int| g(s, t)),
        ),
    decreases n,
{
    let sums = |s: int| rsum(subs[s].rows.len() as int, |t: int| g(s, t));
    if n > 0 {
        grows_over_rows(rd, subs, n - 1, val, step, g);
        let s = n - 1;
        let f = |t: int| step(s, t);
        let len = subs[s].rows.len() as int;
        real_grown(rd, val(s), len, f);
        rsum_ext(len, |t: int| rd(f(t)), |t: int| g(s, t));
        assert(val(s + 1) == grown(val(s), len, f));
        assert(rsum(n, sums) == rsum(n - 1, sums) + sums(s));
    }
}

/// Masses, read: those of a mixture are its shares, those of a state its posteriors.
proof fn masses_read<T: Dense>(
    rd: spec_fn(T) -> real,
    e: &GmmEm<T>,
    params: ParamSet,
    subs: Seq<Matrix<T>>,
    posts: Seq<Matrix<T>>,
    stats: Seq<GmmStats<T>>,
    i: int,
    m: int,
)
    requires
        reads_real(rd),
        gathered(e, params, subs, posts, stats),
        0 <= i < e.n_components,
        0 <= m < e.n_mix,
    ensures
        rd(stats.last().post_mix_sum.at(i, m)) == over_rows(
            subs,
            share_of(rd, e, subs, posts, i, m),
        ),
        rd(stats.last().post_sum@[i]) == over_rows(subs, state_share(rd, posts, i)),
{
    let n = subs.len() as int;
    real_sums(rd);
    reveal(reads_real);
    assert(rd(num::<T>(0)) == 0real);
    let val = |s: int| stats[s].post_mix_sum.at(i, m);
    let step = |s: int, t: int| e.mix_mass(&subs[s], &posts[s], i, t, m);
    assert forall|s: int| 0 <= s < n implies val(s + 1) == grown(
        #[trigger] val(s),
        subs[s].rows.len() as int,
        |t: int| step(s, t),
    ) by {
        assert(e.accumulate_rel(&stats[s], &subs[s], &posts[s], params, &stats[s + 1]));
        let len = subs[s].rows.len() as int;
        let own = |t: int| e.mix_mass(&subs[s], &posts[s], i, t, m);
        assert(stats[s + 1].post_mix_sum.at(i, m) == grown(val(s), len, own));
        grown_ext(val(s), len, own, |t: int| step(s, t));
    }
    grows_over_rows(rd, subs, n, val, step, share_of(rd, e, subs, posts, i, m));
    let val2 = |s: int| stats[s].post_sum@[i];
    let step2 = |s: int, t: int| posts[s].at(t, i);
    assert forall|s: int| 0 <= s < n implies val2(s + 1) == grown(
        #[trigger] val2(s),
        subs[s].rows.len() as int,
        |t: int| step2(s, t),
    ) by {
        assert(e.accumulate_rel(&stats[s], &subs[s], &posts[s], params, &stats[s + 1]));
        let len = subs[s].rows.len() as int;
        let own = |t: int| posts[s].at(t, i);
        assert(stats[s + 1].post_sum@[i] == grown(val2(s), len, own));
        grown_ext(val2(s), len, own, |t: int| step2(s, t));
    }
    grows_over_rows(rd, subs, n, val2, step2, state_share(rd, posts, i));
    assert(stats[0].post_mix_sum.at(i, m) == num::<T>(0));
    assert(stats[0].post_sum@[i] == num::<T>(0));
}

/// The new weight of a mixture is its share of the mass of its state, the prior
/// counting as `weights_prior - 1` rows in every mixture.
pub proof fn new_weight_is_share_of_mass<T: Dense>(
    rd: spec_fn(T) -> real,
    e: &GmmEm<T>,
    params: ParamSet,
    subs: Seq<Matrix<T>>,
    posts: Seq<Matrix<T>>,
    stats: Seq<GmmStats<T>>,
    after: &GmmEm<T>,
    i: int,
    m: int,
)
    requires
        reads_real(rd),
        gathered(e, params, subs, posts, stats),
        e.mstep_rel(&stats.last(), params, after),
        params.members().contains(Param::Weights),
        0 <= i < e.n_components,
        0 <= m < e.n_mix,
        over_rows(subs, state_share(rd, posts, i)) + (rd(e.weights_prior) - 1real)
            * e.n_mix as real != 0real,
    ensures
        rd(after.weights->0.at(i, m)) * (over_rows(subs, state_share(rd, posts, i)) + (rd(
            e.weights_prior,
        ) - 1real) * e.n_mix as real) == over_rows(subs, share_of(rd, e, subs, posts, i, m)) + (rd(
            e.weights_prior,
        ) - 1real),
{
    masses_read(rd, e, params, subs, posts, stats, i, m);
    reveal(reads_real);
    assert(rd(num::<T>(1)) == 1real);
    assert(rd(num::<T>(e.n_mix as int)) == e.n_mix as real);
    let st = stats.last();
    let a = e.weights_prior.s_minus(num(1));
    let divisor = st.post_sum@[i].s_plus(a.s_times(num(e.n_mix as int)));
    assert(after.weights->0.at(i, m) == st.post_mix_sum.at(i, m).s_plus(a).s_over(divisor));
}

/// The new mean of a mixture balances: the deviations of the rows from it, weighed by
/// the mixture's shares, and that of the prior mean with its weight, add up to nothing.
pub proof fn new_mixture_means_balance<T: Dense>(
    rd: spec_fn(T) -> real,
    e: &GmmEm<T>,
    params: ParamSet,
    subs: Seq<Matrix<T>>,
    posts: Seq<Matrix<T>>,
    stats: Seq<GmmStats<T>>,
    after: &GmmEm<T>,
    i: int,
    m: int,
    f: int,
)
    requires
        reads_real(rd),
        gathered(e, params, subs, posts, stats),
        e.mstep_rel(&stats.last(), params, after),
        params.members().contains(Param::Means),
        0 <= i < e.n_components,
        0 <= m < e.n_mix,
        0 <= f < e.width(),
        over_rows(subs, share_of(rd, e, subs, posts, i, m)) + rd(e.means_weight) != 0real,
    ensures
        ({
            let mean = rd(after.means->0.at(i, m, f));
            rd(e.means_weight) * (rd(e.means_prior) - mean) + over_rows(
                subs,
                off_centre(share_of(rd, e, subs, posts, i, m), entry_at(rd, subs, f), mean),
            ) == 0real
        }),
{
    let n = subs.len() as int;
    let w = share_of(rd, e, subs, posts, i, m);
    let x = entry_at(rd, subs, f);
    let st = stats.last();
    masses_read(rd, e, params, subs, posts, stats, i, m);
    real_sums(rd);
    let val = |s: int| stats[s].m_n.at(i, m, f);
    let step = |s: int, t: int|
        e.mix_mass(&subs[s], &posts[s], i, t, m).s_times(subs[s].at(t, f));
    assert forall|s: int| 0 <= s < n implies val(s + 1) == grown(
        #[trigger] val(s),
        subs[s].rows.len() as int,
        |t: int| step(s, t),
    ) by {
        assert(e.accumulate_rel(&stats[s], &subs[s], &posts[s], params, &stats[s + 1]));
        let len = subs[s].rows.len() as int;
        let own = |t: int| e.mix_mass(&subs[s], &posts[s], i, t, m).s_times(subs[s].at(t, f));
        assert(stats[s + 1].m_n.at(i, m, f) == grown(val(s), len, own));
        grown_ext(val(s), len, own, |t: int| step(s, t));
    }
    reveal(reads_real);
    grows_over_rows(rd, subs, n, val, step, product_of(w, x));
    let mean = rd(after.means->0.at(i, m, f));
    deviation_by_moments(subs, w, x, mean);
    let (mw, p) = (rd(e.means_weight), rd(e.means_prior));
    assert(stats[0].m_n.at(i, m, f) == e.means_weight.s_times(e.means_prior));
    let sums = st.m_n.at(i, m, f);
    assert(rd(sums) == mw * p + over_rows(subs, product_of(w, x)));
    let mass = over_rows(subs, w);
    let divisor = st.post_mix_sum.at(i, m).s_plus(e.means_weight);
    assert(rd(divisor) == mass + mw);
    assert(rd(num::<T>(0)) == 0real);
    assert(rd(num::<T>(1)) == 1real);
    assert(mean * (mass + mw) == rd(sums)) by {
        if after.weights->0.at(i, m).s_same(num(0)) && e.no_sums(&st, i, m) {
            assert(sums.s_same(num(0)));
            assert(after.means->0.at(i, m, f) == sums.s_over(num(1)));
            assert(mean * 1real == 0real);
            annuls(mass + mw);
        } else {
            assert(after.means->0.at(i, m, f) == sums.s_over(divisor));
        }
    }
    distributes(mean, mass, mw);
    distributes(mw, p, mean);
    commutes(mean, mw);
}

/// The scatter statistics keep the type of the model.
proof fn scatter_type_kept<T: Dense>(
    e: &GmmEm<T>,
    params: ParamSet,
    subs: Seq<Matrix<T>>,
    posts: Seq<Matrix<T>>,
    stats: Seq<GmmStats<T>>,
    n: int,
)
    requires
        gathered(e, params, subs, posts, stats),
        params.members().contains(Param::Covars),
        0 <= n <= subs.len(),
    ensures
        stats[n].c_n.tag() == e.covariance_type,
    decreases n,
{
    if n > 0 {
        scatter_type_kept(e, params, subs, posts, stats, n - 1);
        let s = n - 1;
        assert(e.accumulate_rel(&stats[s], &subs[s], &posts[s], params, &stats[s + 1]));
    }
}

proof fn term_reads<T: Dense>(
    rd: spec_fn(T) -> real,
    e: &GmmEm<T>,
    subs: Seq<Matrix<T>>,
    posts: Seq<Matrix<T>>,
    i: int,
    m: int,
    k: int,
    l: int,
    s: int,
    t: int,
)
    requires
        reads_real(rd),
    ensures
        rd(e.scatter_term(&subs[s], &posts[s], i, m, k, l, t)) == mixture_scatter(
            rd,
            e,
            subs,
            posts,
            i,
            m,
            k,
            l,
        )(s, t),
{
    reveal(reads_real);
    associates(
        share_of(rd, e, subs, posts, i, m)(s, t),
        rd(subs[s].at(t, k)) - rd(e.means->0.at(i, m, k)),
        rd(subs[s].at(t, l)) - rd(e.means->0.at(i, m, l)),
    );
}

/// The scatter statistics of full covariances, read.
proof fn full_scatter_reads<T: Dense>(
    rd: spec_fn(T) -> real,
    e: &GmmEm<T>,
    params: ParamSet,
    subs: Seq<Matrix<T>>,
    posts: Seq<Matrix<T>>,
    stats: Seq<GmmStats<T>>,
    i: int,
    m: int,
    k: int,
    l: int,
)
    requires
        reads_real(rd),
        gathered(e, params, subs, posts, stats),
        params.members().contains(Param::Covars),
        e.covariance_type is Full || (e.covariance_type is Diag && k == l),
        0 <= i < e.n_components,
        0 <= m < e.n_mix,
        0 <= k < e.width(),
        0 <= l < e.width(),
    ensures
        rd(stats.last().c_n.cov_at(i, m, k, l)) == over_rows(
            subs,
            mixture_scatter(rd, e, subs, posts, i, m, k, l),
        ),
{
    let n = subs.len() as int;
    real_sums(rd);
    let val = |s: int| stats[s].c_n.cov_at(i, m, k, l);
    let step = |s: int, t: int| e.scatter_term(&subs[s], &posts[s], i, m, k, l, t);
    assert forall|s: int| 0 <= s < n implies val(s + 1) == grown(
        #[trigger] val(s),
        subs[s].rows.len() as int,
        |t: int| step(s, t),
    ) by {
        assert(e.accumulate_rel(&stats[s], &subs[s], &posts[s], params, &stats[s + 1]));
        scatter_type_kept(e, params, subs, posts, stats, s);
        let len = subs[s].rows.len() as int;
        let own = |t: int| e.scatter_term(&subs[s], &posts[s], i, m, k, l, t);
        match (stats[s].c_n, stats[s + 1].c_n) {
            (GmmCovars::Full(b), GmmCovars::Full(a)) => {
                assert(a@[i].at(m, k, l) == grown(b@[i].at(m, k, l), len, own));
            },
            (GmmCovars::Diag(b), GmmCovars::Diag(a)) => {
                assert(a.at(i, m, k) == grown(b.at(i, m, k), len, own));
            },
            _ => {},
        }
        grown_ext(val(s), len, own, |t: int| step(s, t));
    }
    let g = mixture_scatter(rd, e, subs, posts, i, m, k, l);
    assert forall|s: int, t: int| rd(#[trigger] step(s, t)) == g(s, t) by {
        term_reads(rd, e, subs, posts, i, m, k, l, s, t);
    }
    grows_over_rows(rd, subs, n, val, step, g);
    assert(val(0) == num::<T>(0));
    assert(rd(num::<T>(0)) == 0real) by {
        reveal(reads_real);
    }
}

/// What a given covariance prior reads as; nothing without one.
pub open spec fn given<T>(rd: spec_fn(T) -> real, prior: Option<T>) -> real {
    match prior {
        Some(p) => rd(p),
        None => 0real,
    }
}

/// The product of the deviations of the new means of features `k` and `l` from the
/// prior mean, with its weight.
pub open spec fn prior_scatter<T: Dense>(
    rd: spec_fn(T) -> real,
    e: &GmmEm<T>,
    after: &GmmEm<T>,
    i: int,
    m: int,
    k: int,
    l: int,
) -> real {
    rd(e.means_weight) * ((rd(after.means->0.at(i, m, k)) - rd(e.means_prior)) * (rd(
        after.means->0.at(i, m, l),
    ) - rd(e.means_prior)))
}

proof fn prior_reads<T: Dense>(
    rd: spec_fn(T) -> real,
    e: &GmmEm<T>,
    after: &GmmEm<T>,
    i: int,
    m: int,
    k: int,
    l: int,
)
    requires
        reads_real(rd),
    ensures
        rd(
            e.means_weight.s_times(e.deviation(&after.means->0, i, m, k)).s_times(
                e.deviation(&after.means->0, i, m, l),
            ),
        ) == prior_scatter(rd, e, after, i, m, k, l),
{
    reveal(reads_real);
    associates(
        rd(e.means_weight),
        rd(after.means->0.at(i, m, k)) - rd(e.means_prior),
        rd(after.means->0.at(i, m, l)) - rd(e.means_prior),
    );
}

/// The new full covariance of a mixture, times the mixture's mass, is its scatter about
/// the means that the E-step worked with. A given prior and weight are added to scatter
/// and mass, and so is the deviation of the new means from their prior; without a given
/// weight nothing is added to the mass.
pub proof fn new_full_mixture_covariance_is_scatter_over_mass<T: Dense>(
    rd: spec_fn(T) -> real,
    e: &GmmEm<T>,
    params: ParamSet,
    subs: Seq<Matrix<T>>,
    posts: Seq<Matrix<T>>,
    stats: Seq<GmmStats<T>>,
    after: &GmmEm<T>,
    i: int,
    m: int,
    k: int,
    l: int,
    mass: real,
)
    requires
        reads_real(rd),
        gathered(e, params, subs, posts, stats),
        e.mstep_rel(&stats.last(), params, after),
        params.members().contains(Param::Covars),
        e.covariance_type is Full,
        0 <= i < e.n_components,
        0 <= m < e.n_mix,
        0 <= k < e.width(),
        0 <= l < e.width(),
        mass == over_rows(subs, share_of(rd, e, subs, posts, i, m)) + match e.covars_weight {
            Some(w) => rd(w) + e.width() as real + 2real,
            None => 0real,
        },
        mass != 0real,
    ensures
        after.covars->0 is Full,
        rd(after.covars->0->Full_0@[i].at(m, k, l)) * mass == given(rd, e.covars_prior)
            + prior_scatter(rd, e, after, i, m, k, l) + over_rows(
            subs,
            mixture_scatter(rd, e, subs, posts, i, m, k, l),
        ),
{
    masses_read(rd, e, params, subs, posts, stats, i, m);
    full_scatter_reads(rd, e, params, subs, posts, stats, i, m, k, l);
    prior_reads(rd, e, after, i, m, k, l);
    scatter_type_kept(e, params, subs, posts, stats, subs.len() as int);
    reveal(reads_real);
    let st = stats.last();
    let nf = e.width();
    let cw = e.covar_weight();
    assert(rd(num::<T>(1)) == 1real);
    assert(rd(num::<T>(0)) == 0real);
    assert(rd(num::<T>(nf)) == nf as real);
    assert(rd(num::<T>(-1)) == -1real);
    let divisor = st.post_mix_sum.at(i, m).s_plus(num(1)).s_plus(cw).s_plus(num(nf)).s_plus(
        num(1),
    );
    assert(rd(divisor) == mass);
    match (st.c_n, after.covars->0) {
        (GmmCovars::Full(c), GmmCovars::Full(a)) => {
            assert(st.c_n.cov_at(i, m, k, l) == c@[i].at(m, k, l));
            let upper = e.covar_prior().s_plus(
                e.means_weight.s_times(e.deviation(&after.means->0, i, m, k)).s_times(
                    e.deviation(&after.means->0, i, m, l),
                ),
            ).s_plus(c@[i].at(m, k, l));
            assert(a@[i].at(m, k, l) == upper.s_over(divisor));
        },
        _ => {},
    }
}

/// The new diagonal variance of a mixture, times the mixture's mass, is its scatter
/// about the means that the E-step worked with. Twice a given weight is added to the
/// scatter, and so is the deviation of the new mean from its prior; a given prior `p`
/// adds `2 p + 3` to the mass.
pub proof fn new_diagonal_mixture_variance_is_scatter_over_mass<T: Dense>(
    rd: spec_fn(T) -> real,
    e: &GmmEm<T>,
    params: ParamSet,
    subs: Seq<Matrix<T>>,
    posts: Seq<Matrix<T>>,
    stats: Seq<GmmStats<T>>,
    after: &GmmEm<T>,
    i: int,
    m: int,
    f: int,
    mass: real,
)
    requires
        reads_real(rd),
        gathered(e, params, subs, posts, stats),
        e.mstep_rel(&stats.last(), params, after),
        params.members().contains(Param::Covars),
        e.covariance_type is Diag,
        0 <= i < e.n_components,
        0 <= m < e.n_mix,
        0 <= f < e.width(),
        mass == over_rows(subs, share_of(rd, e, subs, posts, i, m)) + match e.covars_prior {
            Some(p) => 2real * rd(p) + 3real,
            None => 0real,
        },
        mass != 0real,
    ensures
        after.covars->0 is Diag,
        rd(after.covars->0->Diag_0.at(i, m, f)) * mass == 2real * given(rd, e.covars_weight)
            + prior_scatter(rd, e, after, i, m, f, f) + over_rows(
            subs,
            mixture_scatter(rd, e, subs, posts, i, m, f, f),
        ),
{
    masses_read(rd, e, params, subs, posts, stats, i, m);
    full_scatter_reads(rd, e, params, subs, posts, stats, i, m, f, f);
    prior_reads(rd, e, after, i, m, f, f);
    scatter_type_kept(e, params, subs, posts, stats, subs.len() as int);
    reveal_with_fuel(power_of_ten, 2);
    assert(power_of_ten(1) == 10real);
    reveal(reads_real);
    let st = stats.last();
    let (cw, cp) = (e.covar_weight(), e.covar_prior());
    let two = num::<T>(2);
    assert(rd(num::<T>(1)) == 1real);
    assert(rd(num::<T>(0)) == 0real);
    assert(rd(two) == 2real);
    assert(rd(dec::<T>(-15, -1)) * power_of_ten(1) == -15real);
    let divisor = st.post_mix_sum.at(i, m).s_plus(num(1)).s_plus(two.s_times(cp.s_plus(num(1))));
    assert(rd(divisor) == mass);
    match (st.c_n, after.covars->0) {
        (GmmCovars::Diag(c), GmmCovars::Diag(a)) => {
            assert(st.c_n.cov_at(i, m, f, f) == c.at(i, m, f));
            let upper = e.means_weight.s_times(e.deviation(&after.means->0, i, m, f)).s_times(
                e.deviation(&after.means->0, i, m, f),
            ).s_plus(two.s_times(cw)).s_plus(c.at(i, m, f));
            assert(a.at(i, m, f) == upper.s_over(divisor));
        },
        _ => {},
    }
}

/// The squared deviations of the rows from the means that the E-step worked with, summed
/// over the features and weighed by the share of mixture `m` of state `i`.
pub open spec fn mixture_squares<T: Dense>(
    rd: spec_fn(T) -> real,
    e: &GmmEm<T>,
    subs: Seq<Matrix<T>>,
    posts: Seq<Matrix<T>>,
    i: int,
    m: int,
) -> spec_fn(int, int) -> real {
    |s: int, t: int|
        share_of(rd, e, subs, posts, i, m)(s, t) * rsum(
            e.width(),
            |f: int|
                (rd(subs[s].at(t, f)) - rd(e.means->0.at(i, m, f))) * (rd(subs[s].at(t, f)) - rd(
                    e.means->0.at(i, m, f),
                )),
        )
}

proof fn square_reads<T: Dense>(
    rd: spec_fn(T) -> real,
    e: &GmmEm<T>,
    subs: Seq<Matrix<T>>,
    posts: Seq<Matrix<T>>,
    i: int,
    m: int,
    s: int,
    t: int,
)
    requires
        reads_real(rd),
    ensures
        rd(e.square_term(&subs[s], &posts[s], i, m, t)) == mixture_squares(
            rd,
            e,
            subs,
            posts,
            i,
            m,
        )(s, t),
{
    real_sums(rd);
    reveal(reads_real);
    let means = e.means->0;
    let x = subs[s];
    let a = |f: int|
        x.at(t, f).s_minus(means.at(i, m, f)).s_times(x.at(t, f).s_minus(means.at(i, m, f)));
    let b = |f: int|
        (rd(subs[s].at(t, f)) - rd(e.means->0.at(i, m, f))) * (rd(subs[s].at(t, f)) - rd(
            e.means->0.at(i, m, f),
        ));
    real_sigma(rd, e.width(), a);
    rsum_ext(e.width(), |f: int| rd(a(f)), b);
}

/// The new spherical variance of a mixture, times the mixture's mass in every feature,
/// is its scatter over all features about the means that the E-step worked with. Twice a
/// given weight is added to the scatter, and so are the deviations of the new means from
/// their prior; the prior adds as many rows as features, and twice itself and one.
pub proof fn new_spherical_mixture_variance_is_average_scatter<T: Dense>(
    rd: spec_fn(T) -> real,
    e: &GmmEm<T>,
    params: ParamSet,
    subs: Seq<Matrix<T>>,
    posts: Seq<Matrix<T>>,
    stats: Seq<GmmStats<T>>,
    after: &GmmEm<T>,
    i: int,
    m: int,
    mass: real,
)
    requires
        reads_real(rd),
        gathered(e, params, subs, posts, stats),
        e.mstep_rel(&stats.last(), params, after),
        params.members().contains(Param::Covars),
        e.covariance_type is Spherical,
        0 <= i < e.n_components,
        0 <= m < e.n_mix,
        1 <= e.width(),
        mass == e.width() as real * (over_rows(subs, share_of(rd, e, subs, posts, i, m)) + 1real)
            + match e.covars_prior {
            Some(p) => 2real * rd(p) + 2real,
            None => -(e.n_mix as real),
        },
        mass != 0real,
    ensures
        after.covars->0 is Spherical,
        rd(after.covars->0->Spherical_0.at(i, m)) * mass == 2real * given(rd, e.covars_weight) + rd(
            e.means_weight,
        ) * rsum(
            e.width(),
            |f: int|
                (rd(after.means->0.at(i, m, f)) - rd(e.means_prior)) * (rd(
                    after.means->0.at(i, m, f),
                ) - rd(e.means_prior)),
        ) + over_rows(subs, mixture_squares(rd, e, subs, posts, i, m)),
{
    let n = subs.len() as int;
    let nf = e.width();
    masses_read(rd, e, params, subs, posts, stats, i, m);
    scatter_type_kept(e, params, subs, posts, stats, n);
    real_sums(rd);
    let val = |s: int| stats[s].c_n.cov_at(i, m, 0, 0);
    let step = |s: int, t: int| e.square_term(&subs[s], &posts[s], i, m, t);
    assert forall|s: int| 0 <= s < n implies val(s + 1) == grown(
        #[trigger] val(s),
        subs[s].rows.len() as int,
        |t: int| step(s, t),
    ) by {
        assert(e.accumulate_rel(&stats[s], &subs[s], &posts[s], params, &stats[s + 1]));
        scatter_type_kept(e, params, subs, posts, stats, s);
        let len = subs[s].rows.len() as int;
        let own = |t: int| e.square_term(&subs[s], &posts[s], i, m, t);
        match (stats[s].c_n, stats[s + 1].c_n) {
            (GmmCovars::Spherical(b), GmmCovars::Spherical(a)) => {
                assert(a.at(i, m) == grown(b.at(i, m), len, own));
            },
            _ => {},
        }
        grown_ext(val(s), len, own, |t: int| step(s, t));
    }
    let g = mixture_squares(rd, e, subs, posts, i, m);
    assert forall|s: int, t: int| rd(#[trigger] step(s, t)) == g(s, t) by {
        square_reads(rd, e, subs, posts, i, m, s, t);
    }
    grows_over_rows(rd, subs, n, val, step, g);
    assert(val(0) == num::<T>(0));
    let st = stats.last();
    let (cw, cp) = (e.covar_weight(), e.covar_prior());
    let two = num::<T>(2);
    let means = after.means->0;
    let a = |f: int| e.deviation(&means, i, m, f).s_times(e.deviation(&means, i, m, f));
    let b = |f: int|
        (rd(after.means->0.at(i, m, f)) - rd(e.means_prior)) * (rd(after.means->0.at(i, m, f)) - rd(
            e.means_prior,
        ));
    real_sigma(rd, nf, a);
    reveal(reads_real);
    rsum_ext(nf, |f: int| rd(a(f)), b);
    assert(rd(num::<T>(1)) == 1real);
    assert(rd(num::<T>(0)) == 0real);
    assert(rd(num::<T>(-1)) == -1real);
    assert(rd(two) == 2real);
    assert(rd(num::<T>(nf)) == nf as real);
    assert(rd(num::<T>(e.n_mix as int)) == e.n_mix as real);
    let divisor = num::<T>(nf).s_times(st.post_mix_sum.at(i, m).s_plus(num(1))).s_plus(
        two.s_times(cp.s_plus(num(1))),
    );
    assert(rd(divisor) == mass);
    match (st.c_n, after.covars->0) {
        (GmmCovars::Spherical(c), GmmCovars::Spherical(d)) => {
            assert(st.c_n.cov_at(i, m, 0, 0) == c.at(i, m));
            let upper = e.means_weight.s_times(sigma(nf, a)).s_plus(two.s_times(cw)).s_plus(
                c.at(i, m),
            );
            assert(d.at(i, m) == upper.s_over(divisor));
        },
        _ => {},
    }
}

/// What the tied scatter statistic gains from the first `n` rows of a sequence.
proof fn tied_reads<T: Dense>(
    rd: spec_fn(T) -> real,
    e: &GmmEm<T>,
    subs: Seq<Matrix<T>>,
    posts: Seq<Matrix<T>>,
    before: T,
    i: int,
    k: int,
    l: int,
    s: int,
    n: int,
)
    requires
        reads_real(rd),
    ensures
        rd(e.tied_mass(before, &subs[s], &posts[s], i, k, l, n)) == rd(before) + rsum(
            n,
            |t: int|
                rsum(
                    e.n_mix as int,
                    |m: int| mixture_scatter(rd, e, subs, posts, i, m, k, l)(s, t),
                ),
        ),
    decreases n,
{
    if n > 0 {
        tied_reads(rd, e, subs, posts, before, i, k, l, s, n - 1);
        real_sums(rd);
        let nm = e.n_mix as int;
        let t = n - 1;
        let so_far = e.tied_mass(before, &subs[s], &posts[s], i, k, l, n - 1);
        let f = |m: int| e.scatter_term(&subs[s], &posts[s], i, m, k, l, n - 1);
        let g = |m: int| mixture_scatter(rd, e, subs, posts, i, m, k, l)(s, t);
        real_grown(rd, so_far, nm, f);
        let h = |m: int| rd(f(m));
        assert forall|m: int| 0 <= m < nm implies #[trigger] h(m) == g(m) by {
            term_reads(rd, e, subs, posts, i, m, k, l, s, t);
        }
        rsum_ext(nm, h, g);
    }
}

/// The scatter of all mixtures of a state in each row.
pub open spec fn pooled_scatter<T: Dense>(
    rd: spec_fn(T) -> real,
    e: &GmmEm<T>,
    subs: Seq<Matrix<T>>,
    posts: Seq<Matrix<T>>,
    i: int,
    k: int,
    l: int,
) -> spec_fn(int, int) -> real {
    |s: int, t: int|
        rsum(e.n_mix as int, |m: int| mixture_scatter(rd, e, subs, posts, i, m, k, l)(s, t))
}

proof fn tied_scatter_reads<T: Dense>(
    rd: spec_fn(T) -> real,
    e: &GmmEm<T>,
    params: ParamSet,
    subs: Seq<Matrix<T>>,
    posts: Seq<Matrix<T>>,
    stats: Seq<GmmStats<T>>,
    i: int,
    k: int,
    l: int,
    n: int,
)
    requires
        reads_real(rd),
        gathered(e, params, subs, posts, stats),
        params.members().contains(Param::Covars),
        e.covariance_type is Tied,
        e.n_mix >= 1,
        0 <= i < e.n_components,
        0 <= k < e.width(),
        0 <= l < e.width(),
        0 <= n <= subs.len(),
    ensures
        rd(stats[n].c_n.cov_at(i, 0, k, l)) == rsum(
            n,
            |s: int|
                rsum(
                    subs[s].rows.len() as int,
                    |t: int| pooled_scatter(rd, e, subs, posts, i, k, l)(s, t),
                ),
        ),
    decreases n,
{
    if n > 0 {
        tied_scatter_reads(rd, e, params, subs, posts, stats, i, k, l, n - 1);
        let s = n - 1;
        assert(e.accumulate_rel(&stats[s], &subs[s], &posts[s], params, &stats[s + 1]));
        scatter_type_kept(e, params, subs, posts, stats, s);
        let len = subs[s].rows.len() as int;
        tied_reads(rd, e, subs, posts, stats[s].c_n.cov_at(i, 0, k, l), i, k, l, s, len);
        let g = |t: int|
            rsum(e.n_mix as int, |m: int| mixture_scatter(rd, e, subs, posts, i, m, k, l)(s, t));
        rsum_ext(len, g, |t: int| pooled_scatter(rd, e, subs, posts, i, k, l)(s, t));
        match (stats[s].c_n, stats[s + 1].c_n) {
            (GmmCovars::Tied(b), GmmCovars::Tied(a)) => {
                assert(a.at(i, k, l) == e.tied_mass(
                    b.at(i, k, l),
                    &subs[s],
                    &posts[s],
                    i,
                    k,
                    l,
                    len,
                ));
            },
            _ => {},
        }
    } else {
        assert(stats[0].c_n.cov_at(i, 0, k, l) == num::<T>(0));
        reveal(reads_real);
        assert(rd(num::<T>(0)) == 0real);
    }
}

/// The new tied covariance of a state, times the state's mass, is the scatter of all its
/// mixtures about the means that the E-step worked with. A given prior and weight are
/// added to scatter and mass, and so are the deviations of the new means from their
/// prior; without a given weight nothing is added to the mass.
pub proof fn new_tied_mixture_covariance_is_pooled<T: Dense>(
    rd: spec_fn(T) -> real,
    e: &GmmEm<T>,
    params: ParamSet,
    subs: Seq<Matrix<T>>,
    posts: Seq<Matrix<T>>,
    stats: Seq<GmmStats<T>>,
    after: &GmmEm<T>,
    i: int,
    k: int,
    l: int,
    mass: real,
)
    requires
        reads_real(rd),
        gathered(e, params, subs, posts, stats),
        e.mstep_rel(&stats.last(), params, after),
        params.members().contains(Param::Covars),
        e.covariance_type is Tied,
        e.n_mix >= 1,
        0 <= i < e.n_components,
        0 <= k < e.width(),
        0 <= l < e.width(),
        mass == over_rows(subs, state_share(rd, posts, i)) + match e.covars_weight {
            Some(w) => rd(w) + e.n_mix as real + e.width() as real + 1real,
            None => 0real,
        },
        mass != 0real,
    ensures
        after.covars->0 is Tied,
        rd(after.covars->0->Tied_0.at(i, k, l)) * mass == given(rd, e.covars_prior) + rsum(
            e.n_mix as int,
            |m: int| prior_scatter(rd, e, after, i, m, k, l),
        ) + over_rows(subs, pooled_scatter(rd, e, subs, posts, i, k, l)),
{
    let nm = e.n_mix as int;
    masses_read(rd, e, params, subs, posts, stats, i, 0);
    tied_scatter_reads(rd, e, params, subs, posts, stats, i, k, l, subs.len() as int);
    scatter_type_kept(e, params, subs, posts, stats, subs.len() as int);
    real_sums(rd);
    let means = after.means->0;
    let f = |m: int|
        e.means_weight.s_times(e.deviation(&means, i, m, k)).s_times(e.deviation(&means, i, m, l));
    let g = |m: int| prior_scatter(rd, e, after, i, m, k, l);
    real_grown(rd, e.covar_prior(), nm, f);
    let h = |m: int| rd(f(m));
    assert forall|m: int| 0 <= m < nm implies #[trigger] h(m) == g(m) by {
        prior_reads(rd, e, after, i, m, k, l);
    }
    rsum_ext(nm, h, g);
    reveal(reads_real);
    let st = stats.last();
    let nf = e.width();
    assert(rd(num::<T>(1)) == 1real);
    assert(rd(num::<T>(0)) == 0real);
    assert(rd(num::<T>(nf)) == nf as real);
    assert(rd(num::<T>(nm)) == nm as real);
    assert(rd(num::<T>(-1)) == -1real);
    let divisor = st.post_sum@[i].s_plus(num(nm)).s_plus(e.covar_weight()).s_plus(
        num(nf),
    ).s_plus(num(1));
    assert(rd(divisor) == mass);
    match (st.c_n, after.covars->0) {
        (GmmCovars::Tied(c), GmmCovars::Tied(a)) => {
            assert(st.c_n.cov_at(i, 0, k, l) == c.at(i, k, l));
            assert(e.tied_prior(&means, i, k, l) == grown(e.covar_prior(), nm, f));
            assert(a.at(i, k, l) == e.tied_prior(&means, i, k, l).s_plus(c.at(i, k, l)).s_over(
                divisor,
            ));
        },
        _ => {},
    }
}

} // verus!
