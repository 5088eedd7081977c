//! What the likelihoods of the models of counts and symbols are, where arithmetic is
//! exact.

use crate::engine::emission::EmissionModel;
use crate::linalg::Dense;
use crate::matrix::{row_total, Matrix};
use crate::models::categorical::{symbol_of, CategoricalEm};
use crate::models::gaussian::GaussianEm;
use crate::models::multinomial::{trials_of, x_log_y, MultinomialEm};
use crate::models::poisson::PoissonEm;
use crate::models::variational::categorical::VariationalCategoricalEm;
use crate::models::variational::gaussian::VariationalGaussianEm;
use crate::reading::{real_sigma, real_sums, reads_real};
use crate::reals::{annuls, commutes, distributes, rsum, rsum_apart, rsum_ext, rsum_zero};
use crate::scalar::{num, Scalar};
use crate::special::digamma_of;
use crate::stats::mvn::log_density_at;
use vstd::prelude::*;

verus! {

/// `rd` reads logarithms as `ln` and those of the gamma function as `lg`, which is 0 at
/// 1 and grows by `ln(x)` from `x` to `x + 1`.
#[verifier::opaque]
pub open spec fn reads_factorials<T: Scalar>(
    rd: spec_fn(T) -> real,
    ln: spec_fn(real) -> real,
    lg: spec_fn(real) -> real,
) -> bool {
    &&& forall|a: T| rd(a) > 0real ==> rd(#[trigger] a.s_ln()) == ln(rd(a))
    &&& forall|a: T| rd(a) > 0real ==> rd(#[trigger] a.s_ln_gamma()) == lg(rd(a))
    &&& lg(1real) == 0real
    &&& forall|x: real| x > 0real ==> #[trigger] lg(x + 1real) == lg(x) + ln(x)
}

/// What a count `k` at the rate `r` adds to a log-probability.
spec fn rate_value(
    ln: spec_fn(real) -> real,
    lg: spec_fn(real) -> real,
    k: real,
    r: real,
) -> real {
    k * ln(r) - r - lg(k + 1real)
}

proof fn rates_read<T: Dense>(
    rd: spec_fn(T) -> real,
    ln: spec_fn(real) -> real,
    lg: spec_fn(real) -> real,
    e: &PoissonEm<T>,
    x: &Matrix<T>,
    t: int,
    c: int,
)
    requires
        reads_real(rd),
        reads_factorials(rd, ln, lg),
        forall|f: int| 0 <= f < e.width() ==> rd(#[trigger] e.lambdas->0.at(c, f)) > 0real,
        forall|f: int| 0 <= f < e.width() ==> rd(#[trigger] x.at(t, f)) >= 0real,
    ensures
        rd(e.log_like(x, t, c)) == rsum(
            e.width(),
            |f: int| rate_value(ln, lg, rd(x.at(t, f)), rd(e.lambdas->0.at(c, f))),
        ),
{
    let l = e.lambdas->0;
    let n = e.width();
    let terms = |f: int|
        x.at(t, f).s_times(l.at(c, f).s_ln()).s_minus(l.at(c, f)).s_minus(
            x.at(t, f).s_plus(num(1)).s_ln_gamma(),
        );
    let values = |f: int| rate_value(ln, lg, rd(x.at(t, f)), rd(e.lambdas->0.at(c, f)));
    real_sums(rd);
    real_sigma(rd, n, terms);
    let read = |f: int| rd(terms(f));
    assert forall|f: int| 0 <= f < n implies #[trigger] read(f) == values(f) by {
        assert(rd(e.lambdas->0.at(c, f)) > 0real);
        assert(rd(x.at(t, f)) >= 0real);
        reveal(reads_real);
        assert(rd(num::<T>(1)) == 1real);
        let k = x.at(t, f).s_plus(num(1));
        assert(rd(k) == rd(x.at(t, f)) + 1real);
        reveal(reads_factorials);
        assert(rd(l.at(c, f).s_ln()) == ln(rd(l.at(c, f))));
        assert(rd(k.s_ln_gamma()) == lg(rd(k)));
    }
    rsum_ext(n, read, values);
}

/// A row of no counts has, in the Poisson model, the log-probability that is the sum of
/// the rates of the state taken from 0.
pub proof fn poisson_of_no_counts<T: Dense>(
    rd: spec_fn(T) -> real,
    ln: spec_fn(real) -> real,
    lg: spec_fn(real) -> real,
    e: &PoissonEm<T>,
    x: &Matrix<T>,
    t: int,
    c: int,
)
    requires
        reads_real(rd),
        reads_factorials(rd, ln, lg),
        forall|f: int| 0 <= f < e.width() ==> rd(#[trigger] e.lambdas->0.at(c, f)) > 0real,
        forall|f: int| 0 <= f < e.width() ==> rd(#[trigger] x.at(t, f)) == 0real,
    ensures
        rd(e.log_like(x, t, c)) == rsum(e.width(), |f: int| -rd(e.lambdas->0.at(c, f))),
        e.like(x, t, c) == e.log_like(x, t, c).s_exp(),
        e.fit_log_like(x, t, c) == e.log_like(x, t, c),
        e.fit_like(x, t, c) == e.like(x, t, c),
{
    rates_read(rd, ln, lg, e, x, t, c);
    let a = |f: int| rate_value(ln, lg, rd(x.at(t, f)), rd(e.lambdas->0.at(c, f)));
    let b = |f: int| -rd(e.lambdas->0.at(c, f));
    assert forall|f: int| 0 <= f < e.width() implies #[trigger] a(f) == b(f) by {
        reveal(reads_factorials);
        assert(rd(x.at(t, f)) == 0real);
        annuls(ln(rd(e.lambdas->0.at(c, f))));
        assert(lg(0real + 1real) == 0real);
    }
    rsum_ext(e.width(), a, b);
}

/// One count more of feature `g` multiplies the Poisson probability of a row by the rate
/// of that feature in the state, over the new count.
pub proof fn poisson_of_one_more<T: Dense>(
    rd: spec_fn(T) -> real,
    ln: spec_fn(real) -> real,
    lg: spec_fn(real) -> real,
    e: &PoissonEm<T>,
    x: &Matrix<T>,
    t: int,
    y: &Matrix<T>,
    u: int,
    c: int,
    g: int,
)
    requires
        reads_real(rd),
        reads_factorials(rd, ln, lg),
        0 <= g < e.width(),
        forall|f: int| 0 <= f < e.width() ==> rd(#[trigger] e.lambdas->0.at(c, f)) > 0real,
        forall|f: int| 0 <= f < e.width() ==> rd(#[trigger] x.at(t, f)) >= 0real,
        forall|f: int|
            0 <= f < e.width() ==> rd(#[trigger] y.at(u, f)) == rd(x.at(t, f)) + if f == g {
                1real
            } else {
                0real
            },
    ensures
        rd(e.log_like(y, u, c)) - rd(e.log_like(x, t, c)) == ln(rd(e.lambdas->0.at(c, g))) - ln(
            rd(y.at(u, g)),
        ),
{
    let n = e.width();
    assert forall|f: int| 0 <= f < n implies rd(#[trigger] y.at(u, f)) >= 0real by {
        assert(rd(x.at(t, f)) >= 0real);
    }
    rates_read(rd, ln, lg, e, x, t, c);
    rates_read(rd, ln, lg, e, y, u, c);
    let a = |f: int| rate_value(ln, lg, rd(y.at(u, f)), rd(e.lambdas->0.at(c, f)));
    let b = |f: int| rate_value(ln, lg, rd(x.at(t, f)), rd(e.lambdas->0.at(c, f)));
    assert forall|f: int| 0 <= f < n && f != g implies #[trigger] a(f) == b(f) by {
        assert(rd(y.at(u, f)) == rd(x.at(t, f)));
    }
    rsum_apart(n, a, b, g);
    let (k, w) = (rd(x.at(t, g)), ln(rd(e.lambdas->0.at(c, g))));
    assert(rd(y.at(u, g)) == k + 1real);
    assert((k + 1real) * w == k * w + w) by {
        distributes(w, k, 1real);
        commutes(w, k);
        commutes(w, k + 1real);
    }
    reveal(reads_factorials);
    assert(k >= 0real);
    assert(lg((k + 1real) + 1real) == lg(k + 1real) + ln(k + 1real));
}

/// What the multinomial log-probability of a row reads as.
proof fn trials_read<T: Dense>(
    rd: spec_fn(T) -> real,
    ln: spec_fn(real) -> real,
    lg: spec_fn(real) -> real,
    e: &MultinomialEm<T>,
    x: &Matrix<T>,
    t: int,
    c: int,
)
    requires
        reads_real(rd),
        reads_factorials(rd, ln, lg),
        x.ncols == e.categories(),
        forall|f: int| 0 <= f < e.categories() ==> rd(#[trigger] e.emissionprob->0.at(c, f)) > 0real,
        forall|f: int| 0 <= f < e.categories() ==> rd(#[trigger] x.at(t, f)) >= 0real,
    ensures
        rd(e.log_like(x, t, c)) == lg(rsum(e.categories(), |f: int| rd(x.at(t, f))) + 1real) - rsum(
            e.categories(),
            |f: int| lg(rd(x.at(t, f)) + 1real),
        ) + rsum(
            e.categories(),
            |f: int| rd(x.at(t, f)) * ln(rd(e.emissionprob->0.at(c, f))),
        ),
{
    let n = e.categories();
    let ep = e.emissionprob->0;
    real_sums(rd);
    let counts = |f: int| x.at(t, f);
    let gammas = |f: int| x.at(t, f).s_plus(num(1)).s_ln_gamma();
    let logs = |f: int| x_log_y(x.at(t, f), ep.at(c, f));
    real_sigma(rd, n, counts);
    real_sigma(rd, n, gammas);
    real_sigma(rd, n, logs);
    let read_counts = |f: int| rd(x.at(t, f));
    rsum_ext(n, |f: int| rd(counts(f)), read_counts);
    let (a, b) = (|f: int| rd(gammas(f)), |f: int| lg(rd(x.at(t, f)) + 1real));
    let (v, w) = (
        |f: int| rd(logs(f)),
        |f: int| rd(x.at(t, f)) * ln(rd(e.emissionprob->0.at(c, f))),
    );
    assert forall|f: int| 0 <= f < n implies #[trigger] a(f) == b(f) by {
        reveal(reads_real);
        reveal(reads_factorials);
        assert(rd(x.at(t, f)) >= 0real);
        assert(rd(num::<T>(1)) == 1real);
        let k = x.at(t, f).s_plus(num(1));
        assert(rd(k) == rd(x.at(t, f)) + 1real);
        assert(rd(k.s_ln_gamma()) == lg(rd(k)));
    }
    assert forall|f: int| 0 <= f < n implies #[trigger] v(f) == w(f) by {
        reveal(reads_real);
        reveal(reads_factorials);
        assert(rd(e.emissionprob->0.at(c, f)) > 0real);
        assert(rd(ep.at(c, f).s_ln()) == ln(rd(ep.at(c, f))));
        assert(rd(num::<T>(0)) == 0real);
        annuls(ln(rd(ep.at(c, f))));
    }
    rsum_ext(n, a, b);
    rsum_ext(n, v, w);
    counts_not_negative(n, read_counts);
    reveal(reads_real);
    reveal(reads_factorials);
    assert(rd(num::<T>(1)) == 1real);
    let all = trials_of(x, t).s_plus(num(1));
    assert(rd(all) == rsum(n, read_counts) + 1real);
    assert(rd(all.s_ln_gamma()) == lg(rd(all)));
}

proof fn counts_not_negative(n: int, f: spec_fn(int) -> real)
    requires
        forall|i: int| 0 <= i < n ==> #[trigger] f(i) >= 0real,
    ensures
        rsum(n, f) >= 0real,
    decreases n,
{
    if n > 0 {
        counts_not_negative(n - 1, f);
        assert(f(n - 1) >= 0real);
    }
}

/// No trials are certain in the multinomial model.
pub proof fn multinomial_of_no_trials<T: Dense>(
    rd: spec_fn(T) -> real,
    ln: spec_fn(real) -> real,
    lg: spec_fn(real) -> real,
    e: &MultinomialEm<T>,
    x: &Matrix<T>,
    t: int,
    c: int,
)
    requires
        reads_real(rd),
        reads_factorials(rd, ln, lg),
        x.ncols == e.categories(),
        forall|f: int| 0 <= f < e.categories() ==> rd(#[trigger] e.emissionprob->0.at(c, f)) > 0real,
        forall|f: int| 0 <= f < e.categories() ==> rd(#[trigger] x.at(t, f)) == 0real,
    ensures
        rd(e.log_like(x, t, c)) == 0real,
        e.like(x, t, c) == e.log_like(x, t, c).s_exp(),
        e.fit_log_like(x, t, c) == e.log_like(x, t, c),
        e.fit_like(x, t, c) == e.like(x, t, c),
{
    let n = e.categories();
    trials_read(rd, ln, lg, e, x, t, c);
    reveal(reads_factorials);
    let (a, b, d) = (
        |f: int| rd(x.at(t, f)),
        |f: int| lg(rd(x.at(t, f)) + 1real),
        |f: int| rd(x.at(t, f)) * ln(rd(e.emissionprob->0.at(c, f))),
    );
    assert forall|f: int| 0 <= f < n implies #[trigger] b(f) == 0real by {
        assert(rd(x.at(t, f)) == 0real);
    }
    assert forall|f: int| 0 <= f < n implies #[trigger] d(f) == 0real by {
        assert(rd(x.at(t, f)) == 0real);
        annuls(ln(rd(e.emissionprob->0.at(c, f))));
    }
    rsum_zero(n, a);
    rsum_zero(n, b);
    rsum_zero(n, d);
}

/// One trial more that falls on category `g` multiplies the multinomial probability of a
/// row by the probability of that category in the state, times the new number of trials
/// over the new count.
pub proof fn multinomial_of_one_more<T: Dense>(
    rd: spec_fn(T) -> real,
    ln: spec_fn(real) -> real,
    lg: spec_fn(real) -> real,
    e: &MultinomialEm<T>,
    x: &Matrix<T>,
    t: int,
    y: &Matrix<T>,
    u: int,
    c: int,
    g: int,
)
    requires
        reads_real(rd),
        reads_factorials(rd, ln, lg),
        x.ncols == e.categories(),
        y.ncols == e.categories(),
        0 <= g < e.categories(),
        forall|f: int| 0 <= f < e.categories() ==> rd(#[trigger] e.emissionprob->0.at(c, f)) > 0real,
        forall|f: int| 0 <= f < e.categories() ==> rd(#[trigger] x.at(t, f)) >= 0real,
        forall|f: int|
            0 <= f < e.categories() ==> rd(#[trigger] y.at(u, f)) == rd(x.at(t, f)) + if f == g {
                1real
            } else {
                0real
            },
    ensures
        rd(e.log_like(y, u, c)) - rd(e.log_like(x, t, c)) == ln(rd(e.emissionprob->0.at(c, g)))
            + ln(rsum(e.categories(), |f: int| rd(y.at(u, f)))) - ln(rd(y.at(u, g))),
{
    let n = e.categories();
    assert forall|f: int| 0 <= f < n implies rd(#[trigger] y.at(u, f)) >= 0real by {
        assert(rd(x.at(t, f)) >= 0real);
    }
    trials_read(rd, ln, lg, e, x, t, c);
    trials_read(rd, ln, lg, e, y, u, c);
    let (a, a2) = (|f: int| rd(x.at(t, f)), |f: int| rd(y.at(u, f)));
    let (b, b2) = (
        |f: int| lg(rd(x.at(t, f)) + 1real),
        |f: int| lg(rd(y.at(u, f)) + 1real),
    );
    let (d, d2) = (
        |f: int| rd(x.at(t, f)) * ln(rd(e.emissionprob->0.at(c, f))),
        |f: int| rd(y.at(u, f)) * ln(rd(e.emissionprob->0.at(c, f))),
    );
    assert forall|f: int| 0 <= f < n && f != g implies #[trigger] a2(f) == a(f) by {
        assert(rd(y.at(u, f)) == rd(x.at(t, f)));
    }
    assert forall|f: int| 0 <= f < n && f != g implies #[trigger] b2(f) == b(f) by {
        assert(rd(y.at(u, f)) == rd(x.at(t, f)));
    }
    assert forall|f: int| 0 <= f < n && f != g implies #[trigger] d2(f) == d(f) by {
        assert(rd(y.at(u, f)) == rd(x.at(t, f)));
    }
    rsum_apart(n, a2, a, g);
    rsum_apart(n, b2, b, g);
    rsum_apart(n, d2, d, g);
    let (k, w) = (rd(x.at(t, g)), ln(rd(e.emissionprob->0.at(c, g))));
    assert(rd(y.at(u, g)) == k + 1real);
    assert((k + 1real) * w == k * w + w) by {
        distributes(w, k, 1real);
        commutes(w, k);
        commutes(w, k + 1real);
    }
    counts_not_negative(n, a);
    reveal(reads_factorials);
    assert(k >= 0real);
    assert(lg((k + 1real) + 1real) == lg(k + 1real) + ln(k + 1real));
    let all = rsum(n, a) + 1real;
    assert(rsum(n, a2) == all);
    assert(lg(all + 1real) == lg(all) + ln(all));
}

/// A symbol has, in the categorical model, the probability that its state gives it.
pub proof fn symbol_has_its_probability<T: Dense>(
    e: &CategoricalEm<T>,
    x: &Matrix<T>,
    t: int,
    c: int,
)
    ensures
        e.like(x, t, c) == e.emissionprob->0.at(c, symbol_of(x.at(t, 0))),
        e.log_like(x, t, c) == e.like(x, t, c).s_ln(),
        e.fit_log_like(x, t, c) == e.log_like(x, t, c),
        e.fit_like(x, t, c) == e.like(x, t, c),
{
}

/// While the variational categorical model is fitted, a symbol has the expectation of
/// the logarithm of its probability: the digamma of its posterior less that of the
/// posteriors' total in the state.
pub proof fn symbol_has_expected_log<T: Dense>(
    rd: spec_fn(T) -> real,
    e: &VariationalCategoricalEm<T>,
    after: &VariationalCategoricalEm<T>,
    x: &Matrix<T>,
    t: int,
    c: int,
)
    requires
        reads_real(rd),
        e.shaped(),
        e.begin_rel(after),
        0 <= c < e.n_components,
        symbol_of(x.at(t, 0)) < e.symbols(),
    ensures
        rd(after.fit_log_like(x, t, c)) + rd(digamma_of(row_total(&e.posterior->0, c))) == rd(
            digamma_of(e.posterior->0.at(c, symbol_of(x.at(t, 0)))),
        ),
        after.fit_like(x, t, c) == after.fit_log_like(x, t, c).s_exp(),
        after.log_like(x, t, c) == e.log_like(x, t, c),
        e.log_like(x, t, c) == e.emissionprob->0.at(c, symbol_of(x.at(t, 0))).s_ln(),
{
    reveal(reads_real);
    let s = symbol_of(x.at(t, 0));
    assert(after.log_subnorm->0.at(c, s) == after.fit_log_like(x, t, c));
}

/// A row has, in the Gaussian model, the density under the mean and covariance of the
/// state.
pub proof fn gaussian_row_has_its_density<T: Dense>(
    e: &GaussianEm<T>,
    x: &Matrix<T>,
    t: int,
    c: int,
)
    ensures
        e.log_like(x, t, c) == log_density_at(x, &e.means->0, &e.covars->0, t, c),
        e.like(x, t, c) == e.log_like(x, t, c).s_exp(),
        e.fit_log_like(x, t, c) == e.log_like(x, t, c),
        e.fit_like(x, t, c) == e.like(x, t, c),
{
}

/// A row is scored, in the variational Gaussian model, by the density under the posterior
/// mean and the covariance of the state.
pub proof fn variational_row_has_its_density<T: Dense>(
    e: &VariationalGaussianEm<T>,
    x: &Matrix<T>,
    t: int,
    c: int,
)
    ensures
        e.log_like(x, t, c) == log_density_at(x, &e.means_posterior->0, &e.covars->0, t, c),
        e.like(x, t, c) == e.log_like(x, t, c).s_exp(),
        e.fit_like(x, t, c) == e.fit_log_like(x, t, c).s_exp(),
{
}

} // verus!
