//! Multivariate-normal log-density for the four covariance types.
//!
//! Spherical reduces to diagonal and tied to full. The full case uses a lower
//! Cholesky factor, retrying with a jitter on the diagonal if the matrix is
//! momentarily not positive-definite.

use crate::covariance::store::CovarStore;
use crate::linalg::{
    factor_logdet, forward_substitution, log_diagonal, solve_lower_triangular,
    Dense,
};
use crate::matrix::{tabulate, Matrix};
use crate::scalar::{count, dec, larger, larger_of, num, sigma, sigma_ext, sum_of, Scalar};
use vstd::prelude::*;

verus! {

/// `ln(2 pi)`.
pub open spec fn log_two_pi<T: Scalar>() -> T {
    num::<T>(2).s_times(T::s_pi()).s_ln()
}

fn ln_two_pi<T: Scalar>() -> (r: T)
    ensures
        r == log_two_pi::<T>(),
{
    T::of_int(2).times(T::pi()).ln()
}

/// The smallest variance a diagonal density works with.
pub open spec fn floored<T: Scalar>(v: T) -> T {
    larger_of(v, dec(22250738585072014, -324))
}

fn floor_variance<T: Scalar>(v: T) -> (r: T)
    ensures
        r == floored(v),
{
    larger(v, T::decimal(22250738585072014, -324))
}

/// `-0.5 * (nf ln(2 pi) + a + b)`.
pub open spec fn half_sum<T: Scalar>(nf: int, a: T, b: T) -> T {
    dec::<T>(-5, -1).s_times(num::<T>(nf).s_times(log_two_pi()).s_plus(a).s_plus(b))
}

/// The log-density of row `t` of `x` under mean `c` with the per-feature
/// variances `var`, each floored.
pub open spec fn diag_density<T: Scalar>(
    x: &Matrix<T>,
    means: &Matrix<T>,
    var: spec_fn(int) -> T,
    t: int,
    c: int,
) -> T {
    let nf = means.ncols as int;
    half_sum(
        nf,
        sigma(nf, |f: int| floored(var(f)).s_ln()),
        sigma(
            nf,
            |f: int|
                x.at(t, f).s_minus(means.at(c, f)).s_times(x.at(t, f).s_minus(means.at(c, f))).s_over(
                    floored(var(f)),
                ),
        ),
    )
}

/// `cov` with `1e-7` added on the diagonal.
pub open spec fn jittered<T: Scalar>(cov: Seq<Seq<T>>) -> Seq<Seq<T>> {
    Seq::new(
        cov.len(),
        |i: int|
            Seq::new(
                cov.len(),
                |j: int|
                    if i == j {
                        cov[i][j].s_plus(dec(1, -7))
                    } else {
                        cov[i][j]
                    },
            ),
    )
}

/// The Cholesky factor of `cov`, or of `cov` with a jitter where it has none.
pub open spec fn robust_factor<T: Dense>(cov: Seq<Seq<T>>) -> Option<Seq<Seq<T>>> {
    match T::s_cholesky(cov) {
        Some(l) => Some(l),
        None => T::s_cholesky(jittered(cov)),
    }
}

/// The log-density of row `t` of `x` under mean `c` with covariance `cov`:
/// negative infinity where `cov` has no factor even with a jitter.
pub open spec fn full_density<T: Dense>(
    x: &Matrix<T>,
    means: &Matrix<T>,
    cov: Seq<Seq<T>>,
    t: int,
    c: int,
) -> T {
    let nf = means.ncols as int;
    match robust_factor(cov) {
        None => T::s_neg_inf(),
        Some(l) => half_sum(
            nf,
            sigma(
                nf,
                |f: int|
                    {
                        let y = forward_substitution(
                            l,
                            |k: int| x.at(t, k).s_minus(means.at(c, k)),
                            f,
                        );
                        y.s_times(y)
                    },
            ),
            log_diagonal(l),
        ),
    }
}

/// The log-density of row `t` of `x` in component `c`.
pub open spec fn log_density_at<T: Dense>(
    x: &Matrix<T>,
    means: &Matrix<T>,
    covars: &CovarStore<T>,
    t: int,
    c: int,
) -> T {
    match covars {
        CovarStore::Diag(v) => diag_density(x, means, |f: int| v.at(c, f), t, c),
        CovarStore::Spherical(v) => diag_density(x, means, |f: int| v@[c], t, c),
        CovarStore::Full(v) => full_density(x, means, v.items@[c]@, t, c),
        CovarStore::Tied(v) => full_density(x, means, v@, t, c),
    }
}

/// A density with per-feature variances depends on the entries of the row alone.
pub proof fn diag_density_of_row<T: Scalar>(
    x: &Matrix<T>,
    t: int,
    y: &Matrix<T>,
    u: int,
    means: &Matrix<T>,
    var: spec_fn(int) -> T,
    c: int,
)
    requires
        x.row_view(t) == y.row_view(u),
    ensures
        diag_density(x, means, var, t, c) == diag_density(y, means, var, u, c),
{
    sigma_ext(
        means.ncols as int,
        |f: int|
            x.at(t, f).s_minus(means.at(c, f)).s_times(x.at(t, f).s_minus(means.at(c, f))).s_over(
                floored(var(f)),
            ),
        |f: int|
            y.at(u, f).s_minus(means.at(c, f)).s_times(y.at(u, f).s_minus(means.at(c, f))).s_over(
                floored(var(f)),
            ),
    );
}

/// A density with a covariance matrix depends on the entries of the row alone.
pub proof fn full_density_of_row<T: Dense>(
    x: &Matrix<T>,
    t: int,
    y: &Matrix<T>,
    u: int,
    means: &Matrix<T>,
    cov: Seq<Seq<T>>,
    c: int,
)
    requires
        x.row_view(t) == y.row_view(u),
    ensures
        full_density(x, means, cov, t, c) == full_density(y, means, cov, u, c),
{
    let a = |k: int| x.at(t, k).s_minus(means.at(c, k));
    let b = |k: int| y.at(u, k).s_minus(means.at(c, k));
    assert(a =~= b);
    if let Some(l) = robust_factor(cov) {
        sigma_ext(
            means.ncols as int,
            |f: int|
                {
                    let v = forward_substitution(
                        l,
                        |k: int| x.at(t, k).s_minus(means.at(c, k)),
                        f,
                    );
                    v.s_times(v)
                },
            |f: int|
                {
                    let v = forward_substitution(
                        l,
                        |k: int| y.at(u, k).s_minus(means.at(c, k)),
                        f,
                    );
                    v.s_times(v)
                },
        );
    }
}

/// The log-density of a row depends on its entries alone.
pub proof fn density_of_row<T: Dense>(
    x: &Matrix<T>,
    t: int,
    y: &Matrix<T>,
    u: int,
    means: &Matrix<T>,
    covars: &CovarStore<T>,
    c: int,
)
    requires
        x.row_view(t) == y.row_view(u),
    ensures
        log_density_at(x, means, covars, t, c) == log_density_at(y, means, covars, u, c),
{
    match covars {
        CovarStore::Diag(v) => {
            diag_density_of_row(x, t, y, u, means, |f: int| v.at(c, f), c);
        },
        CovarStore::Spherical(v) => {
            diag_density_of_row(x, t, y, u, means, |f: int| v@[c], c);
        },
        CovarStore::Full(v) => {
            full_density_of_row(x, t, y, u, means, v.items@[c]@, c);
        },
        CovarStore::Tied(v) => {
            full_density_of_row(x, t, y, u, means, v@, c);
        },
    }
}

/// Gaussian log-densities of all rows of `x` in one component with per-feature
/// variances `var`.
pub(crate) fn density_diag<T: Scalar>(
    x: &Matrix<T>,
    means: &Matrix<T>,
    c: usize,
    var: &Vec<T>,
    Ghost(g): Ghost<spec_fn(int) -> T>,
) -> (r: Vec<T>)
    requires
        x.has_dims(x.rows.len() as int, means.ncols as int),
        means.wf(),
        c < means.rows.len(),
        var.len() == means.ncols,
        forall|f: int| 0 <= f < means.ncols ==> #[trigger] var@[f] == g(f),
    ensures
        r.len() == x.rows.len(),
        forall|t: int|
            0 <= t < x.rows.len() ==> #[trigger] r@[t] == diag_density(x, means, g, t, c as int),
{
    let nf: usize = means.ncols;
    let base = count::<T>(nf).times(ln_two_pi());
    let h = |f: usize| -> (v: T)
        requires
            f < var.len(),
        ensures
            v == floored(var@[f as int]).s_ln(),
    {
        floor_variance(var[f]).ln()
    };
    let sum_log = sum_of(nf, h, Ghost(|f: int| floored(g(f)).s_ln()));
    let half = T::decimal(-5, -1);
    let mut r: Vec<T> = Vec::new();
    let mut t: usize = 0;
    while t < x.rows.len()
        invariant
            t <= x.rows.len(),
            x.has_dims(x.rows.len() as int, nf as int),
            nf == means.ncols,
            means.wf(),
            c < means.rows.len(),
            var.len() == nf,
            forall|f: int| 0 <= f < nf ==> #[trigger] var@[f] == g(f),
            half == dec::<T>(-5, -1),
            base == num::<T>(nf as int).s_times(log_two_pi()),
            sum_log == sigma(nf as int, |f: int| floored(g(f)).s_ln()),
            r.len() == t,
            forall|k: int|
                0 <= k < t ==> #[trigger] r@[k] == diag_density(x, means, g, k, c as int),
        decreases x.rows.len() - t,
    {
        let q = |f: usize| -> (v: T)
            requires
                f < nf,
                t < x.rows.len(),
                c < means.rows.len(),
                x.has_dims(x.rows.len() as int, nf as int),
                nf == means.ncols,
                means.wf(),
                var.len() == nf,
            ensures
                v == x.at(t as int, f as int).s_minus(means.at(c as int, f as int)).s_times(
                    x.at(t as int, f as int).s_minus(means.at(c as int, f as int)),
                ).s_over(floored(var@[f as int])),
        {
            let d = x.get(t, f).minus(means.get(c, f));
            d.times(d).over(floor_variance(var[f]))
        };
        let quad = sum_of(
            nf,
            q,
            Ghost(
                |f: int|
                    x.at(t as int, f).s_minus(means.at(c as int, f)).s_times(
                        x.at(t as int, f).s_minus(means.at(c as int, f)),
                    ).s_over(floored(g(f))),
            ),
        );
        r.push(half.times(base.plus(sum_log).plus(quad)));
        t += 1;
    }
    r
}

/// The factor that the full density works with.
fn factor_of<T: Dense>(cov: &Matrix<T>) -> (r: Option<Matrix<T>>)
    requires
        cov.has_dims(cov.ncols as int, cov.ncols as int),
    ensures
        match r {
            Some(l) => l.has_dims(cov.ncols as int, cov.ncols as int) && robust_factor(cov@)
                == Some(l@),
            None => robust_factor(cov@) is None,
        },
{
    match T::cholesky(cov) {
        Some(l) => Some(l),
        None => {
            let n: usize = cov.ncols;
            let f = |i: usize, j: usize| -> (v: T)
                requires
                    cov.has_dims(n as int, n as int),
                    i < n,
                    j < n,
                ensures
                    v == jittered(cov@)[i as int][j as int],
            {
                if i == j {
                    cov.get(i, j).plus(T::decimal(1, -7))
                } else {
                    cov.get(i, j)
                }
            };
            let moved = Matrix::tabulate(n, n, f);
            proof {
                assert forall|i: int| 0 <= i < n implies #[trigger] moved@[i] == jittered(cov@)[i] by {
                    assert(moved.rows@[i].len() == n);
                    assert forall|j: int| 0 <= j < n implies #[trigger] moved@[i][j] == jittered(
                        cov@,
                    )[i][j] by {
                        assert(moved.at(i, j) == jittered(cov@)[i][j]);
                    }
                    assert(moved@[i] =~= jittered(cov@)[i]);
                }
                assert(moved@ =~= jittered(cov@));
            }
            T::cholesky(&moved)
        },
    }
}

/// Gaussian log-densities of all rows of `x` in one component with a full
/// covariance matrix.
pub fn density_full<T: Dense>(x: &Matrix<T>, means: &Matrix<T>, c: usize, cov: &Matrix<T>) -> (r: Vec<T>)
    requires
        x.has_dims(x.rows.len() as int, means.ncols as int),
        means.wf(),
        c < means.rows.len(),
        cov.has_dims(means.ncols as int, means.ncols as int),
    ensures
        r.len() == x.rows.len(),
        forall|t: int|
            0 <= t < x.rows.len() ==> #[trigger] r@[t] == full_density(x, means, cov@, t, c as int),
{
    let nf: usize = means.ncols;
    let ns: usize = x.rows.len();
    let l = match factor_of(cov) {
        Some(l) => l,
        None => {
            return crate::matrix::filled(ns, T::neg_inf());
        },
    };
    let base = count::<T>(nf).times(ln_two_pi());
    let log_det = factor_logdet(&l);
    let half = T::decimal(-5, -1);
    let res = |f: usize, t: usize| -> (v: T)
        requires
            f < nf,
            t < x.rows.len(),
            c < means.rows.len(),
            x.has_dims(x.rows.len() as int, nf as int),
            nf == means.ncols,
            means.wf(),
        ensures
            v == x.at(t as int, f as int).s_minus(means.at(c as int, f as int)),
    {
        x.get(t, f).minus(means.get(c, f))
    };
    let resid = Matrix::tabulate(nf, ns, res);
    let sol = solve_lower_triangular(&l, &resid);
    proof {
        assert forall|f: int, t: int| 0 <= f < nf && 0 <= t < ns implies #[trigger] sol.at(f, t)
            == forward_substitution(
            l@,
            |k: int| x.at(t, k).s_minus(means.at(c as int, k)),
            f,
        ) by {
            substitution_ext(
                l@,
                |k: int| resid.at(k, t),
                |k: int| x.at(t, k).s_minus(means.at(c as int, k)),
                f,
            );
        }
    }
    let mut r: Vec<T> = Vec::new();
    let mut t: usize = 0;
    while t < ns
        invariant
            t <= ns,
            ns == x.rows.len(),
            nf == means.ncols,
            sol.has_dims(nf as int, ns as int),
            half == dec::<T>(-5, -1),
            base == num::<T>(nf as int).s_times(log_two_pi()),
            robust_factor(cov@) == Some(l@),
            log_det == log_diagonal(l@),
            forall|f: int, t: int|
                0 <= f < nf && 0 <= t < ns ==> #[trigger] sol.at(f, t) == forward_substitution(
                    l@,
                    |k: int| x.at(t, k).s_minus(means.at(c as int, k)),
                    f,
                ),
            r.len() == t,
            forall|k: int|
                0 <= k < t ==> #[trigger] r@[k] == full_density(x, means, cov@, k, c as int),
        decreases ns - t,
    {
        let ghost ti = t as int;
        let sq = |f: usize| -> (v: T)
            requires
                f < nf,
                t < ns,
                sol.has_dims(nf as int, ns as int),
            ensures
                v == sol.at(f as int, t as int).s_times(sol.at(f as int, t as int)),
        {
            let y = sol.get(f, t);
            y.times(y)
        };
        let ghost g = |f: int|
            {
                let y = forward_substitution(
                    l@,
                    |k: int| x.at(ti, k).s_minus(means.at(c as int, k)),
                    f,
                );
                y.s_times(y)
            };
        assert forall|f: usize, v: T| f < nf && #[trigger] call_ensures(sq, (f,), v) implies v == g(f as int) by {
            assert(v == sol.at(f as int, ti).s_times(sol.at(f as int, ti)));
        }
        let s = sum_of(nf, sq, Ghost(g));
        r.push(half.times(base.plus(s).plus(log_det)));
        t += 1;
    }
    r
}

proof fn substitution_ext<T: Scalar>(
    l: Seq<Seq<T>>,
    a: spec_fn(int) -> T,
    b: spec_fn(int) -> T,
    i: int,
)
    requires
        forall|k: int| 0 <= k <= i ==> #[trigger] a(k) == b(k),
    ensures
        forward_substitution(l, a, i) == forward_substitution(l, b, i),
    decreases i, 1int,
{
    if i >= 0 {
        partial_ext(l, a, b, i, i);
    }
}

proof fn partial_ext<T: Scalar>(
    l: Seq<Seq<T>>,
    a: spec_fn(int) -> T,
    b: spec_fn(int) -> T,
    i: int,
    k: int,
)
    requires
        0 <= k <= i,
        forall|q: int| 0 <= q <= i ==> #[trigger] a(q) == b(q),
    ensures
        crate::linalg::substituted(l, a, i, k) == crate::linalg::substituted(l, b, i, k),
    decreases i, 0int, k,
{
    if k > 0 {
        partial_ext(l, a, b, i, k - 1);
        substitution_ext(l, a, b, k - 1);
    } else {
        assert(a(i) == b(i));
    }
}

/// The log-density of every row of `x` in every component, `(n_samples,
/// n_components)`.
pub fn log_multivariate_normal_density<T: Dense>(
    x: &Matrix<T>,
    means: &Matrix<T>,
    covars: &CovarStore<T>,
) -> (out: Matrix<T>)
    requires
        means.wf(),
        x.has_dims(x.rows.len() as int, means.ncols as int),
        covars.fits(means.rows.len() as int, means.ncols as int),
    ensures
        out.has_dims(x.rows.len() as int, means.rows.len() as int),
        forall|t: int, c: int|
            0 <= t < x.rows.len() && 0 <= c < means.rows.len() ==> #[trigger] out.at(t, c)
                == log_density_at(x, means, covars, t, c),
{
    let nc: usize = means.rows.len();
    let nf: usize = means.ncols;
    let ns: usize = x.rows.len();
    let mut cols: Vec<Vec<T>> = Vec::new();
    let mut c: usize = 0;
    while c < nc
        invariant
            c <= nc,
            nc == means.rows.len(),
            nf == means.ncols,
            ns == x.rows.len(),
            means.wf(),
            x.has_dims(ns as int, nf as int),
            covars.fits(nc as int, nf as int),
            cols.len() == c,
            forall|k: int| 0 <= k < c ==> (#[trigger] cols@[k])@.len() == ns,
            forall|k: int, t: int|
                0 <= k < c && 0 <= t < ns ==> #[trigger] cols@[k]@[t] == log_density_at(
                    x,
                    means,
                    covars,
                    t,
                    k,
                ),
        decreases nc - c,
    {
        let col = match covars {
            CovarStore::Diag(v) => density_diag(
                x,
                means,
                c,
                &v.rows[c],
                Ghost(|f: int| v.at(c as int, f)),
            ),
            CovarStore::Spherical(v) => {
                let var = crate::matrix::filled(nf, v[c]);
                density_diag(x, means, c, &var, Ghost(|f: int| v@[c as int]))
            },
            CovarStore::Full(v) => density_full(x, means, c, &v.items[c]),
            CovarStore::Tied(v) => density_full(x, means, c, v),
        };
        cols.push(col);
        c += 1;
    }
    let f = |t: usize, c: usize| -> (v: T)
        requires
            t < ns,
            c < nc,
            cols.len() == nc,
            forall|k: int| 0 <= k < nc ==> (#[trigger] cols@[k])@.len() == ns,
        ensures
            v == cols@[c as int]@[t as int],
    {
        cols[c][t]
    };
    Matrix::tabulate(ns, nc, f)
}

/// A spherical covariance has the density of the diagonal one that repeats its
/// variance for every feature.
pub proof fn spherical_density_is_diagonal<T: Dense>(
    x: &Matrix<T>,
    means: &Matrix<T>,
    v: Vec<T>,
    d: Matrix<T>,
    t: int,
    c: int,
)
    requires
        d.has_dims(v.len() as int, means.ncols as int),
        forall|s: int, f: int|
            0 <= s < v.len() && 0 <= f < means.ncols ==> #[trigger] d.at(s, f) == v@[s],
        0 <= c < v.len(),
    ensures
        log_density_at(x, means, &CovarStore::Spherical(v), t, c) == log_density_at(
            x,
            means,
            &CovarStore::Diag(d),
            t,
            c,
        ),
{
    let nf = means.ncols as int;
    let a = |f: int| v@[c];
    let b = |f: int| d.at(c, f);
    let dev = |f: int|
        x.at(t, f).s_minus(means.at(c, f)).s_times(x.at(t, f).s_minus(means.at(c, f)));
    sigma_ext(nf, |f: int| floored(a(f)).s_ln(), |f: int| floored(b(f)).s_ln());
    sigma_ext(
        nf,
        |f: int|
            x.at(t, f).s_minus(means.at(c, f)).s_times(x.at(t, f).s_minus(means.at(c, f))).s_over(
                floored(a(f)),
            ),
        |f: int|
            x.at(t, f).s_minus(means.at(c, f)).s_times(x.at(t, f).s_minus(means.at(c, f))).s_over(
                floored(b(f)),
            ),
    );
}

/// A tied covariance has the density of the full ones that repeat its matrix.
pub proof fn tied_density_is_full<T: Dense>(
    x: &Matrix<T>,
    means: &Matrix<T>,
    m: Matrix<T>,
    f: crate::matrix::Cube<T>,
    t: int,
    c: int,
)
    requires
        0 <= c < f.items.len(),
        f.items@[c]@ == m@,
    ensures
        log_density_at(x, means, &CovarStore::Tied(m), t, c) == log_density_at(
            x,
            means,
            &CovarStore::Full(f),
            t,
            c,
        ),
{
}

} // verus!
