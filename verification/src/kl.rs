//! Kullback-Leibler divergences used by the variational models.
//!
//! Distributions are Dirichlet, (multivariate) Normal, Gamma, and Wishart.

use crate::linalg::{inv, log_determinant, logdet, Dense};
use crate::matrix::Matrix;
use crate::scalar::{
    count, dec, from_on, grown, lane, lanes, lanes_of, negate, negative, num, paired_lanes, sigma,
    sigma_ext, sum, sum_of, total, Scalar,
};
use crate::special::{digamma, digamma_of};
use vstd::prelude::*;

verus! {

/// `KL(q, p)` of two Dirichlet distributions.
pub open spec fn dirichlet_divergence<T: Scalar>(q: Seq<T>, p: Seq<T>) -> T {
    let n = q.len() as int;
    total(q).s_ln_gamma().s_minus(total(p).s_ln_gamma()).s_minus(
        sigma(n, |i: int| q[i].s_ln_gamma().s_minus(p[i].s_ln_gamma())),
    ).s_plus(
        sigma(
            n,
            |i: int|
                q[i].s_minus(p[i]).s_times(digamma_of(q[i]).s_minus(digamma_of(total(q)))),
        ),
    )
}

/// `KL(q, p)` of two Dirichlet distributions.
pub fn kl_dirichlet<T: Scalar>(q: &Vec<T>, p: &Vec<T>) -> (r: T)
    requires
        q.len() == p.len(),
    ensures
        r == dirichlet_divergence(q@, p@),
{
    let qsum = sum(q);
    let psum = sum(p);
    let dg = digamma(qsum);
    let f = |i: usize| -> (v: T)
        requires
            i < q.len(),
            q.len() == p.len(),
        ensures
            v == q@[i as int].s_ln_gamma().s_minus(p@[i as int].s_ln_gamma()),
    {
        q[i].ln_gamma().minus(p[i].ln_gamma())
    };
    let term_gamma = sum_of(
        q.len(),
        f,
        Ghost(|i: int| q@[i].s_ln_gamma().s_minus(p@[i].s_ln_gamma())),
    );
    let g = |i: usize| -> (v: T)
        requires
            i < q.len(),
            q.len() == p.len(),
        ensures
            v == q@[i as int].s_minus(p@[i as int]).s_times(digamma_of(q@[i as int]).s_minus(dg)),
    {
        q[i].minus(p[i]).times(digamma(q[i]).minus(dg))
    };
    let term_e = sum_of(
        q.len(),
        g,
        Ghost(
            |i: int|
                q@[i].s_minus(p@[i]).s_times(digamma_of(q@[i]).s_minus(digamma_of(total(q@)))),
        ),
    );
    qsum.ln_gamma().minus(psum.ln_gamma()).minus(term_gamma).plus(term_e)
}

/// `KL(q, p)` of two normal distributions, given by mean and variance.
pub open spec fn normal_divergence<T: Scalar>(mean_q: T, var_q: T, mean_p: T, var_p: T) -> T {
    let d = mean_q.s_minus(mean_p);
    var_p.s_over(var_q).s_ln().s_over(num(2)).s_plus(
        d.s_times(d).s_plus(var_q).s_over(num::<T>(2).s_times(var_p)),
    ).s_minus(dec(5, -1))
}

/// `KL(q, p)` of two normal distributions.
pub fn kl_normal<T: Scalar>(mean_q: T, variance_q: T, mean_p: T, variance_p: T) -> (r: T)
    ensures
        r == normal_divergence(mean_q, variance_q, mean_p, variance_p),
{
    let d = mean_q.minus(mean_p);
    variance_p.over(variance_q).ln().over(T::of_int(2)).plus(
        d.times(d).plus(variance_q).over(T::of_int(2).times(variance_p)),
    ).minus(T::decimal(5, -1))
}

/// The trace of `a b`.
pub open spec fn trace_of_product<T: Scalar>(a: Seq<Seq<T>>, b: Seq<Seq<T>>) -> T {
    let n = a.len() as int;
    sigma(n, |i: int| sigma(n, |k: int| a[i][k].s_times(b[k][i])))
}

/// The trace of `a b`, for square matrices of one size.
pub fn trace_product<T: Scalar>(a: &Matrix<T>, b: &Matrix<T>) -> (r: T)
    requires
        a.has_dims(a.ncols as int, a.ncols as int),
        b.has_dims(a.ncols as int, a.ncols as int),
    ensures
        r == trace_of_product(a@, b@),
{
    let n: usize = a.ncols;
    let f = |i: usize| -> (v: T)
        requires
            i < n,
            a.has_dims(n as int, n as int),
            b.has_dims(n as int, n as int),
        ensures
            v == sigma(n as int, |k: int| a@[i as int][k].s_times(b@[k][i as int])),
    {
        row_by_column(a, b, i)
    };
    sum_of(n, f, Ghost(|i: int| sigma(n as int, |k: int| a@[i][k].s_times(b@[k][i]))))
}

fn row_by_column<T: Scalar>(a: &Matrix<T>, b: &Matrix<T>, i: usize) -> (r: T)
    requires
        a.has_dims(a.ncols as int, a.ncols as int),
        b.has_dims(a.ncols as int, a.ncols as int),
        i < a.ncols,
    ensures
        r == sigma(a.ncols as int, |k: int| a@[i as int][k].s_times(b@[k][i as int])),
{
    let n: usize = a.ncols;
    let f = |k: usize| -> (v: T)
        requires
            i < n,
            k < n,
            a.has_dims(n as int, n as int),
            b.has_dims(n as int, n as int),
        ensures
            v == a@[i as int][k as int].s_times(b@[k as int][i as int]),
    {
        a.get(i, k).times(b.get(k, i))
    };
    sum_of(n, f, Ghost(|k: int| a@[i as int][k].s_times(b@[k][i as int])))
}

/// `d^T a d`, every product of vectors added in lanes.
pub open spec fn quadratic_form<T: Scalar>(a: Seq<Seq<T>>, d: Seq<T>) -> T {
    let n = d.len() as int;
    lanes(n, |i: int| d[i].s_times(lanes(n, |k: int| a[i][k].s_times(d[k]))))
}

/// `d^T a d`.
pub fn quadratic<T: Scalar>(a: &Matrix<T>, d: &Vec<T>) -> (r: T)
    requires
        a.has_dims(d.len() as int, d.len() as int),
    ensures
        r == quadratic_form(a@, d@),
{
    let n: usize = d.len();
    let f = |i: usize| -> (v: T)
        requires
            i < n,
            d.len() == n,
            a.has_dims(n as int, n as int),
        ensures
            v == d@[i as int].s_times(lanes(n as int, |k: int| a@[i as int][k].s_times(d@[k]))),
    {
        d[i].times(row_by_vector(a, d, i))
    };
    lanes_of(
        n,
        f,
        Ghost(|i: int| d@[i].s_times(lanes(n as int, |k: int| a@[i][k].s_times(d@[k])))),
    )
}

fn row_by_vector<T: Scalar>(a: &Matrix<T>, d: &Vec<T>, i: usize) -> (r: T)
    requires
        a.has_dims(d.len() as int, d.len() as int),
        i < d.len(),
    ensures
        r == lanes(d.len() as int, |k: int| a@[i as int][k].s_times(d@[k])),
{
    let n: usize = d.len();
    let f = |k: usize| -> (v: T)
        requires
            i < n,
            k < n,
            d.len() == n,
            a.has_dims(n as int, n as int),
        ensures
            v == a@[i as int][k as int].s_times(d@[k as int]),
    {
        a.get(i, k).times(d[k])
    };
    lanes_of(n, f, Ghost(|k: int| a@[i as int][k].s_times(d@[k])))
}

/// Entry by entry difference.
pub open spec fn difference<T: Scalar>(a: Seq<T>, b: Seq<T>) -> Seq<T> {
    Seq::new(a.len(), |i: int| a[i].s_minus(b[i]))
}

/// Entry by entry difference.
pub fn subtracted<T: Scalar>(a: &Vec<T>, b: &Vec<T>) -> (r: Vec<T>)
    requires
        a.len() == b.len(),
    ensures
        r@ == difference(a@, b@),
{
    let f = |i: usize| -> (v: T)
        requires
            i < a.len(),
            a.len() == b.len(),
        ensures
            v == a@[i as int].s_minus(b@[i as int]),
    {
        a[i].minus(b[i])
    };
    let r = crate::matrix::tabulate(a.len(), f);
    proof {
        assert(r@ =~= difference(a@, b@));
    }
    r
}

/// `KL(q, p)` of two multivariate normals, given the inverse of `p`'s covariance.
pub open spec fn multivariate_divergence<T: Dense>(
    mean_q: Seq<T>,
    covar_q: Seq<Seq<T>>,
    mean_p: Seq<T>,
    covar_p: Seq<Seq<T>>,
    precision_p: Seq<Seq<T>>,
) -> T {
    dec::<T>(5, -1).s_times(
        log_determinant(covar_p).s_minus(log_determinant(covar_q)).s_plus(
            trace_of_product(precision_p, covar_q),
        ).s_plus(quadratic_form(precision_p, difference(mean_q, mean_p))).s_minus(
            num(mean_q.len() as int),
        ),
    )
}

/// `KL(q, p)` of two multivariate normals; `None` where `p`'s covariance is
/// singular.
pub fn kl_multivariate_normal<T: Dense>(
    mean_q: &Vec<T>,
    covar_q: &Matrix<T>,
    mean_p: &Vec<T>,
    covar_p: &Matrix<T>,
) -> (r: Option<T>)
    requires
        mean_q.len() == mean_p.len(),
        covar_q.has_dims(mean_q.len() as int, mean_q.len() as int),
        covar_p.has_dims(mean_q.len() as int, mean_q.len() as int),
    ensures
        r == match T::s_inverse(covar_p@) {
            Some(precision) => Some(
                multivariate_divergence(mean_q@, covar_q@, mean_p@, covar_p@, precision),
            ),
            None => None,
        },
{
    match inv(covar_p) {
        None => None,
        Some(precision) => {
            let diff = subtracted(mean_q, mean_p);
            Some(
                T::decimal(5, -1).times(
                    logdet(covar_p).minus(logdet(covar_q)).plus(
                        trace_product(&precision, covar_q),
                    ).plus(quadratic(&precision, &diff)).minus(count(mean_q.len())),
                ),
            )
        },
    }
}

/// `KL(q, p)` of two gamma distributions, given by shape `b` and scale `c`.
pub open spec fn gamma_divergence<T: Scalar>(b_q: T, c_q: T, b_p: T, c_p: T) -> T {
    b_q.s_minus(b_p).s_times(digamma_of(b_q)).s_minus(b_q.s_ln_gamma()).s_plus(
        b_p.s_ln_gamma(),
    ).s_plus(b_p.s_times(c_p.s_ln().s_minus(c_q.s_ln()))).s_plus(
        b_q.s_times(c_q.s_minus(c_p)).s_over(c_p),
    )
}

/// `KL(q, p)` of two gamma distributions, given by shape `b` and scale `c`.
pub fn kl_gamma<T: Scalar>(b_q: T, c_q: T, b_p: T, c_p: T) -> (r: T)
    ensures
        r == gamma_divergence(b_q, c_q, b_p, c_p),
{
    b_q.minus(b_p).times(digamma(b_q)).minus(b_q.ln_gamma()).plus(b_p.ln_gamma()).plus(
        b_p.times(c_p.ln().minus(c_q.ln())),
    ).plus(b_q.times(c_q.minus(c_p)).over(c_p))
}

/// Half of every entry.
pub open spec fn halved<T: Scalar>(a: Seq<Seq<T>>) -> Seq<Seq<T>> {
    Seq::new(a.len(), |i: int| Seq::new(a[i].len(), |j: int| a[i][j].s_over(num(2))))
}

/// Half of every entry.
pub fn halve<T: Scalar>(a: &Matrix<T>) -> (r: Matrix<T>)
    requires
        a.wf(),
    ensures
        r.has_dims(a.rows.len() as int, a.ncols as int),
        r@ == halved(a@),
{
    let f = |i: usize, j: usize| -> (v: T)
        requires
            a.wf(),
            i < a.rows.len(),
            j < a.ncols,
        ensures
            v == a.at(i as int, j as int).s_over(num(2)),
    {
        a.get(i, j).over(T::of_int(2))
    };
    let r = Matrix::tabulate(a.rows.len(), a.ncols, f);
    proof {
        assert forall|i: int| 0 <= i < a.rows.len() implies #[trigger] r@[i] == halved(a@)[i] by {
            assert(r.rows@[i].len() == a.ncols);
            assert(a.rows@[i].len() == a.ncols);
            assert forall|j: int| 0 <= j < a.ncols implies #[trigger] r@[i][j] == halved(a@)[i][j] by {
                assert(r.at(i, j) == a.at(i, j).s_over(num(2)));
            }
            assert(r@[i] =~= halved(a@)[i]);
        }
        assert(r@ =~= halved(a@));
    }
    r
}

/// The expected log-determinant under a Wishart distribution.
pub open spec fn wishart_expectation<T: Dense>(dof: T, scale: Seq<Seq<T>>) -> T {
    negative(log_determinant(halved(scale))).s_plus(
        sigma(
            scale.len() as int,
            |i: int| digamma_of(dof.s_minus(num(i)).s_over(num(2))),
        ),
    )
}

/// The log-normaliser of a Wishart distribution.
pub open spec fn wishart_normalizer<T: Dense>(dof: T, scale: Seq<Seq<T>>) -> T {
    let d = num::<T>(scale.len() as int);
    d.s_times(d.s_minus(num(1))).s_over(num(4)).s_times(T::s_pi().s_ln()).s_minus(
        dof.s_over(num(2)).s_times(log_determinant(halved(scale))),
    ).s_plus(
        sigma(
            scale.len() as int,
            |i: int| dof.s_minus(num(i)).s_over(num(2)).s_ln_gamma(),
        ),
    )
}

/// The expected log-determinant under a Wishart distribution.
fn wishart_e<T: Dense>(dof: T, scale: &Matrix<T>) -> (r: T)
    requires
        scale.has_dims(scale.ncols as int, scale.ncols as int),
    ensures
        r == wishart_expectation(dof, scale@),
{
    let d: usize = scale.ncols;
    let half = halve(scale);
    let f = |i: usize| -> (v: T)
        ensures
            v == digamma_of(dof.s_minus(num(i as int)).s_over(num(2))),
    {
        digamma(dof.minus(count(i)).over(T::of_int(2)))
    };
    let dg = sum_of(d, f, Ghost(|i: int| digamma_of(dof.s_minus(num(i)).s_over(num(2)))));
    negate(logdet(&half)).plus(dg)
}

/// The log-normaliser of a Wishart distribution.
fn wishart_logz<T: Dense>(dof: T, scale: &Matrix<T>) -> (r: T)
    requires
        scale.has_dims(scale.ncols as int, scale.ncols as int),
    ensures
        r == wishart_normalizer(dof, scale@),
{
    let n: usize = scale.ncols;
    let half = halve(scale);
    let f = |i: usize| -> (v: T)
        ensures
            v == dof.s_minus(num(i as int)).s_over(num(2)).s_ln_gamma(),
    {
        dof.minus(count(i)).over(T::of_int(2)).ln_gamma()
    };
    let lg = sum_of(n, f, Ghost(|i: int| dof.s_minus(num(i)).s_over(num(2)).s_ln_gamma()));
    let d = count::<T>(n);
    d.times(d.minus(T::of_int(1))).over(T::of_int(4)).times(T::pi().ln()).minus(
        dof.over(T::of_int(2)).times(logdet(&half)),
    ).plus(lg)
}

/// `KL(q, p)` of two Wishart distributions, given the inverse of `q`'s scale.
pub open spec fn wishart_divergence<T: Dense>(
    dof_q: T,
    scale_q: Seq<Seq<T>>,
    dof_p: T,
    scale_p: Seq<Seq<T>>,
    inverse_q: Seq<Seq<T>>,
) -> T {
    let d = num::<T>(scale_p.len() as int);
    dof_q.s_minus(dof_p).s_over(num(2)).s_times(wishart_expectation(dof_q, scale_q)).s_minus(
        d.s_times(dof_q).s_over(num(2)),
    ).s_plus(
        dof_q.s_over(num(2)).s_times(trace_of_product(scale_p, inverse_q)),
    ).s_plus(wishart_normalizer(dof_p, scale_p)).s_minus(wishart_normalizer(dof_q, scale_q))
}

/// `KL(q, p)` of two Wishart distributions; `None` where `q`'s scale is singular.
pub fn kl_wishart<T: Dense>(dof_q: T, scale_q: &Matrix<T>, dof_p: T, scale_p: &Matrix<T>) -> (r:
    Option<T>)
    requires
        scale_p.has_dims(scale_p.ncols as int, scale_p.ncols as int),
        scale_q.has_dims(scale_p.ncols as int, scale_p.ncols as int),
    ensures
        r == match T::s_inverse(scale_q@) {
            Some(inverse) => Some(
                wishart_divergence(dof_q, scale_q@, dof_p, scale_p@, inverse),
            ),
            None => None,
        },
{
    match inv(scale_q) {
        None => None,
        Some(inverse) => {
            let d = count::<T>(scale_p.ncols);
            let two = T::of_int(2);
            Some(
                dof_q.minus(dof_p).over(two).times(wishart_e(dof_q, scale_q)).minus(
                    d.times(dof_q).over(two),
                ).plus(
                    dof_q.over(two).times(trace_product(scale_p, &inverse)),
                ).plus(wishart_logz(dof_p, scale_p)).minus(wishart_logz(dof_q, scale_q)),
            )
        },
    }
}

/// Subtraction cancels and zero is neutral and absorbing, as in exact
/// arithmetic.
pub open spec fn cancels<T: Scalar>() -> bool {
    &&& forall|a: T| #[trigger] a.s_minus(a) == num::<T>(0)
    &&& forall|a: T| #[trigger] num::<T>(0).s_times(a) == num::<T>(0)
    &&& forall|a: T| #[trigger] a.s_plus(num(0)) == a
    &&& forall|a: T| #[trigger] a.s_minus(num(0)) == a
}

/// The divergence of a Dirichlet distribution from itself is zero, wherever
/// subtraction cancels.
pub proof fn dirichlet_self_divergence<T: Scalar>(q: Seq<T>)
    requires
        cancels::<T>(),
    ensures
        dirichlet_divergence(q, q) == num::<T>(0),
{
    let n = q.len() as int;
    zero_sum(n, |i: int| q[i].s_ln_gamma().s_minus(q[i].s_ln_gamma()));
    zero_sum(
        n,
        |i: int|
            q[i].s_minus(q[i]).s_times(digamma_of(q[i]).s_minus(digamma_of(total(q)))),
    );
}

proof fn zero_sum<T: Scalar>(n: int, f: spec_fn(int) -> T)
    requires
        cancels::<T>(),
        forall|i: int| 0 <= i < n ==> #[trigger] f(i) == num::<T>(0),
    ensures
        sigma(n, f) == num::<T>(0),
    decreases n,
{
    if n > 0 {
        zero_sum(n - 1, f);
        assert(f(n - 1) == num::<T>(0));
        assert(num::<T>(0).s_plus(num(0)) == num::<T>(0));
    }
}

proof fn zero_lanes<T: Scalar>(n: int, f: spec_fn(int) -> T)
    requires
        cancels::<T>(),
        0 <= n,
        forall|i: int| 0 <= i < n ==> #[trigger] f(i) == num::<T>(0),
    ensures
        lanes(n, f) == num::<T>(0),
{
    let b = n / 8;
    let p = |k: int| sigma(b, lane(f, k));
    assert forall|k: int| 0 <= k < 8 implies #[trigger] p(k) == num::<T>(0) by {
        assert forall|i: int| 0 <= i < b implies #[trigger] lane(f, k)(i) == num::<T>(0) by {
            assert(f(8 * i + k) == num::<T>(0));
        }
        zero_sum(b, lane(f, k));
    }
    assert(num::<T>(0).s_plus(num(0)) == num::<T>(0));
    assert(p(0) == num::<T>(0) && p(1) == num::<T>(0) && p(2) == num::<T>(0) && p(3) == num::<T>(
        0,
    ));
    assert(p(4) == num::<T>(0) && p(5) == num::<T>(0) && p(6) == num::<T>(0) && p(7) == num::<T>(
        0,
    ));
    assert(paired_lanes(b, f) == num::<T>(0));
    assert forall|i: int| 0 <= i < n % 8 implies #[trigger] from_on(f, 8 * b)(i) == num::<T>(0) by {
        assert(f(8 * b + i) == num::<T>(0));
    }
    zero_grown(n % 8, from_on(f, 8 * b));
}

proof fn zero_grown<T: Scalar>(n: int, f: spec_fn(int) -> T)
    requires
        cancels::<T>(),
        forall|i: int| 0 <= i < n ==> #[trigger] f(i) == num::<T>(0),
    ensures
        grown(num::<T>(0), n, f) == num::<T>(0),
    decreases n,
{
    if n > 0 {
        zero_grown(n - 1, f);
        assert(f(n - 1) == num::<T>(0));
        assert(num::<T>(0).s_plus(num(0)) == num::<T>(0));
    }
}

/// Beside what [`cancels`] says, zero adds nothing, annuls on either side, and what
/// is subtracted from it can be added back.
pub open spec fn zero_is_neutral<T: Scalar>() -> bool {
    &&& cancels::<T>()
    &&& forall|a: T| #[trigger] num::<T>(0).s_plus(a) == a
    &&& forall|a: T| #[trigger] a.s_times(num(0)) == num::<T>(0)
    &&& forall|a: T| #[trigger] num::<T>(0).s_minus(a).s_plus(a) == num::<T>(0)
}

/// The divergence of a gamma distribution from itself is zero, wherever zero is
/// neutral and zero divided by the scale is zero.
pub proof fn gamma_self_divergence<T: Scalar>(b: T, c: T)
    requires
        zero_is_neutral::<T>(),
        num::<T>(0).s_over(c) == num::<T>(0),
    ensures
        gamma_divergence(b, c, b, c) == num::<T>(0),
{
    let zero = num::<T>(0);
    assert(b.s_minus(b) == zero);
    assert(zero.s_times(digamma_of(b)) == zero);
    assert(zero.s_minus(b.s_ln_gamma()).s_plus(b.s_ln_gamma()) == zero);
    assert(c.s_ln().s_minus(c.s_ln()) == zero);
    assert(b.s_times(zero) == zero);
    assert(c.s_minus(c) == zero);
    assert(zero.s_plus(zero) == zero);
}

/// The divergence of a normal distribution from itself is zero, wherever zero is
/// neutral and the variance divides itself and its double exactly.
pub proof fn normal_self_divergence<T: Scalar>(mean: T, variance: T)
    requires
        zero_is_neutral::<T>(),
        variance.s_over(variance) == num::<T>(1),
        num::<T>(1).s_ln() == num::<T>(0),
        num::<T>(0).s_over(num(2)) == num::<T>(0),
        variance.s_over(num::<T>(2).s_times(variance)) == dec::<T>(5, -1),
    ensures
        normal_divergence(mean, variance, mean, variance) == num::<T>(0),
{
    let zero = num::<T>(0);
    let half = dec::<T>(5, -1);
    assert(mean.s_minus(mean) == zero);
    assert(zero.s_times(zero) == zero);
    assert(zero.s_plus(variance) == variance);
    assert(zero.s_plus(half) == half);
    assert(half.s_minus(half) == zero);
}

/// Diagonal entry `i` of `b a`.
pub open spec fn diagonal_of_product<T: Scalar>(b: Seq<Seq<T>>, a: Seq<Seq<T>>, i: int) -> T {
    sigma(b.len() as int, |k: int| b[i][k].s_times(a[k][i]))
}

/// `b` is the inverse of `a`, as far as the diagonal of `b a` and the sum of its
/// ones show.
pub open spec fn inverts_diagonal<T: Scalar>(b: Seq<Seq<T>>, a: Seq<Seq<T>>) -> bool {
    let n = b.len() as int;
    &&& forall|i: int|
        0 <= i < n ==> #[trigger] diagonal_of_product(b, a, i) == num::<T>(1)
    &&& sigma(n, |i: int| num::<T>(1)) == num::<T>(n)
}

proof fn trace_of_inverse<T: Scalar>(b: Seq<Seq<T>>, a: Seq<Seq<T>>)
    requires
        inverts_diagonal(b, a),
    ensures
        trace_of_product(b, a) == num::<T>(b.len() as int),
{
    let n = b.len() as int;
    let f = |i: int| sigma(n, |k: int| b[i][k].s_times(a[k][i]));
    let one = |i: int| num::<T>(1);
    assert forall|i: int| 0 <= i < n implies #[trigger] f(i) == one(i) by {
        assert(diagonal_of_product(b, a, i) == num::<T>(1));
    }
    sigma_ext(n, f, one);
}

/// The divergence of a multivariate normal from itself is zero, wherever zero is
/// neutral and the inverse of the covariance is exact.
pub proof fn multivariate_self_divergence<T: Dense>(
    mean: Seq<T>,
    covar: Seq<Seq<T>>,
    precision: Seq<Seq<T>>,
)
    requires
        zero_is_neutral::<T>(),
        precision.len() == mean.len(),
        inverts_diagonal(precision, covar),
    ensures
        multivariate_divergence(mean, covar, mean, covar, precision) == num::<T>(0),
{
    let zero = num::<T>(0);
    let n = mean.len() as int;
    let d = difference(mean, mean);
    trace_of_inverse(precision, covar);
    let f = |i: int| d[i].s_times(lanes(n, |k: int| precision[i][k].s_times(d[k])));
    assert forall|i: int| 0 <= i < n implies #[trigger] f(i) == zero by {
        assert(mean[i].s_minus(mean[i]) == zero);
        assert(d[i] == zero);
    }
    zero_lanes(n, f);
    let det = log_determinant(covar);
    assert(det.s_minus(det) == zero);
    assert(zero.s_plus(num(n)) == num::<T>(n));
    assert(num::<T>(n).s_plus(zero) == num::<T>(n));
    assert(num::<T>(n).s_minus(num(n)) == zero);
}

/// The divergence of a Wishart distribution from itself is zero, wherever zero is
/// neutral, the inverse of the scale is exact, and half the degrees of freedom times
/// the dimension is half of their product.
pub proof fn wishart_self_divergence<T: Dense>(dof: T, scale: Seq<Seq<T>>, inverse: Seq<Seq<T>>)
    requires
        zero_is_neutral::<T>(),
        inverts_diagonal(scale, inverse),
        num::<T>(0).s_over(num(2)) == num::<T>(0),
        num::<T>(scale.len() as int).s_times(dof).s_over(num(2)) == dof.s_over(num(2)).s_times(
            num(scale.len() as int),
        ),
    ensures
        wishart_divergence(dof, scale, dof, scale, inverse) == num::<T>(0),
{
    let zero = num::<T>(0);
    let w = wishart_normalizer(dof, scale);
    let half = dof.s_over(num(2)).s_times(num(scale.len() as int));
    trace_of_inverse(scale, inverse);
    assert(dof.s_minus(dof) == zero);
    assert(zero.s_times(wishart_expectation(dof, scale)) == zero);
    assert(zero.s_minus(half).s_plus(half) == zero);
    assert(zero.s_plus(w) == w);
    assert(w.s_minus(w) == zero);
}

} // verus!
