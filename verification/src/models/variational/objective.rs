//! What the variational Gaussian model takes off the objective, where arithmetic is
//! exact.

use crate::engine::emission::EmissionModel;
use crate::engine::variational::times_all_rows;
use crate::kl::{multivariate_divergence, wishart_divergence};
use crate::linalg::Dense;
use crate::models::drawing::{kept_matrix, matrix_kept};
use crate::models::variational::gaussian::VariationalGaussianEm;
use crate::models::variational::Dof;
use crate::reading::reads_real;
use crate::reals::rsum;
use crate::scalar::{num, Scalar};
use vstd::prelude::*;

verus! {

/// The degrees of freedom of state `c`.
pub open spec fn freedom<T>(dof: &Dof<T>, c: int) -> T {
    match dof {
        Dof::PerComponent(v) => v@[c],
        Dof::Tied(v) => *v,
    }
}

/// Every entry of `a` times `k`.
pub open spec fn multiple<T: Scalar>(a: Seq<Seq<T>>, k: T) -> Seq<Seq<T>> {
    Seq::new(a.len(), |i: int| Seq::new(a[i].len(), |j: int| a[i][j].s_times(k)))
}

/// What the divergences of state `c` are computed from: `w` is the inverse of the
/// posterior scale, and `q` and `p` are the inverses of the expected precision
/// of the mean under the posterior and the prior, `back` the inverse of `p`.
pub struct StateInverses<T> {
    /// The inverse of the posterior scale.
    pub w: Seq<Seq<T>>,
    /// The covariance of the mean under the posterior.
    pub q: Seq<Seq<T>>,
    /// The covariance of the mean under the prior.
    pub p: Seq<Seq<T>>,
    /// The inverse of that.
    pub back: Seq<Seq<T>>,
}

/// `v` are the inverses of state `c`.
pub open spec fn are_inverses<T: Dense>(
    e: &VariationalGaussianEm<T>,
    c: int,
    v: StateInverses<T>,
) -> bool {
    let precision = multiple(v.w, freedom(&e.dof_posterior->0, c));
    &&& T::s_inverse(kept_matrix(&e.scale_posterior->0, c, e.width())) == Some(v.w)
    &&& T::s_inverse(multiple(precision, e.beta_posterior->0@[c])) == Some(v.q)
    &&& T::s_inverse(multiple(precision, e.beta_prior->0@[c])) == Some(v.p)
    &&& T::s_inverse(v.p) == Some(v.back)
}

/// The divergence of the posterior of the mean of state `c` from its prior.
pub open spec fn mean_divergence_of<T: Dense>(
    e: &VariationalGaussianEm<T>,
    c: int,
    v: StateInverses<T>,
) -> T {
    multivariate_divergence(
        e.means_posterior->0.row_view(c),
        v.q,
        e.means_prior->0.row_view(c),
        v.p,
        v.back,
    )
}

/// The divergence of the posterior of the precision of state `c` from its prior.
pub open spec fn precision_divergence_of<T: Dense>(
    e: &VariationalGaussianEm<T>,
    c: int,
    v: StateInverses<T>,
) -> T {
    wishart_divergence(
        freedom(&e.dof_posterior->0, c),
        kept_matrix(&e.scale_posterior->0, c, e.width()),
        freedom(&e.dof_prior->0, c),
        kept_matrix(&e.scale_prior->0, c, e.width()),
        v.w,
    )
}

proof fn multiple_is<T: Scalar>(a: Seq<Seq<T>>, k: T)
    ensures
        times_all_rows(a, k) == multiple(a, k),
{
    let (x, y) = (times_all_rows(a, k), multiple(a, k));
    assert forall|i: int| 0 <= i < x.len() implies x[i] == y[i] by {
        assert(x[i] =~= y[i]);
    }
    assert(x =~= y);
}

proof fn bound_reads<T: Dense>(
    rd: spec_fn(T) -> real,
    e: &VariationalGaussianEm<T>,
    v: spec_fn(int) -> StateInverses<T>,
    n: int,
)
    requires
        reads_real(rd),
        0 <= n,
        forall|c: int| 0 <= c < n ==> are_inverses(e, c, #[trigger] v(c)),
    ensures
        e.bound_upto(n) is Some,
        rd(e.bound_upto(n)->0) + rsum(n, |c: int| rd(mean_divergence_of(e, c, v(c)))) + rsum(
            n,
            |c: int|
                if e.covariance_type is Tied && c > 0 {
                    0real
                } else {
                    rd(precision_divergence_of(e, c, v(c)))
                },
        ) == 0real,
    decreases n,
{
    reveal(reads_real);
    assert(rd(num::<T>(0)) == 0real);
    if n > 0 {
        bound_reads(rd, e, v, n - 1);
        let c = n - 1;
        let w = v(c).w;
        assert(are_inverses(e, c, v(c)));
        matrix_kept(&e.scale_posterior->0, c, e.width());
        matrix_kept(&e.scale_prior->0, c, e.width());
        let dof = freedom(&e.dof_posterior->0, c);
        multiple_is(w, dof);
        let precision = multiple(w, dof);
        multiple_is(precision, e.beta_posterior->0@[c]);
        multiple_is(precision, e.beta_prior->0@[c]);
        assert(e.dof_posterior->0.at(c) == dof);
        assert(e.dof_prior->0.at(c) == freedom(&e.dof_prior->0, c));
        assert(e.mean_divergence(c) == Some(mean_divergence_of(e, c, v(c))));
    }
}

/// The variational Gaussian model takes off the objective, for every state, the divergence
/// of the posterior of its mean from the prior, the mean's precision being expected, and
/// that of the posterior of its precision from the prior; a tied precision counts once.
pub proof fn gaussians_pay_for_divergence<T: Dense>(
    rd: spec_fn(T) -> real,
    e: &VariationalGaussianEm<T>,
    v: spec_fn(int) -> StateInverses<T>,
)
    requires
        reads_real(rd),
        forall|c: int| 0 <= c < e.n_components ==> are_inverses(e, c, #[trigger] v(c)),
    ensures
        e.contribution() is Some,
        rd(e.contribution()->0) + rsum(
            e.n_components as int,
            |c: int| rd(mean_divergence_of(e, c, v(c))),
        ) + rsum(
            e.n_components as int,
            |c: int|
                if e.covariance_type is Tied && c > 0 {
                    0real
                } else {
                    rd(precision_divergence_of(e, c, v(c)))
                },
        ) == 0real,
{
    bound_reads(rd, e, v, e.n_components as int);
}

} // verus!
