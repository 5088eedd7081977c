//! How many free scalars the models have: as many as entries, less one for every row
//! of entries that sum to 1, a symmetric matrix counting the entries on and above its
//! diagonal.

use crate::counting::saturated;
use crate::covariance::types::CovarianceType;
use crate::engine::emission::EmissionModel;
use crate::engine::fitted::is_total_scalars;
use crate::engine::hmm::Hmm;
use crate::engine::inference::Inference;
use crate::engine::params::{Param, ParamSet};
use crate::linalg::Dense;
use crate::models::categorical::CategoricalEm;
use crate::models::gaussian::{covar_scalars, GaussianEm};
use crate::models::gmm::{mix_covar_scalars, GmmEm};
use crate::models::multinomial::MultinomialEm;
use crate::models::poisson::PoissonEm;
use crate::models::variational::categorical::VariationalCategoricalEm;
use crate::models::variational::gaussian::VariationalGaussianEm;
use vstd::prelude::*;

verus! {

/// How many of the pairs `(k, l)` of the first `n` features have `k <= l`.
pub open spec fn pairs_of(n: int) -> int
    decreases n,
{
    if n <= 0 {
        0
    } else {
        pairs_of(n - 1) + n
    }
}

proof fn twice_pairs(n: int)
    requires
        0 <= n,
    ensures
        2 * pairs_of(n) == n * (n + 1),
    decreases n,
{
    if n > 0 {
        twice_pairs(n - 1);
        assert((n - 1) * (n - 1 + 1) + 2 * n == n * (n + 1)) by (nonlinear_arith);
    } else {
        assert(n * (n + 1) == 0) by (nonlinear_arith)
            requires
                n == 0,
        ;
    }
}

/// A tied covariance has a free scalar for every pair of features, full covariances
/// have those of one tied covariance for every state, diagonal ones a variance for
/// every state and feature, spherical ones a variance for every state. With one
/// feature, full, diagonal and spherical covariances have the same number.
pub proof fn covariances_count_pairs_of_features(nc: int, nf: int)
    requires
        1 <= nc,
        0 <= nf,
    ensures
        covar_scalars(CovarianceType::Tied, nc, nf) == pairs_of(nf),
        covar_scalars(CovarianceType::Full, nc, nf) == nc * covar_scalars(
            CovarianceType::Tied,
            nc,
            nf,
        ),
        covar_scalars(CovarianceType::Diag, nc, nf) == nc * nf,
        covar_scalars(CovarianceType::Spherical, nc, nf) == nc,
        covar_scalars(CovarianceType::Full, nc, 1) == covar_scalars(CovarianceType::Diag, nc, 1),
        covar_scalars(CovarianceType::Diag, nc, 1) == covar_scalars(
            CovarianceType::Spherical,
            nc,
            nf,
        ),
{
    twice_pairs(nf);
    assert(nc * 1 == nc);
}

/// Mixtures have the covariances of as many states as there are mixtures of all
/// states, but for tied ones, which the mixtures of a state share.
pub proof fn mixtures_count_as_states(nc: int, nm: int, nf: int)
    requires
        1 <= nc,
        1 <= nm,
        0 <= nf,
    ensures
        mix_covar_scalars(CovarianceType::Spherical, nc, nm, nf) == nc * nm,
        mix_covar_scalars(CovarianceType::Diag, nc, nm, nf) == (nc * nm) * nf,
        mix_covar_scalars(CovarianceType::Full, nc, nm, nf) == (nc * nm) * pairs_of(nf),
        mix_covar_scalars(CovarianceType::Tied, nc, nm, nf) == nc * pairs_of(nf),
{
    twice_pairs(nf);
}

/// The free scalars of the start distribution and the transition matrix together:
/// `n * n` with the start distribution as one more row, less one.
proof fn chain_scalars(n: int)
    ensures
        (n - 1) + n * (n - 1) == n * n - 1,
{
    assert(n * (n - 1) == n * n - n) by (nonlinear_arith);
}

/// Where all groups are counted, start and transitions have `n * n - 1` free scalars,
/// and the emission has those of the groups that it owns.
proof fn total_splits<T: Dense, E: EmissionModel<T>>(h: &Hmm<T, E>, k: usize) -> (all: ParamSet)
    requires
        is_total_scalars(h, k),
    ensures
        k == saturated(
            h.inference.states() * h.inference.states() - 1 + h.emission.scalars(
                h.inference.states(),
                all,
            ),
        ),
        forall|p: Param| #[trigger]
            E::owned_params().contains(p) ==> all.members().contains(p),
{
    let all = choose|all: ParamSet|
        k == saturated(#[trigger] h.scalars(all)) && all.wf() && (forall|p: Param|
            all.members().contains(p) <==> (p == Param::Start || p == Param::Trans
                || E::owned_params().contains(p)));
    chain_scalars(h.inference.states());
    assert(all.members().contains(Param::Start));
    assert(all.members().contains(Param::Trans));
    all
}

/// A categorical model has, beside its chain, a probability for every state and symbol,
/// less one for every state.
pub proof fn categorical_scalars<T: Dense>(h: &Hmm<T, CategoricalEm<T>>, k: usize)
    requires
        is_total_scalars(h, k),
    ensures
        ({
            let n = h.inference.n_components as int;
            k == saturated(n * n - 1 + (n * h.emission.n_features->0 - n))
        }),
{
    let all = total_splits(h, k);
    let owned = CategoricalEm::<T>::owned_params();
    assert(owned[0] == Param::Emit);
    let (n, m) = (h.inference.n_components as int, h.emission.n_features->0 as int);
    assert(n * (m - 1) == n * m - n) by (nonlinear_arith);
}

/// A variational categorical model has the free scalars of a categorical one.
pub proof fn variational_categorical_scalars<T: Dense>(
    h: &Hmm<T, VariationalCategoricalEm<T>>,
    k: usize,
)
    requires
        is_total_scalars(h, k),
    ensures
        ({
            let n = h.inference.n_components as int;
            k == saturated(n * n - 1 + (n * h.emission.n_features->0 - n))
        }),
{
    let all = total_splits(h, k);
    let owned = VariationalCategoricalEm::<T>::owned_params();
    assert(owned[0] == Param::Emit);
    let (n, m) = (h.inference.n_components as int, h.emission.n_features->0 as int);
    assert(n * (m - 1) == n * m - n) by (nonlinear_arith);
}

/// A multinomial model has, beside its chain, a probability for every state and
/// category, less one for every state.
pub proof fn multinomial_scalars<T: Dense>(h: &Hmm<T, MultinomialEm<T>>, k: usize)
    requires
        is_total_scalars(h, k),
    ensures
        ({
            let n = h.inference.n_components as int;
            k == saturated(n * n - 1 + (n * h.emission.n_features->0 - n))
        }),
{
    let all = total_splits(h, k);
    let owned = MultinomialEm::<T>::owned_params();
    assert(owned[0] == Param::Emit);
    let (n, m) = (h.inference.n_components as int, h.emission.n_features->0 as int);
    assert(n * (m - 1) == n * m - n) by (nonlinear_arith);
}

/// A Poisson model has, beside its chain, a rate for every state and feature.
pub proof fn poisson_scalars<T: Dense>(h: &Hmm<T, PoissonEm<T>>, k: usize)
    requires
        is_total_scalars(h, k),
    ensures
        ({
            let n = h.inference.n_components as int;
            k == saturated(n * n - 1 + n * h.emission.n_features->0)
        }),
{
    let all = total_splits(h, k);
    let owned = PoissonEm::<T>::owned_params();
    assert(owned[0] == Param::Lambdas);
}

/// The free scalars of covariances over `nf` features, for `n` matrices of which `m`
/// differ where they are tied.
pub open spec fn matrices_scalars(t: CovarianceType, n: int, m: int, nf: int) -> int {
    match t {
        CovarianceType::Spherical => n,
        CovarianceType::Diag => n * nf,
        CovarianceType::Full => n * pairs_of(nf),
        CovarianceType::Tied => m * pairs_of(nf),
    }
}

/// A Gaussian model has, beside its chain, a mean for every state and feature, and its
/// covariances.
pub proof fn gaussian_scalars<T: Dense>(h: &Hmm<T, GaussianEm<T>>, k: usize)
    requires
        is_total_scalars(h, k),
        h.inference.n_components >= 1,
    ensures
        ({
            let n = h.inference.n_components as int;
            let nf = h.emission.n_features->0 as int;
            k == saturated(
                n * n - 1 + n * nf + matrices_scalars(h.emission.covariance_type, n, 1, nf),
            )
        }),
{
    let all = total_splits(h, k);
    let owned = GaussianEm::<T>::owned_params();
    assert(owned[0] == Param::Means);
    assert(owned[1] == Param::Covars);
    covariances_count_pairs_of_features(
        h.inference.n_components as int,
        h.emission.n_features->0 as int,
    );
}

/// A mixture model has, beside its chain, a mean for every mixture and feature, a
/// weight for every mixture less one for every state, and its covariances.
pub proof fn mixture_scalars<T: Dense>(h: &Hmm<T, GmmEm<T>>, k: usize)
    requires
        is_total_scalars(h, k),
        h.inference.n_components >= 1,
        h.emission.n_mix >= 1,
    ensures
        ({
            let n = h.inference.n_components as int;
            let m = n * h.emission.n_mix;
            let nf = h.emission.n_features->0 as int;
            k == saturated(
                n * n - 1 + m * nf + (m - n) + matrices_scalars(
                    h.emission.covariance_type,
                    m,
                    n,
                    nf,
                ),
            )
        }),
{
    let all = total_splits(h, k);
    let owned = GmmEm::<T>::owned_params();
    assert(owned[0] == Param::Means);
    assert(owned[1] == Param::Covars);
    assert(owned[2] == Param::Weights);
    let (n, nm) = (h.inference.n_components as int, h.emission.n_mix as int);
    assert(n * (nm - 1) == n * nm - n) by (nonlinear_arith);
    mixtures_count_as_states(n, nm, h.emission.n_features->0 as int);
}

/// A variational Gaussian model has, beside what a Gaussian one has, a precision scale
/// for every state, and degrees of freedom for every state or, tied, for all.
pub proof fn variational_gaussian_scalars<T: Dense>(
    h: &Hmm<T, VariationalGaussianEm<T>>,
    k: usize,
)
    requires
        is_total_scalars(h, k),
        h.inference.n_components >= 1,
    ensures
        ({
            let n = h.inference.n_components as int;
            let nf = h.emission.n_features->0 as int;
            let dofs = if h.emission.covariance_type == CovarianceType::Tied {
                1int
            } else {
                n
            };
            k == saturated(
                n * n - 1 + n * (nf + 1) + dofs + matrices_scalars(
                    h.emission.covariance_type,
                    n,
                    1,
                    nf,
                ),
            )
        }),
{
    let all = total_splits(h, k);
    let owned = VariationalGaussianEm::<T>::owned_params();
    assert(owned[0] == Param::Means);
    assert(owned[1] == Param::Covars);
    let (n, nf) = (h.inference.n_components as int, h.emission.n_features->0 as int);
    assert(n * (nf + 1) == n * nf + n) by (nonlinear_arith);
    covariances_count_pairs_of_features(n, nf);
}

} // verus!
