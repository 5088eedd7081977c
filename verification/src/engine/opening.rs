//! What the start and transition parameters are initialised to, where arithmetic is
//! exact.

use crate::engine::inference::{uniform_weights, Em, Inference};
use crate::engine::params::{Param, ParamSet};
use crate::engine::variational::Variational;
use crate::linalg::Dense;
use crate::reading::reads_real;
use crate::reals::associates;
use crate::rng::gamma::{dirichlet_draw, dirichlet_draws};
use crate::rng::state::{fresh_state, RngView};
use crate::scalar::{num, Scalar};
use vstd::prelude::*;

verus! {

/// The random state that initialisation starts from.
pub open spec fn opening_state<T>(seed: Option<u32>) -> RngView<T> {
    fresh_state::<T>(
        match seed {
            Some(s) => s,
            None => 0u32,
        },
    )
}

/// `alpha` holds `n` equal weights that sum to 1.
pub open spec fn equal_weights<T>(rd: spec_fn(T) -> real, alpha: Seq<T>, n: int) -> bool {
    &&& alpha.len() == n
    &&& forall|i: int| 0 <= i < n ==> rd(#[trigger] alpha[i]) * n as real == 1real
}

proof fn weights_are_equal<T: Scalar>(rd: spec_fn(T) -> real, n: int)
    requires
        reads_real(rd),
        n >= 1,
    ensures
        equal_weights(rd, uniform_weights::<T>(n), n),
{
    reveal(reads_real);
    assert(rd(num::<T>(n)) == n as real);
    assert(rd(num::<T>(1)) == 1real);
}

/// Start and transition probabilities are initialised by Dirichlet draws under equal
/// weights: that of the start first, then those of all rows, from the random state that
/// the draws before leave.
pub proof fn chain_starts_from_dirichlet_draws<T: Dense>(
    rd: spec_fn(T) -> real,
    em: &Em<T>,
    init: ParamSet,
    seed: Option<u32>,
    n_sequences: int,
    n_samples: int,
    after: &Em<T>,
) -> (alpha: Seq<T>)
    requires
        reads_real(rd),
        em.n_components >= 1,
        em.init_rel(init, seed, n_sequences, n_samples, after),
        init.members().contains(Param::Start),
        init.members().contains(Param::Trans),
    ensures
        equal_weights(rd, alpha, em.n_components as int),
        Some(after.start_prob@) == dirichlet_draw(opening_state::<T>(seed), alpha).1,
        Some(after.trans_mat@) == dirichlet_draws(
            dirichlet_draw(opening_state::<T>(seed), alpha).0,
            alpha,
            em.n_components as int,
        ).1,
{
    weights_are_equal(rd, em.n_components as int);
    uniform_weights::<T>(em.n_components as int)
}

/// The prior that a scalar gives: itself, or one over the number of states without one.
pub open spec fn prior_of<T>(
    rd: spec_fn(T) -> real,
    scalar: Option<T>,
    n: int,
    v: real,
) -> bool {
    match scalar {
        Some(p) => v == rd(p),
        None => v * n as real == 1real,
    }
}

/// Variational priors are initialised to their scalars, posteriors to Dirichlet draws
/// under equal weights: that of the start times the number of sequences, those of the
/// rows so that all rows together are worth as many as there are samples.
pub proof fn posteriors_start_from_dirichlet_draws<T: Dense>(
    rd: spec_fn(T) -> real,
    v: &Variational<T>,
    init: ParamSet,
    seed: Option<u32>,
    n_sequences: int,
    n_samples: int,
    after: &Variational<T>,
    i: int,
    j: int,
) -> (r: (Seq<T>, Seq<T>, Seq<Seq<T>>))
    requires
        reads_real(rd),
        v.n_components >= 1,
        v.init_rel(init, seed, n_sequences, n_samples, after),
        init.members().contains(Param::Start),
        init.members().contains(Param::Trans),
        !v.start_given,
        !v.trans_given,
        !v.start_prior_given,
        !v.trans_prior_given,
        0 <= i < v.n_components,
        0 <= j < v.n_components,
    ensures
        equal_weights(rd, r.0, v.n_components as int),
        Some(r.1) == dirichlet_draw(opening_state::<T>(seed), r.0).1,
        Some(r.2) == dirichlet_draws(
            dirichlet_draw(opening_state::<T>(seed), r.0).0,
            r.0,
            v.n_components as int,
        ).1,
        prior_of(
            rd,
            v.startprob_prior_scalar,
            v.n_components as int,
            rd(after.startprob_prior@[i]),
        ),
        prior_of(
            rd,
            v.transmat_prior_scalar,
            v.n_components as int,
            rd(after.transmat_prior.at(i, j)),
        ),
        r.1.len() == v.n_components ==> rd(after.startprob_posterior@[i]) == rd(r.1[i])
            * n_sequences as real,
        r.2.len() == v.n_components && r.2[i].len() == v.n_components ==> rd(
            after.transmat_posterior.at(i, j),
        ) * v.n_components as real == rd(r.2[i][j]) * n_samples as real,
{
    let n = v.n_components as int;
    weights_are_equal(rd, n);
    let alpha = uniform_weights::<T>(n);
    let start = dirichlet_draw(opening_state::<T>(seed), alpha).1->0;
    let trans = dirichlet_draws(
        dirichlet_draw(opening_state::<T>(seed), alpha).0,
        alpha,
        n,
    ).1->0;
    assert(v.start_draw(init, seed) == dirichlet_draw(opening_state::<T>(seed), alpha));
    let share = num::<T>(n_samples).s_over(num(n));
    assert(after.transmat_posterior.at(i, j) == after.transmat_posterior@[i][j]);
    assert(rd(share) * n as real == n_samples as real && rd(num::<T>(n_sequences))
        == n_sequences as real && rd(num::<T>(1)) == 1real && rd(num::<T>(n)) == n as real) by {
        reveal(reads_real);
        assert(rd(num::<T>(n)) == n as real);
        assert(rd(num::<T>(n_samples)) == n_samples as real);
    }
    if trans.len() == n && trans[i].len() == n {
        associates(rd(trans[i][j]), rd(share), n as real);
        assert(after.transmat_posterior@[i][j] == trans[i][j].s_times(share));
    }
    assert(after.transmat_prior.at(i, j) == after.transmat_prior.at(i, j));
    reveal(reads_real);
    (alpha, start, trans)
}

} // verus!
