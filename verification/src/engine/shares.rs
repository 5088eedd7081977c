//! Probabilities as shares: what the updates of the start and transition parameters
//! make of expected counts, where arithmetic is exact.

use crate::engine::agreement::{exact_logs, log_constants, log_subtracted};
use crate::engine::inference::{
    normalized_rows, updated_count, updated_transitions, CoreStats, Em, Inference,
};
use crate::engine::params::{Param, ParamSet};
use crate::engine::variational::{bound_upto, Variational};
use crate::exact::exact_numbers;
use crate::kl::dirichlet_divergence;
use crate::linalg::Dense;
use crate::matrix::{row_total, Matrix};
use crate::reading::{real_lanes, real_sums, reads_real};
use crate::reals::{rsum, rsum_ext};
use crate::scalar::{num, total, Scalar};
use crate::special::digamma_of;
use crate::util::normalized;
use vstd::prelude::*;

verus! {

/// `p` holds the shares of `counts` in their sum; the counts themselves where they sum
/// to nothing.
pub open spec fn are_shares(
    p: spec_fn(int) -> real,
    counts: spec_fn(int) -> real,
    n: int,
) -> bool {
    forall|i: int|
        0 <= i < n ==> if rsum(n, counts) != 0real {
            #[trigger] p(i) * rsum(n, counts) == counts(i)
        } else {
            p(i) == counts(i)
        }
}

/// An expected count under a Dirichlet prior: the prior adds itself less one, what
/// falls below zero counts as nothing.
pub open spec fn with_prior(prior: real, count: real) -> real {
    if prior - 1real + count > 0real {
        prior - 1real + count
    } else {
        0real
    }
}

/// A count with its prior, nothing where the parameter that it updates is zero.
pub open spec fn kept_with_prior(prior: real, count: real, current: real) -> real {
    if current == 0real {
        0real
    } else {
        with_prior(prior, count)
    }
}

proof fn count_reads<T: Scalar>(rd: spec_fn(T) -> real, prior: T, s: T, current: T)
    requires
        reads_real(rd),
    ensures
        rd(updated_count(prior, s, current)) == kept_with_prior(rd(prior), rd(s), rd(current)),
{
    reveal(reads_real);
    assert(rd(num::<T>(0)) == 0real);
    assert(rd(num::<T>(1)) == 1real);
}

/// The rows of a normalised matrix are shares of the rows that it was made of.
pub proof fn normalized_row_is_shares<T: Scalar>(
    rd: spec_fn(T) -> real,
    a: &Matrix<T>,
    b: &Matrix<T>,
    i: int,
)
    requires
        reads_real(rd),
        normalized_rows(a, b),
        0 <= i < a.rows.len(),
    ensures
        are_shares(|j: int| rd(b.at(i, j)), |j: int| rd(a.at(i, j)), a.ncols as int),
{
    let n = a.ncols as int;
    let f = |j: int| a.at(i, j);
    let counts = |j: int| rd(a.at(i, j));
    let p = |j: int| rd(b.at(i, j));
    real_sums(rd);
    real_lanes(rd, n, f);
    rsum_ext(n, |j: int| rd(f(j)), counts);
    reveal(reads_real);
    assert(rd(num::<T>(0)) == 0real);
    assert(rd(num::<T>(1)) == 1real);
    assert(rd(row_total(a, i)) == rsum(n, counts));
    assert forall|j: int| 0 <= j < n implies if rsum(n, counts) != 0real {
        #[trigger] p(j) * rsum(n, counts) == counts(j)
    } else {
        p(j) == counts(j)
    } by {
        if rsum(n, counts) == 0real {
            assert(b.at(i, j) == a.at(i, j).s_over(num(1)));
            assert(p(j) * 1real == counts(j));
        } else {
            assert(b.at(i, j) == a.at(i, j).s_over(row_total(a, i)));
        }
    }
}

proof fn normalized_is_shares<T: Scalar>(rd: spec_fn(T) -> real, s: Seq<T>)
    requires
        reads_real(rd),
    ensures
        are_shares(|i: int| rd(normalized(s)[i]), |i: int| rd(s[i]), s.len() as int),
{
    let n = s.len() as int;
    let f = |i: int| s[i];
    let counts = |i: int| rd(s[i]);
    real_sums(rd);
    real_lanes(rd, n, f);
    rsum_ext(n, |j: int| rd(f(j)), counts);
    reveal(reads_real);
    assert(rd(num::<T>(0)) == 0real);
    assert(rd(total(s)) == rsum(n, counts));
}

/// Equal counts have equal shares.
pub proof fn shares_of_equal(
    p: spec_fn(int) -> real,
    a: spec_fn(int) -> real,
    b: spec_fn(int) -> real,
    n: int,
)
    requires
        are_shares(p, a, n),
        forall|i: int| 0 <= i < n ==> #[trigger] a(i) == b(i),
    ensures
        are_shares(p, b, n),
{
    rsum_ext(n, a, b);
    assert forall|i: int| 0 <= i < n implies if rsum(n, b) != 0real {
        #[trigger] p(i) * rsum(n, b) == b(i)
    } else {
        p(i) == b(i)
    } by {
        assert(a(i) == b(i));
    }
}

/// The new start probabilities are the shares of the expected starts with their prior;
/// a start that was ruled out stays ruled out.
pub proof fn new_start_is_shares<T: Dense>(
    rd: spec_fn(T) -> real,
    em: &Em<T>,
    stats: &CoreStats<T>,
    params: ParamSet,
    after: &Em<T>,
)
    requires
        reads_real(rd),
        em.mstep_rel(stats, params, after),
        params.members().contains(Param::Start),
    ensures
        are_shares(
            |i: int| rd(after.start_prob@[i]),
            |i: int|
                kept_with_prior(rd(em.start_prior), rd(stats.start@[i]), rd(em.start_prob@[i])),
            em.n_components as int,
        ),
{
    let n = em.n_components as int;
    let raw = Seq::new(
        n as nat,
        |i: int| updated_count(em.start_prior, stats.start@[i], em.start_prob@[i]),
    );
    normalized_is_shares(rd, raw);
    let p = |i: int| rd(normalized(raw)[i]);
    let q = |i: int| rd(after.start_prob@[i]);
    assert(p =~= q);
    let a = |i: int| rd(raw[i]);
    let b = |i: int|
        kept_with_prior(rd(em.start_prior), rd(stats.start@[i]), rd(em.start_prob@[i]));
    assert forall|i: int| 0 <= i < n implies #[trigger] a(i) == b(i) by {
        count_reads(rd, em.start_prior, stats.start@[i], em.start_prob@[i]);
    }
    shares_of_equal(q, a, b, n);
}

/// The new transition probabilities out of a state are the shares of the expected
/// transitions out of it with their prior; a transition that was ruled out stays ruled
/// out.
pub proof fn new_transitions_are_shares<T: Dense>(
    rd: spec_fn(T) -> real,
    em: &Em<T>,
    stats: &CoreStats<T>,
    params: ParamSet,
    after: &Em<T>,
    i: int,
)
    requires
        reads_real(rd),
        em.mstep_rel(stats, params, after),
        params.members().contains(Param::Trans),
        0 <= i < em.n_components,
    ensures
        are_shares(
            |j: int| rd(after.trans_mat.at(i, j)),
            |j: int|
                kept_with_prior(
                    rd(em.trans_prior),
                    rd(stats.trans.at(i, j)),
                    rd(em.trans_mat.at(i, j)),
                ),
            em.n_components as int,
        ),
{
    let n = em.n_components as int;
    let raw = choose|counts: Matrix<T>| #[trigger]
        updated_transitions(em, stats, &counts) && normalized_rows(&counts, &after.trans_mat);
    normalized_row_is_shares(rd, &raw, &after.trans_mat, i);
    let p = |j: int| rd(after.trans_mat.at(i, j));
    let a = |j: int| rd(raw.at(i, j));
    let b = |j: int|
        kept_with_prior(
            rd(em.trans_prior),
            rd(stats.trans.at(i, j)),
            rd(em.trans_mat.at(i, j)),
        );
    assert forall|j: int| 0 <= j < n implies #[trigger] a(j) == b(j) by {
        count_reads(rd, em.trans_prior, stats.trans.at(i, j), em.trans_mat.at(i, j));
    }
    shares_of_equal(p, a, b, n);
}

/// The variational posteriors of the start and transition distributions are their priors
/// with the expected counts added, and the distributions are the posteriors' shares.
pub proof fn new_posteriors_add_counts<T: Dense>(
    rd: spec_fn(T) -> real,
    v: &Variational<T>,
    stats: &CoreStats<T>,
    params: ParamSet,
    after: &Variational<T>,
    i: int,
)
    requires
        reads_real(rd),
        v.shaped(),
        after.shaped(),
        v.mstep_rel(stats, params, after),
        params.members().contains(Param::Start),
        params.members().contains(Param::Trans),
        0 <= i < v.n_components,
    ensures
        rd(after.startprob_posterior@[i]) == rd(v.startprob_prior@[i]) + rd(stats.start@[i]),
        forall|j: int|
            0 <= j < v.n_components ==> rd(#[trigger] after.transmat_posterior.at(i, j)) == rd(
                v.transmat_prior.at(i, j),
            ) + rd(stats.trans.at(i, j)),
        rsum(v.n_components as int, |k: int| rd(after.startprob_posterior@[k])) != 0real
            ==> are_shares(
            |k: int| rd(after.startprob@[k]),
            |k: int| rd(after.startprob_posterior@[k]),
            v.n_components as int,
        ),
        are_shares(
            |j: int| rd(after.transmat.at(i, j)),
            |j: int| rd(after.transmat_posterior.at(i, j)),
            v.n_components as int,
        ),
{
    let n = v.n_components as int;
    normalized_row_is_shares(rd, &after.transmat_posterior, &after.transmat, i);
    let post = after.startprob_posterior@;
    normalized_is_shares(rd, post);
    let f = |k: int| post[k];
    let counts = |k: int| rd(post[k]);
    real_sums(rd);
    real_lanes(rd, n, f);
    rsum_ext(n, |j: int| rd(f(j)), counts);
    let (p, q) = (|k: int| rd(normalized(post)[k]), |k: int| rd(after.startprob@[k]));
    assert(rsum(n, counts) != 0real ==> p =~= q) by {
        reveal(reads_real);
        assert(rd(num::<T>(0)) == 0real);
        assert(rd(total(post)) == rsum(n, counts));
    }
    reveal(reads_real);
}

/// What drives the variational E-step: an entry times the exponential of the digamma of
/// its row's total is the exponential of its own digamma.
pub proof fn subnormal_entries<T: Dense>(
    p: Set<T>,
    l: Set<T>,
    v: &Variational<T>,
    after: &Variational<T>,
    i: int,
    j: int,
)
    requires
        exact_numbers(p),
        exact_logs(p, l),
        v.begin_rel(after),
        0 <= i < v.n_components,
        0 <= j < v.n_components,
        l.contains(digamma_of(v.startprob_posterior@[i])),
        l.contains(digamma_of(total(v.startprob_posterior@))),
        digamma_of(total(v.startprob_posterior@)).s_exp() != num::<T>(0),
        l.contains(digamma_of(v.transmat_posterior.at(i, j))),
        l.contains(digamma_of(row_total(&v.transmat_posterior, i))),
        digamma_of(row_total(&v.transmat_posterior, i)).s_exp() != num::<T>(0),
    ensures
        after.estep_start()[i].s_times(digamma_of(total(v.startprob_posterior@)).s_exp())
            == digamma_of(v.startprob_posterior@[i]).s_exp(),
        after.transmat_subnorm.at(i, j).s_times(
            digamma_of(row_total(&v.transmat_posterior, i)).s_exp(),
        ) == digamma_of(v.transmat_posterior.at(i, j)).s_exp(),
        after.estep_trans() == after.transmat_subnorm@,
{
    log_constants(p, l);
    log_subtracted(
        p,
        l,
        digamma_of(v.startprob_posterior@[i]),
        digamma_of(total(v.startprob_posterior@)),
    );
    log_subtracted(
        p,
        l,
        digamma_of(v.transmat_posterior.at(i, j)),
        digamma_of(row_total(&v.transmat_posterior, i)),
    );
    assert(after.startprob_subnorm@[i] == after.estep_start()[i]);
}

proof fn bound_reads<T: Scalar>(rd: spec_fn(T) -> real, v: &Variational<T>, log_prob: T, n: int)
    requires
        reads_real(rd),
        0 <= n,
    ensures
        rd(bound_upto(v, log_prob, n)) + rd(
            dirichlet_divergence(v.startprob_posterior@, v.startprob_prior@),
        ) + rsum(
            n,
            |i: int|
                rd(
                    dirichlet_divergence(
                        v.transmat_posterior.row_view(i),
                        v.transmat_prior.row_view(i),
                    ),
                ),
        ) == rd(log_prob),
    decreases n,
{
    reveal(reads_real);
    if n > 0 {
        bound_reads(rd, v, log_prob, n - 1);
    }
}

/// The variational objective falls short of the log-probability by the divergences of
/// the posteriors from their priors: that of the start distribution and those of all
/// transition rows.
pub proof fn objective_pays_for_divergence<T: Dense>(
    rd: spec_fn(T) -> real,
    v: &Variational<T>,
    log_prob: T,
)
    requires
        reads_real(rd),
    ensures
        rd(v.bound(log_prob)) + rd(
            dirichlet_divergence(v.startprob_posterior@, v.startprob_prior@),
        ) + rsum(
            v.n_components as int,
            |i: int|
                rd(
                    dirichlet_divergence(
                        v.transmat_posterior.row_view(i),
                        v.transmat_prior.row_view(i),
                    ),
                ),
        ) == rd(log_prob),
{
    bound_reads(rd, v, log_prob, v.n_components as int);
}

} // verus!
