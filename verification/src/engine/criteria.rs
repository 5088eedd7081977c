//! What the information criteria weigh against each other.

use crate::counting::saturated;
use crate::engine::emission::EmissionModel;
use crate::engine::fit::lengths_ok;
use crate::engine::fitted::{
    is_aic, is_bic, is_log_likelihood, is_score, is_total_scalars,
};
use crate::engine::hmm::Hmm;
use crate::engine::inference::{start_trans_scalars, Inference};
use crate::engine::params::{members_determine_the_set, Param, ParamSet};
use crate::engine::unique::one_score;
use crate::linalg::Dense;
use crate::matrix::Matrix;
use crate::reading::reads_real;
use crate::reals::{commutes, distributes};
use crate::scalar::{num, Scalar};
use vstd::prelude::*;

verus! {

/// A model has one number of free scalars.
pub proof fn one_total<T: Dense, E: EmissionModel<T>>(h: &Hmm<T, E>, k: usize, k2: usize)
    requires
        is_total_scalars(h, k),
        is_total_scalars(h, k2),
    ensures
        k == k2,
{
    let whole = |all: ParamSet, n: usize|
        n == saturated(h.scalars(all)) && all.wf() && (forall|p: Param|
            all.members().contains(p) <==> (p == Param::Start || p == Param::Trans
                || E::owned_params().contains(p)));
    let a = choose|all: ParamSet|
        k == saturated(#[trigger] h.scalars(all)) && all.wf() && (forall|p: Param|
            all.members().contains(p) <==> (p == Param::Start || p == Param::Trans
                || E::owned_params().contains(p)));
    let b = choose|all: ParamSet|
        k2 == saturated(#[trigger] h.scalars(all)) && all.wf() && (forall|p: Param|
            all.members().contains(p) <==> (p == Param::Start || p == Param::Trans
                || E::owned_params().contains(p)));
    assert(whole(a, k) && whole(b, k2));
    assert forall|p: Param| a.members().contains(p) <==> b.members().contains(p) by {
    }
    assert(a.members() =~= b.members());
    members_determine_the_set(a, b);
}

/// The criteria weigh the log-likelihood against the free scalars: twice the score and
/// the Akaike criterion add up to two for every free scalar, twice the score and the
/// Bayesian criterion to the logarithm of the number of rows for every free scalar.
/// So, of two models with one score, that with one scalar less has the lower
/// criterion, by 2 and by that logarithm.
pub proof fn criteria_charge_every_scalar<T: Dense, E: EmissionModel<T>>(
    rd: spec_fn(T) -> real,
    h: &Hmm<T, E>,
    x: &Matrix<T>,
    lengths: Option<&[usize]>,
    a: T,
    b: T,
    score: T,
    k: usize,
)
    requires
        reads_real(rd),
        h.shaped(),
        lengths_ok(lengths, x.rows.len() as int),
        is_aic(h, x, lengths, a),
        is_bic(h, x, lengths, b),
        is_log_likelihood(h, x, lengths, score),
        is_total_scalars(h, k),
    ensures
        rd(a) + 2real * rd(score) == 2real * k as real,
        rd(b) + 2real * rd(score) == k as real * rd(num::<T>(x.rows.len() as int).s_ln()),
        rd(b) - rd(a) == k as real * (rd(num::<T>(x.rows.len() as int).s_ln()) - 2real),
{
    let (ka, sa) = choose|n: usize, log_prob: T| #[trigger]
        is_total_scalars(h, n) && #[trigger] is_log_likelihood(h, x, lengths, log_prob) && a
            == num::<T>(-2).s_times(log_prob).s_plus(num::<T>(2).s_times(num(n as int)));
    let (kb, sb) = choose|n: usize, log_prob: T| #[trigger]
        is_total_scalars(h, n) && #[trigger] is_log_likelihood(h, x, lengths, log_prob) && b
            == num::<T>(-2).s_times(log_prob).s_plus(
            num::<T>(n as int).s_times(num::<T>(x.rows.len() as int).s_ln()),
        );
    one_total(h, k, ka);
    one_total(h, k, kb);
    same_score(h, x, lengths, score, sa);
    same_score(h, x, lengths, score, sb);
    reveal(reads_real);
    assert(rd(num::<T>(-2)) == -2real);
    assert(rd(num::<T>(2)) == 2real);
    assert(rd(num::<T>(k as int)) == k as real);
    let s = rd(score);
    assert((-2real) * s == -(2real * s));
    let l = rd(num::<T>(x.rows.len() as int).s_ln());
    distributes(k as real, l, 2real);
    commutes(k as real, 2real);
}

proof fn same_score<T: Dense, E: EmissionModel<T>>(
    h: &Hmm<T, E>,
    x: &Matrix<T>,
    lengths: Option<&[usize]>,
    a: T,
    b: T,
)
    requires
        h.shaped(),
        lengths_ok(lengths, x.rows.len() as int),
        is_log_likelihood(h, x, lengths, a),
        is_log_likelihood(h, x, lengths, b),
    ensures
        a == b,
{
    let p = choose|p: Seq<Seq<T>>| #[trigger] is_score(h, x, lengths, a, p);
    let q = choose|q: Seq<Seq<T>>| #[trigger] is_score(h, x, lengths, b, q);
    one_score(h, x, x, lengths, a, p, b, q);
}

/// A start distribution has one free scalar less than states, and a transition matrix
/// one less than entries for each row: entries that sum to 1 leave one of them fixed.
pub proof fn start_and_transition_scalars(n: int, params: ParamSet)
    requires
        n >= 1,
    ensures
        ({
            let start = if params.members().contains(Param::Start) {
                1int
            } else {
                0int
            };
            let trans = if params.members().contains(Param::Trans) {
                1int
            } else {
                0int
            };
            start_trans_scalars(n, params) + start + trans * n == start * n + trans * (n * n)
        }),
{
    assert(n * (n - 1) == n * n - n) by (nonlinear_arith);
}

} // verus!
