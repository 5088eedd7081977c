//! What the lattices and the expected counts add up to, where arithmetic is exact.

use crate::engine::agreement::{
    backward_log_is_exact, backward_row, backward_row_in, chain_in, exact_logs, exp_of,
    forward_log_is_exact, forward_row, forward_row_in, forward_times_backward, frames_of_logs,
    likelihood, log_added, log_constants, log_of, log_pass_scores_the_likelihood, log_subtracted,
    log_sum_is_log_of_sum, posteriors_are_conditional, raw_row_is_multiple,
    row_total_of_raw, scaling_product, stays_above,
};
use crate::engine::algorithms::{
    backward_log_row, forward_log_row, forward_raw_row, forward_scaled_row, log_gather,
    log_posterior_at, log_xi, scale_of,
};
use crate::exact::{
    added, constants, distributed, exact_numbers, inverted, multiplied, regrouped, sum_in,
    sum_of_multiples, sum_swapped,
};
use crate::matrix::Matrix;
use crate::scalar::{num, sigma, sigma_ext, summed, Scalar};
use crate::special::{log_add, log_sum_exp};
use vstd::prelude::*;

verus! {

/// Equal multiples by a number other than zero are multiples of equal numbers.
pub(crate) proof fn cancelled<T: Scalar>(p: Set<T>, a: T, b: T, d: T)
    requires
        exact_numbers(p),
        p.contains(a),
        p.contains(b),
        p.contains(d),
        d != num::<T>(0),
        a.s_times(d) == b.s_times(d),
    ensures
        a == b,
{
    let inv = num::<T>(1).s_over(d);
    inverted(p, d);
    multiplied(p, d, inv);
    regrouped(p, a, d, inv);
    regrouped(p, b, d, inv);
    multiplied(p, a, inv);
    multiplied(p, b, inv);
}

/// Each row of the scaling pass is the normalised exponential of that row of the
/// log-space pass: times the sum of the exponentials it is the exponential.
pub proof fn scaled_rows_are_normalised_exponentials<T: Scalar>(
    p: Set<T>,
    l: Set<T>,
    startprob: Seq<T>,
    transmat: &Matrix<T>,
    log_frames: &Matrix<T>,
    frames: &Matrix<T>,
    t: int,
    j: int,
)
    requires
        exact_numbers(p),
        exact_logs(p, l),
        chain_in(p, startprob, transmat, frames),
        frames_of_logs(l, log_frames, frames),
        0 <= t < frames.rows.len(),
        0 <= j < frames.ncols,
        stays_above(startprob, transmat, frames, t + 1),
    ensures
        forward_scaled_row(startprob, transmat, frames, t)[j].s_times(
            sigma(
                frames.ncols as int,
                |k: int| forward_log_row(startprob, transmat, log_frames, t)[k].s_exp(),
            ),
        ) == forward_log_row(startprob, transmat, log_frames, t)[j].s_exp(),
{
    let nc = frames.ncols as int;
    let row = forward_log_row(startprob, transmat, log_frames, t);
    let plain = forward_row(startprob, transmat, frames, t);
    let raw = forward_raw_row(startprob, transmat, frames, t);
    let c = scaling_product(startprob, transmat, frames, t);
    let s = scale_of(raw);
    forward_log_is_exact(p, l, startprob, transmat, log_frames, frames, t);
    forward_row_in(p, startprob, transmat, frames, t);
    raw_row_is_multiple(p, startprob, transmat, frames, t);
    row_total_of_raw(p, startprob, transmat, frames, t);
    sigma_ext(nc, |k: int| row[k].s_exp(), |k: int| plain[k]);
    let sum = summed(plain);
    let a = plain[j];
    assert(p.contains(a));
    assert(row[j].s_exp() == a);
    // ((a c) s) sum == a (s (sum c))
    multiplied(p, a, c);
    multiplied(p, sum, c);
    multiplied(p, c, s);
    regrouped(p, a, c, s);
    regrouped(p, a, c.s_times(s), sum);
    regrouped(p, c, s, sum);
    multiplied(p, c, s.s_times(sum));
    multiplied(p, s, sum);
    regrouped(p, s, sum, c);
    multiplied(p, a, a);
    assert(forward_scaled_row(startprob, transmat, frames, t)[j] == raw[j].s_times(s));
}

/// The probability of all frames, of state `i` at frame `t` and of state `j` at
/// frame `t + 1`.
pub open spec fn passage<T: Scalar>(
    startprob: Seq<T>,
    transmat: &Matrix<T>,
    frames: &Matrix<T>,
    t: int,
    i: int,
    j: int,
) -> T {
    forward_row(startprob, transmat, frames, t)[i].s_times(transmat.at(i, j)).s_times(
        frames.at(t + 1, j).s_times(backward_row(transmat, frames, t + 1)[j]),
    )
}

/// What passes from state `i` at frame `t` to any state is what is there.
proof fn passages_from<T: Scalar>(
    p: Set<T>,
    startprob: Seq<T>,
    transmat: &Matrix<T>,
    frames: &Matrix<T>,
    t: int,
    i: int,
)
    requires
        exact_numbers(p),
        chain_in(p, startprob, transmat, frames),
        0 <= t < frames.rows.len() - 1,
        0 <= i < frames.ncols,
    ensures
        sigma(frames.ncols as int, |j: int| passage(startprob, transmat, frames, t, i, j))
            == forward_row(startprob, transmat, frames, t)[i].s_times(
            backward_row(transmat, frames, t)[i],
        ),
{
    let nc = frames.ncols as int;
    forward_row_in(p, startprob, transmat, frames, t);
    backward_row_in(p, startprob, transmat, frames, t + 1);
    let a = forward_row(startprob, transmat, frames, t)[i];
    let next = backward_row(transmat, frames, t + 1);
    assert(p.contains(a));
    let g = |j: int| transmat.at(i, j).s_times(frames.at(t + 1, j)).s_times(next[j]);
    let ga = |j: int| g(j).s_times(a);
    let row = |j: int| passage(startprob, transmat, frames, t, i, j);
    assert forall|j: int| 0 <= j < nc implies p.contains(#[trigger] g(j)) && ga(j) == row(j) by {
        let x = transmat.at(i, j);
        let y = frames.at(t + 1, j);
        let z = next[j];
        assert(p.contains(x));
        assert(p.contains(y));
        assert(p.contains(z));
        regrouped(p, x, y, z);
        multiplied(p, x.s_times(y).s_times(z), a);
        regrouped(p, a, x, y.s_times(z));
    }
    sum_of_multiples(p, nc, g, a);
    sum_in(p, nc, g);
    sigma_ext(nc, ga, row);
    multiplied(p, a, sigma(nc, g));
    assert(backward_row(transmat, frames, t)[i] == sigma(nc, g));
}

/// What passes from any state into state `j` at frame `t + 1` is what is there.
proof fn passages_into<T: Scalar>(
    p: Set<T>,
    startprob: Seq<T>,
    transmat: &Matrix<T>,
    frames: &Matrix<T>,
    t: int,
    j: int,
)
    requires
        exact_numbers(p),
        chain_in(p, startprob, transmat, frames),
        0 <= t < frames.rows.len() - 1,
        0 <= j < frames.ncols,
    ensures
        sigma(frames.ncols as int, |i: int| passage(startprob, transmat, frames, t, i, j))
            == forward_row(startprob, transmat, frames, t + 1)[j].s_times(
            backward_row(transmat, frames, t + 1)[j],
        ),
{
    let nc = frames.ncols as int;
    forward_row_in(p, startprob, transmat, frames, t);
    backward_row_in(p, startprob, transmat, frames, t + 1);
    let fwd = forward_row(startprob, transmat, frames, t);
    let y = frames.at(t + 1, j);
    let z = backward_row(transmat, frames, t + 1)[j];
    assert(p.contains(y));
    assert(p.contains(z));
    multiplied(p, y, z);
    let g = |i: int| fwd[i].s_times(transmat.at(i, j));
    let col = |i: int| passage(startprob, transmat, frames, t, i, j);
    assert forall|i: int| 0 <= i < nc implies p.contains(#[trigger] g(i)) by {
        assert(p.contains(fwd[i]));
        assert(p.contains(transmat.at(i, j)));
        multiplied(p, fwd[i], transmat.at(i, j));
    }
    sum_of_multiples(p, nc, g, y.s_times(z));
    sum_in(p, nc, g);
    sigma_ext(nc, |i: int| g(i).s_times(y.s_times(z)), col);
    regrouped(p, sigma(nc, g), y, z);
    assert(forward_row(startprob, transmat, frames, t + 1)[j] == sigma(nc, g).s_times(y));
}

/// `fwd` and `bwd` hold the lattices of the log-space pass.
pub open spec fn log_lattices<T: Scalar>(
    startprob: Seq<T>,
    transmat: &Matrix<T>,
    log_frames: &Matrix<T>,
    fwd: &Matrix<T>,
    bwd: &Matrix<T>,
) -> bool {
    &&& fwd.has_dims(log_frames.rows.len() as int, log_frames.ncols as int)
    &&& bwd.has_dims(log_frames.rows.len() as int, log_frames.ncols as int)
    &&& forall|t: int, k: int|
        0 <= t < log_frames.rows.len() && 0 <= k < log_frames.ncols ==> #[trigger] fwd.at(t, k)
            == forward_log_row(startprob, transmat, log_frames, t)[k]
    &&& forall|t: int, k: int|
        0 <= t < log_frames.rows.len() && 0 <= k < log_frames.ncols ==> #[trigger] bwd.at(t, k)
            == backward_log_row(transmat, log_frames, t)[k]
}

/// A log-space pass over frames that have a probability.
pub open spec fn exact_pass<T: Scalar>(
    p: Set<T>,
    l: Set<T>,
    startprob: Seq<T>,
    transmat: &Matrix<T>,
    log_frames: &Matrix<T>,
    frames: &Matrix<T>,
    fwd: &Matrix<T>,
    bwd: &Matrix<T>,
) -> bool {
    &&& exact_numbers(p)
    &&& exact_logs(p, l)
    &&& chain_in(p, startprob, transmat, frames)
    &&& frames_of_logs(l, log_frames, frames)
    &&& log_lattices(startprob, transmat, log_frames, fwd, bwd)
    &&& likelihood(startprob, transmat, frames) != num::<T>(0)
}

/// The expected passages from state `i` to state `j` between frames `t` and
/// `t + 1`, as the log-space pass finds them.
pub open spec fn expected_passage<T: Scalar>(
    fwd: &Matrix<T>,
    transmat: &Matrix<T>,
    bwd: &Matrix<T>,
    log_frames: &Matrix<T>,
    i: int,
    j: int,
    t: int,
) -> T {
    log_xi(
        fwd,
        transmat,
        bwd,
        log_frames,
        log_sum_exp(fwd.row_view(log_frames.rows.len() - 1)),
        i,
        j,
        t,
    ).s_exp()
}

proof fn likelihood_in<T: Scalar>(
    p: Set<T>,
    l: Set<T>,
    startprob: Seq<T>,
    transmat: &Matrix<T>,
    log_frames: &Matrix<T>,
    frames: &Matrix<T>,
    fwd: &Matrix<T>,
    bwd: &Matrix<T>,
)
    requires
        exact_pass(p, l, startprob, transmat, log_frames, frames, fwd, bwd),
    ensures
        ({
            let m = log_sum_exp(fwd.row_view(log_frames.rows.len() - 1));
            &&& l.contains(m)
            &&& m != T::s_neg_inf()
            &&& m.s_exp() == likelihood(startprob, transmat, frames)
            &&& p.contains(m.s_exp())
        }),
{
    let last = frames.rows.len() - 1;
    let row = forward_log_row(startprob, transmat, log_frames, last);
    forward_log_is_exact(p, l, startprob, transmat, log_frames, frames, last);
    log_pass_scores_the_likelihood(p, l, startprob, transmat, log_frames, frames);
    assert(fwd.rows@[last].len() == fwd.ncols);
    assert forall|k: int| 0 <= k < frames.ncols implies #[trigger] fwd.row_view(last)[k] == row[k] by {
        assert(fwd.at(last, k) == row[k]);
    }
    assert(fwd.row_view(last) =~= row);
    log_sum_is_log_of_sum(p, l, row);
    log_constants(p, l);
    exp_of(p, l, log_sum_exp(row));
}

/// An expected passage, times the probability of all frames, is the probability of
/// all frames and of the two states.
pub(crate) proof fn expected_passage_is_conditional<T: Scalar>(
    p: Set<T>,
    l: Set<T>,
    startprob: Seq<T>,
    transmat: &Matrix<T>,
    log_frames: &Matrix<T>,
    frames: &Matrix<T>,
    fwd: &Matrix<T>,
    bwd: &Matrix<T>,
    i: int,
    j: int,
    t: int,
)
    requires
        exact_pass(p, l, startprob, transmat, log_frames, frames, fwd, bwd),
        0 <= t < frames.rows.len() - 1,
        0 <= i < frames.ncols,
        0 <= j < frames.ncols,
    ensures
        p.contains(expected_passage(fwd, transmat, bwd, log_frames, i, j, t)),
        l.contains(
            log_xi(
                fwd,
                transmat,
                bwd,
                log_frames,
                log_sum_exp(fwd.row_view(log_frames.rows.len() - 1)),
                i,
                j,
                t,
            ),
        ),
        expected_passage(fwd, transmat, bwd, log_frames, i, j, t).s_times(
            likelihood(startprob, transmat, frames),
        ) == passage(startprob, transmat, frames, t, i, j),
{
    let m = log_sum_exp(fwd.row_view(log_frames.rows.len() - 1));
    likelihood_in(p, l, startprob, transmat, log_frames, frames, fwd, bwd);
    forward_log_is_exact(p, l, startprob, transmat, log_frames, frames, t);
    backward_log_is_exact(p, l, startprob, transmat, log_frames, frames, t + 1);
    let u = fwd.at(t, i);
    let v = bwd.at(t + 1, j);
    let x = transmat.at(i, j);
    let w = log_frames.at(t + 1, j);
    assert(u == forward_log_row(startprob, transmat, log_frames, t)[i]);
    assert(v == backward_log_row(transmat, log_frames, t + 1)[j]);
    assert(l.contains(u) && l.contains(v));
    assert(p.contains(x));
    assert(l.contains(w));
    assert(frames.at(t + 1, j) == w.s_exp());
    log_of(p, l, x);
    log_added(p, l, u, x.s_ln());
    log_added(p, l, u.s_plus(x.s_ln()), w);
    log_added(p, l, u.s_plus(x.s_ln()).s_plus(w), v);
    log_subtracted(p, l, u.s_plus(x.s_ln()).s_plus(w).s_plus(v), m);
    regrouped(p, u.s_exp().s_times(x), w.s_exp(), v.s_exp());
}

/// From every state, the expected passages between two adjacent frames add up to
/// the posterior of the state at the first of them; into every state, to its
/// posterior at the second.
pub proof fn expected_passages_add_up<T: Scalar>(
    p: Set<T>,
    l: Set<T>,
    startprob: Seq<T>,
    transmat: &Matrix<T>,
    log_frames: &Matrix<T>,
    frames: &Matrix<T>,
    fwd: &Matrix<T>,
    bwd: &Matrix<T>,
    k: int,
    t: int,
)
    requires
        exact_pass(p, l, startprob, transmat, log_frames, frames, fwd, bwd),
        0 <= t < frames.rows.len() - 1,
        0 <= k < frames.ncols,
    ensures
        sigma(
            frames.ncols as int,
            |j: int| expected_passage(fwd, transmat, bwd, log_frames, k, j, t),
        ) == log_posterior_at(fwd, bwd, t, k),
        sigma(
            frames.ncols as int,
            |i: int| expected_passage(fwd, transmat, bwd, log_frames, i, k, t),
        ) == log_posterior_at(fwd, bwd, t + 1, k),
{
    let nc = frames.ncols as int;
    let whole = likelihood(startprob, transmat, frames);
    likelihood_in(p, l, startprob, transmat, log_frames, frames, fwd, bwd);
    let from = |j: int| expected_passage(fwd, transmat, bwd, log_frames, k, j, t);
    let into = |i: int| expected_passage(fwd, transmat, bwd, log_frames, i, k, t);
    assert forall|j: int| 0 <= j < nc implies p.contains(#[trigger] from(j)) && from(j).s_times(
        whole,
    ) == passage(startprob, transmat, frames, t, k, j) by {
        expected_passage_is_conditional(
            p,
            l,
            startprob,
            transmat,
            log_frames,
            frames,
            fwd,
            bwd,
            k,
            j,
            t,
        );
    }
    assert forall|i: int| 0 <= i < nc implies p.contains(#[trigger] into(i)) && into(i).s_times(
        whole,
    ) == passage(startprob, transmat, frames, t, i, k) by {
        expected_passage_is_conditional(
            p,
            l,
            startprob,
            transmat,
            log_frames,
            frames,
            fwd,
            bwd,
            i,
            k,
            t,
        );
    }
    sum_of_multiples(p, nc, from, whole);
    sum_of_multiples(p, nc, into, whole);
    sum_in(p, nc, from);
    sum_in(p, nc, into);
    sigma_ext(
        nc,
        |j: int| from(j).s_times(whole),
        |j: int| passage(startprob, transmat, frames, t, k, j),
    );
    sigma_ext(
        nc,
        |i: int| into(i).s_times(whole),
        |i: int| passage(startprob, transmat, frames, t, i, k),
    );
    passages_from(p, startprob, transmat, frames, t, k);
    passages_into(p, startprob, transmat, frames, t, k);
    posterior_in(p, l, startprob, transmat, log_frames, frames, fwd, bwd, t, k);
    posterior_in(p, l, startprob, transmat, log_frames, frames, fwd, bwd, t + 1, k);
    cancelled(p, sigma(nc, from), log_posterior_at(fwd, bwd, t, k), whole);
    cancelled(p, sigma(nc, into), log_posterior_at(fwd, bwd, t + 1, k), whole);
}

/// A posterior is one of the numbers, and a conditional probability.
pub(crate) proof fn posterior_in<T: Scalar>(
    p: Set<T>,
    l: Set<T>,
    startprob: Seq<T>,
    transmat: &Matrix<T>,
    log_frames: &Matrix<T>,
    frames: &Matrix<T>,
    fwd: &Matrix<T>,
    bwd: &Matrix<T>,
    t: int,
    k: int,
)
    requires
        exact_pass(p, l, startprob, transmat, log_frames, frames, fwd, bwd),
        0 <= t < frames.rows.len(),
        0 <= k < frames.ncols,
    ensures
        p.contains(log_posterior_at(fwd, bwd, t, k)),
        log_posterior_at(fwd, bwd, t, k).s_times(likelihood(startprob, transmat, frames))
            == forward_row(startprob, transmat, frames, t)[k].s_times(
            backward_row(transmat, frames, t)[k],
        ),
{
    let nc = frames.ncols as int;
    posteriors_are_conditional(
        p,
        l,
        startprob,
        transmat,
        log_frames,
        frames,
        fwd,
        bwd,
        t,
        k,
    );
    constants(p);
    log_constants(p, l);
    if nc != 1 {
        forward_log_is_exact(p, l, startprob, transmat, log_frames, frames, t);
        backward_log_is_exact(p, l, startprob, transmat, log_frames, frames, t);
        let s = Seq::new(fwd.ncols as nat, |q: int| fwd.at(t, q).s_plus(bwd.at(t, q)));
        let a = forward_row(startprob, transmat, frames, t);
        let b = backward_row(transmat, frames, t);
        let e = |q: int| s[q].s_exp();
        let g = |q: int| a[q].s_times(b[q]);
        assert forall|q: int| 0 <= q < nc implies l.contains(#[trigger] s[q]) && e(q) == g(q) by {
            let u = forward_log_row(startprob, transmat, log_frames, t)[q];
            let v = backward_log_row(transmat, log_frames, t)[q];
            assert(fwd.at(t, q) == u);
            assert(bwd.at(t, q) == v);
            assert(l.contains(u) && l.contains(v));
            log_added(p, l, u, v);
        }
        log_sum_is_log_of_sum(p, l, s);
        sigma_ext(nc, e, g);
        forward_times_backward(p, startprob, transmat, frames, t);
        assert(l.contains(s[k]));
        log_subtracted(p, l, s[k], log_sum_exp(s));
    }
}

/// `ln_1p` is exact: its exponential is one more than its argument.
pub open spec fn exact_ln_1p<T: Scalar>(p: Set<T>, l: Set<T>) -> bool {
    forall|a: T|
        p.contains(a) ==> l.contains(#[trigger] a.s_ln_1p()) && a.s_ln_1p().s_exp() == num::<T>(
            1,
        ).s_plus(a)
}

/// The exponential of [`log_add`] is the sum of the exponentials.
pub proof fn log_add_adds<T: Scalar>(p: Set<T>, l: Set<T>, a: T, b: T)
    requires
        exact_numbers(p),
        exact_logs(p, l),
        exact_ln_1p(p, l),
        l.contains(a),
        l.contains(b),
    ensures
        l.contains(log_add(a, b)),
        log_add(a, b).s_exp() == a.s_exp().s_plus(b.s_exp()),
{
    let none = T::s_neg_inf();
    exp_of(p, l, a);
    exp_of(p, l, b);
    log_constants(p, l);
    added(p, a.s_exp(), b.s_exp());
    added(p, b.s_exp(), a.s_exp());
    if a != none && b != none {
        let (hi, lo) = if b.s_below(a) {
            (a, b)
        } else {
            (b, a)
        };
        let d = lo.s_minus(hi).s_exp();
        let one = num::<T>(1);
        constants(p);
        log_subtracted(p, l, lo, hi);
        log_added(p, l, hi, d.s_ln_1p());
        added(p, one, d);
        multiplied(p, hi.s_exp(), one.s_plus(d));
        distributed(p, one, d, hi.s_exp());
        multiplied(p, hi.s_exp(), one);
        multiplied(p, one, hi.s_exp());
    }
}

/// The exponential of a gathering is the sum of the exponentials.
proof fn gathering_adds<T: Scalar>(p: Set<T>, l: Set<T>, n: int, f: spec_fn(int) -> T)
    requires
        exact_numbers(p),
        exact_logs(p, l),
        exact_ln_1p(p, l),
        forall|t: int| 0 <= t < n ==> l.contains(#[trigger] f(t)),
    ensures
        l.contains(log_gather(n, f)),
        log_gather(n, f).s_exp() == sigma(n, |t: int| f(t).s_exp()),
    decreases n,
{
    log_constants(p, l);
    if n > 0 {
        gathering_adds(p, l, n - 1, f);
        assert(l.contains(f(n - 1)));
        log_add_adds(p, l, log_gather(n - 1, f), f(n - 1));
    }
}

/// The expected transitions that the log-space pass finds from `i` to `j`.
pub open spec fn expected_transitions<T: Scalar>(
    fwd: &Matrix<T>,
    transmat: &Matrix<T>,
    bwd: &Matrix<T>,
    log_frames: &Matrix<T>,
    i: int,
    j: int,
) -> T {
    log_gather(
        log_frames.rows.len() - 1,
        |t: int|
            log_xi(
                fwd,
                transmat,
                bwd,
                log_frames,
                log_sum_exp(fwd.row_view(log_frames.rows.len() - 1)),
                i,
                j,
                t,
            ),
    ).s_exp()
}

pub(crate) proof fn transitions_are_sums<T: Scalar>(
    p: Set<T>,
    l: Set<T>,
    startprob: Seq<T>,
    transmat: &Matrix<T>,
    log_frames: &Matrix<T>,
    frames: &Matrix<T>,
    fwd: &Matrix<T>,
    bwd: &Matrix<T>,
    i: int,
    j: int,
)
    requires
        exact_pass(p, l, startprob, transmat, log_frames, frames, fwd, bwd),
        exact_ln_1p(p, l),
        0 <= i < frames.ncols,
        0 <= j < frames.ncols,
    ensures
        expected_transitions(fwd, transmat, bwd, log_frames, i, j) == sigma(
            frames.rows.len() - 1,
            |t: int| expected_passage(fwd, transmat, bwd, log_frames, i, j, t),
        ),
{
    let n = frames.rows.len() - 1;
    let m = log_sum_exp(fwd.row_view(log_frames.rows.len() - 1));
    let f = |t: int| log_xi(fwd, transmat, bwd, log_frames, m, i, j, t);
    assert forall|t: int| 0 <= t < n implies l.contains(#[trigger] f(t)) by {
        expected_passage_is_conditional(
            p,
            l,
            startprob,
            transmat,
            log_frames,
            frames,
            fwd,
            bwd,
            i,
            j,
            t,
        );
    }
    gathering_adds(p, l, n, f);
    sigma_ext(
        n,
        |t: int| f(t).s_exp(),
        |t: int| expected_passage(fwd, transmat, bwd, log_frames, i, j, t),
    );
}

/// The expected transitions from a state add up to its posteriors at all frames
/// but the last, and those into a state to its posteriors at all frames but the
/// first.
pub proof fn expected_transitions_add_up<T: Scalar>(
    p: Set<T>,
    l: Set<T>,
    startprob: Seq<T>,
    transmat: &Matrix<T>,
    log_frames: &Matrix<T>,
    frames: &Matrix<T>,
    fwd: &Matrix<T>,
    bwd: &Matrix<T>,
    k: int,
)
    requires
        exact_pass(p, l, startprob, transmat, log_frames, frames, fwd, bwd),
        exact_ln_1p(p, l),
        0 <= k < frames.ncols,
    ensures
        sigma(
            frames.ncols as int,
            |j: int| expected_transitions(fwd, transmat, bwd, log_frames, k, j),
        ) == sigma(frames.rows.len() - 1, |t: int| log_posterior_at(fwd, bwd, t, k)),
        sigma(
            frames.ncols as int,
            |i: int| expected_transitions(fwd, transmat, bwd, log_frames, i, k),
        ) == sigma(frames.rows.len() - 1, |t: int| log_posterior_at(fwd, bwd, t + 1, k)),
{
    let nc = frames.ncols as int;
    let n = frames.rows.len() - 1;
    let from = |j: int, t: int| expected_passage(fwd, transmat, bwd, log_frames, k, j, t);
    let into = |i: int, t: int| expected_passage(fwd, transmat, bwd, log_frames, i, k, t);
    assert forall|j: int, t: int| 0 <= j < nc && 0 <= t < n implies p.contains(
        #[trigger] from(j, t),
    ) by {
        expected_passage_is_conditional(
            p,
            l,
            startprob,
            transmat,
            log_frames,
            frames,
            fwd,
            bwd,
            k,
            j,
            t,
        );
    }
    assert forall|i: int, t: int| 0 <= i < nc && 0 <= t < n implies p.contains(
        #[trigger] into(i, t),
    ) by {
        expected_passage_is_conditional(
            p,
            l,
            startprob,
            transmat,
            log_frames,
            frames,
            fwd,
            bwd,
            i,
            k,
            t,
        );
    }
    sum_swapped(p, nc, n, from);
    sum_swapped(p, nc, n, into);
    let rows = |j: int| expected_transitions(fwd, transmat, bwd, log_frames, k, j);
    let cols = |i: int| expected_transitions(fwd, transmat, bwd, log_frames, i, k);
    assert forall|j: int| 0 <= j < nc implies #[trigger] rows(j) == (|j: int|
        sigma(n, |t: int| from(j, t)))(j) by {
        transitions_are_sums(p, l, startprob, transmat, log_frames, frames, fwd, bwd, k, j);
        sigma_ext(
            n,
            |t: int| expected_passage(fwd, transmat, bwd, log_frames, k, j, t),
            |t: int| from(j, t),
        );
    }
    assert forall|i: int| 0 <= i < nc implies #[trigger] cols(i) == (|i: int|
        sigma(n, |t: int| into(i, t)))(i) by {
        transitions_are_sums(p, l, startprob, transmat, log_frames, frames, fwd, bwd, i, k);
        sigma_ext(
            n,
            |t: int| expected_passage(fwd, transmat, bwd, log_frames, i, k, t),
            |t: int| into(i, t),
        );
    }
    sigma_ext(nc, rows, |j: int| sigma(n, |t: int| from(j, t)));
    sigma_ext(nc, cols, |i: int| sigma(n, |t: int| into(i, t)));
    let here = |t: int| log_posterior_at(fwd, bwd, t, k);
    let there = |t: int| log_posterior_at(fwd, bwd, t + 1, k);
    assert forall|t: int| 0 <= t < n implies #[trigger] here(t) == (|t: int|
        sigma(nc, |j: int| from(j, t)))(t) by {
        expected_passages_add_up(
            p,
            l,
            startprob,
            transmat,
            log_frames,
            frames,
            fwd,
            bwd,
            k,
            t,
        );
        sigma_ext(
            nc,
            |j: int| expected_passage(fwd, transmat, bwd, log_frames, k, j, t),
            |j: int| from(j, t),
        );
    }
    assert forall|t: int| 0 <= t < n implies #[trigger] there(t) == (|t: int|
        sigma(nc, |i: int| into(i, t)))(t) by {
        expected_passages_add_up(
            p,
            l,
            startprob,
            transmat,
            log_frames,
            frames,
            fwd,
            bwd,
            k,
            t,
        );
        sigma_ext(
            nc,
            |i: int| expected_passage(fwd, transmat, bwd, log_frames, i, k, t),
            |i: int| into(i, t),
        );
    }
    sigma_ext(n, here, |t: int| sigma(nc, |j: int| from(j, t)));
    sigma_ext(n, there, |t: int| sigma(nc, |i: int| into(i, t)));
}

/// Every start and transition probability is `u`.
pub open spec fn uniform_chain<T: Scalar>(
    startprob: Seq<T>,
    transmat: &Matrix<T>,
    nc: int,
    u: T,
) -> bool {
    &&& forall|i: int| 0 <= i < nc ==> #[trigger] startprob[i] == u
    &&& forall|i: int, j: int| 0 <= i < nc && 0 <= j < nc ==> #[trigger] transmat.at(i, j) == u
}

/// What a uniform chain has gathered before frame `t`.
spec fn weight_before<T: Scalar>(
    startprob: Seq<T>,
    transmat: &Matrix<T>,
    frames: &Matrix<T>,
    u: T,
    t: int,
) -> T {
    if t <= 0 {
        u
    } else {
        sigma(
            frames.ncols as int,
            |i: int| forward_row(startprob, transmat, frames, t - 1)[i].s_times(u),
        )
    }
}

/// Under a uniform chain a forward row is a multiple of the frame.
proof fn uniform_forward<T: Scalar>(
    p: Set<T>,
    startprob: Seq<T>,
    transmat: &Matrix<T>,
    frames: &Matrix<T>,
    u: T,
    t: int,
    j: int,
)
    requires
        exact_numbers(p),
        chain_in(p, startprob, transmat, frames),
        uniform_chain(startprob, transmat, frames.ncols as int, u),
        0 <= t < frames.rows.len(),
        0 <= j < frames.ncols,
    ensures
        p.contains(weight_before(startprob, transmat, frames, u, t)),
        forward_row(startprob, transmat, frames, t)[j] == weight_before(
            startprob,
            transmat,
            frames,
            u,
            t,
        ).s_times(frames.at(t, j)),
{
    let nc = frames.ncols as int;
    assert(startprob[j] == u);
    assert(p.contains(startprob[j]));
    if t > 0 {
        forward_row_in(p, startprob, transmat, frames, t - 1);
        let prev = forward_row(startprob, transmat, frames, t - 1);
        let f = |i: int| prev[i].s_times(u);
        assert forall|i: int| 0 <= i < nc implies p.contains(#[trigger] f(i)) by {
            assert(p.contains(prev[i]));
            multiplied(p, prev[i], u);
        }
        sum_in(p, nc, f);
        let h = |i: int| prev[i].s_times(transmat.at(i, j));
        assert forall|i: int| 0 <= i < nc implies #[trigger] h(i) == f(i) by {
            assert(transmat.at(i, j) == u);
        }
        sigma_ext(nc, h, f);
    }
}

/// Under a uniform chain a backward row is constant.
proof fn uniform_backward<T: Scalar>(
    startprob: Seq<T>,
    transmat: &Matrix<T>,
    frames: &Matrix<T>,
    u: T,
    t: int,
    i: int,
)
    requires
        uniform_chain(startprob, transmat, frames.ncols as int, u),
        0 <= t < frames.rows.len(),
        0 <= i < frames.ncols,
    ensures
        backward_row(transmat, frames, t)[i] == backward_row(transmat, frames, t)[0],
{
    let nc = frames.ncols as int;
    if t < frames.rows.len() - 1 {
        let next = backward_row(transmat, frames, t + 1);
        let f = |j: int| transmat.at(i, j).s_times(frames.at(t + 1, j)).s_times(next[j]);
        let g = |j: int| transmat.at(0, j).s_times(frames.at(t + 1, j)).s_times(next[j]);
        assert forall|j: int| 0 <= j < nc implies #[trigger] f(j) == g(j) by {
            assert(transmat.at(i, j) == u);
            assert(transmat.at(0, j) == u);
        }
        sigma_ext(nc, f, g);
    }
}

/// Under a uniform chain the posteriors of a frame are the normalised likelihoods
/// of that frame alone: times the sum of the likelihoods they are the likelihoods.
pub proof fn uniform_chain_posteriors<T: Scalar>(
    p: Set<T>,
    l: Set<T>,
    startprob: Seq<T>,
    transmat: &Matrix<T>,
    log_frames: &Matrix<T>,
    frames: &Matrix<T>,
    fwd: &Matrix<T>,
    bwd: &Matrix<T>,
    u: T,
    t: int,
    j: int,
)
    requires
        exact_pass(p, l, startprob, transmat, log_frames, frames, fwd, bwd),
        uniform_chain(startprob, transmat, frames.ncols as int, u),
        0 <= t < frames.rows.len(),
        0 <= j < frames.ncols,
    ensures
        log_posterior_at(fwd, bwd, t, j).s_times(
            sigma(frames.ncols as int, |k: int| log_frames.at(t, k).s_exp()),
        ) == log_frames.at(t, j).s_exp(),
{
    let nc = frames.ncols as int;
    let whole = likelihood(startprob, transmat, frames);
    let a = forward_row(startprob, transmat, frames, t);
    let b = backward_row(transmat, frames, t);
    let w = weight_before(startprob, transmat, frames, u, t);
    let d = b[0];
    let y = |k: int| frames.at(t, k);
    let post = log_posterior_at(fwd, bwd, t, j);
    backward_row_in(p, startprob, transmat, frames, t);
    assert(p.contains(d));
    uniform_forward(p, startprob, transmat, frames, u, t, j);
    let wd = w.s_times(d);
    multiplied(p, w, d);
    let g = |k: int| a[k].s_times(b[k]);
    assert forall|k: int| 0 <= k < nc implies p.contains(#[trigger] y(k)) && g(k) == y(k).s_times(
        wd,
    ) by {
        uniform_forward(p, startprob, transmat, frames, u, t, k);
        uniform_backward(startprob, transmat, frames, u, t, k);
        assert(p.contains(frames.at(t, k)));
        multiplied(p, w, y(k));
        regrouped(p, y(k), w, d);
    }
    let m = sigma(nc, y);
    sum_of_multiples(p, nc, y, wd);
    sum_in(p, nc, y);
    sigma_ext(nc, g, |k: int| y(k).s_times(wd));
    forward_times_backward(p, startprob, transmat, frames, t);
    assert(whole == m.s_times(wd));
    posterior_in(p, l, startprob, transmat, log_frames, frames, fwd, bwd, t, j);
    assert(g(j) == y(j).s_times(wd));
    // post (m wd) == (post m) wd
    regrouped(p, post, m, wd);
    constants(p);
    multiplied(p, m, wd);
    multiplied(p, wd, m);
    if wd == num::<T>(0) {
        assert(whole == num::<T>(0));
    }
    multiplied(p, post, m);
    cancelled(p, post.s_times(m), y(j), wd);
    let e = |k: int| log_frames.at(t, k).s_exp();
    assert forall|k: int| 0 <= k < nc implies #[trigger] e(k) == y(k) by {
        assert(frames.at(t, k) == log_frames.at(t, k).s_exp());
    }
    sigma_ext(nc, e, y);
    assert(frames.at(t, j) == log_frames.at(t, j).s_exp());
}

} // verus!
