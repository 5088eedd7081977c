//! What the scaling pass finds: conditional probabilities, the same as the log-space
//! pass, where arithmetic is exact.

use crate::engine::agreement::{
    backward_row, backward_row_in, chain_in, exact_logs, forward_row, forward_row_in,
    forward_times_backward, frames_of_logs, likelihood, raw_row_is_multiple, row_total_of_raw,
    scaling_product, stays_above,
};
use crate::engine::algorithms::{
    backward_scaled_row, forward_raw_row, forward_scaled_row, log_posterior_at, scale_of,
    scaled_posterior_at, scaled_xi,
};
use crate::engine::expected::{
    cancelled, exact_ln_1p, exact_pass, expected_passage, expected_passage_is_conditional,
    expected_transitions, log_lattices, passage, posterior_in, transitions_are_sums,
};
use crate::exact::{
    constants, exact_numbers, lanes_are_sum, multiplied, regrouped, sum_in, sum_of_multiples,
    values_in,
};
use crate::matrix::Matrix;
use crate::scalar::{lanes, num, sigma, sigma_ext, summed, total, Scalar};
use crate::util::divisor;
use vstd::prelude::*;

verus! {

/// Numbers of `p` are compared with zero and divided exactly.
#[verifier::opaque]
pub open spec fn exact_quotients<T: Scalar>(p: Set<T>) -> bool {
    &&& forall|a: T|
        #![trigger a.s_same(num::<T>(0))]
        p.contains(a) ==> (a.s_same(num(0)) <==> a == num::<T>(0))
    &&& forall|a: T, d: T|
        p.contains(a) && p.contains(d) && d != num::<T>(0) ==> p.contains(#[trigger] a.s_over(d))
            && a.s_over(d).s_times(d) == a
}

/// The scaling factors of all frames.
pub open spec fn scalings<T: Scalar>(
    startprob: Seq<T>,
    transmat: &Matrix<T>,
    frames: &Matrix<T>,
) -> Seq<T> {
    Seq::new(
        frames.rows.len() as nat,
        |u: int| scale_of(forward_raw_row(startprob, transmat, frames, u)),
    )
}

/// The product of the scaling factors from frame `t` on.
pub open spec fn scaling_from<T: Scalar>(scaling: Seq<T>, t: int) -> T
    decreases scaling.len() - t,
{
    if t >= scaling.len() - 1 {
        scaling[t]
    } else {
        scaling_from(scaling, t + 1).s_times(scaling[t])
    }
}

/// `fwd` and `bwd` hold the lattices of the scaling pass.
pub open spec fn scaled_lattices<T: Scalar>(
    startprob: Seq<T>,
    transmat: &Matrix<T>,
    frames: &Matrix<T>,
    fwd: &Matrix<T>,
    bwd: &Matrix<T>,
) -> bool {
    &&& fwd.has_dims(frames.rows.len() as int, frames.ncols as int)
    &&& bwd.has_dims(frames.rows.len() as int, frames.ncols as int)
    &&& forall|t: int, k: int|
        0 <= t < frames.rows.len() && 0 <= k < frames.ncols ==> #[trigger] fwd.at(t, k)
            == forward_scaled_row(startprob, transmat, frames, t)[k]
    &&& forall|t: int, k: int|
        0 <= t < frames.rows.len() && 0 <= k < frames.ncols ==> #[trigger] bwd.at(t, k)
            == backward_scaled_row(
            transmat,
            frames,
            scalings(startprob, transmat, frames),
            t,
        )[k]
}

/// A scaling pass over exact numbers that does not underflow.
pub open spec fn exact_scaled_pass<T: Scalar>(
    p: Set<T>,
    startprob: Seq<T>,
    transmat: &Matrix<T>,
    frames: &Matrix<T>,
    fwd: &Matrix<T>,
    bwd: &Matrix<T>,
) -> bool {
    &&& exact_numbers(p)
    &&& exact_quotients(p)
    &&& chain_in(p, startprob, transmat, frames)
    &&& scaled_lattices(startprob, transmat, frames, fwd, bwd)
    &&& stays_above(startprob, transmat, frames, frames.rows.len() as int)
}

/// `(a c) (b d) == (a b) (c d)`.
proof fn paired<T: Scalar>(p: Set<T>, a: T, b: T, c: T, d: T)
    requires
        exact_numbers(p),
        p.contains(a),
        p.contains(b),
        p.contains(c),
        p.contains(d),
    ensures
        a.s_times(c).s_times(b.s_times(d)) == a.s_times(b).s_times(c.s_times(d)),
        p.contains(a.s_times(b)),
        p.contains(c.s_times(d)),
{
    multiplied(p, a, c);
    multiplied(p, b, d);
    multiplied(p, a, b);
    multiplied(p, c, d);
    multiplied(p, c, b);
    multiplied(p, b, c);
    regrouped(p, a, c, b.s_times(d));
    regrouped(p, c, b, d);
    regrouped(p, b, c, d);
    regrouped(p, a, b, c.s_times(d));
}

/// A scaling factor is a number other than zero.
proof fn scale_in<T: Scalar>(
    p: Set<T>,
    startprob: Seq<T>,
    transmat: &Matrix<T>,
    frames: &Matrix<T>,
    t: int,
)
    requires
        exact_numbers(p),
        chain_in(p, startprob, transmat, frames),
        stays_above(startprob, transmat, frames, frames.rows.len() as int),
        0 <= t < frames.rows.len(),
    ensures
        p.contains(scalings(startprob, transmat, frames)[t]),
        scalings(startprob, transmat, frames)[t] != num::<T>(0),
        p.contains(scaling_product(startprob, transmat, frames, t)),
        p.contains(scaling_product(startprob, transmat, frames, t + 1)),
        scaling_product(startprob, transmat, frames, t + 1) == scaling_product(
            startprob,
            transmat,
            frames,
            t,
        ).s_times(scalings(startprob, transmat, frames)[t]),
{
    raw_row_is_multiple(p, startprob, transmat, frames, t);
    row_total_of_raw(p, startprob, transmat, frames, t);
    let raw = forward_raw_row(startprob, transmat, frames, t);
    let s = scale_of(raw);
    let plain = summed(forward_row(startprob, transmat, frames, t));
    let c = scaling_product(startprob, transmat, frames, t);
    multiplied(p, c, s);
    multiplied(p, plain, c);
    constants(p);
    multiplied(p, total(raw), s);
}

/// Row `t` of the scaled backward lattice is the backward row times the product of
/// the scaling factors from `t` on.
proof fn backward_is_multiple<T: Scalar>(
    p: Set<T>,
    startprob: Seq<T>,
    transmat: &Matrix<T>,
    frames: &Matrix<T>,
    t: int,
)
    requires
        exact_numbers(p),
        chain_in(p, startprob, transmat, frames),
        stays_above(startprob, transmat, frames, frames.rows.len() as int),
        0 <= t < frames.rows.len(),
    ensures
        p.contains(scaling_from(scalings(startprob, transmat, frames), t)),
        forall|i: int|
            0 <= i < frames.ncols ==> #[trigger] backward_scaled_row(
                transmat,
                frames,
                scalings(startprob, transmat, frames),
                t,
            )[i] == backward_row(transmat, frames, t)[i].s_times(
                scaling_from(scalings(startprob, transmat, frames), t),
            ),
    decreases frames.rows.len() - t,
{
    let nc = frames.ncols as int;
    let scaling = scalings(startprob, transmat, frames);
    let rows = backward_scaled_row(transmat, frames, scaling, t);
    let plain = backward_row(transmat, frames, t);
    let s = scaling[t];
    scale_in(p, startprob, transmat, frames, t);
    backward_row_in(p, startprob, transmat, frames, t);
    if t >= frames.rows.len() - 1 {
        constants(p);
        assert forall|i: int| 0 <= i < nc implies #[trigger] rows[i] == plain[i].s_times(
            scaling_from(scaling, t),
        ) by {
            multiplied(p, num(1), s);
            multiplied(p, s, num(1));
        }
    } else {
        backward_is_multiple(p, startprob, transmat, frames, t + 1);
        backward_row_in(p, startprob, transmat, frames, t + 1);
        let c = scaling_from(scaling, t + 1);
        let after = backward_scaled_row(transmat, frames, scaling, t + 1);
        let next = backward_row(transmat, frames, t + 1);
        multiplied(p, c, s);
        assert forall|i: int| 0 <= i < nc implies #[trigger] rows[i] == plain[i].s_times(
            scaling_from(scaling, t),
        ) by {
            let g = |j: int| transmat.at(i, j).s_times(frames.at(t + 1, j)).s_times(next[j]);
            let h = |j: int| transmat.at(i, j).s_times(frames.at(t + 1, j)).s_times(after[j]);
            assert forall|j: int| 0 <= j < nc implies p.contains(#[trigger] g(j)) && h(j) == (
            |j: int| g(j).s_times(c))(j) by {
                let x = transmat.at(i, j);
                let y = frames.at(t + 1, j);
                let z = next[j];
                assert(p.contains(x));
                assert(p.contains(y));
                assert(p.contains(z));
                multiplied(p, x, y);
                multiplied(p, x.s_times(y), z);
                assert(after[j] == z.s_times(c));
                regrouped(p, x.s_times(y), z, c);
            }
            assert(values_in(p, nc, g)) by {
                assert forall|j: int| 0 <= j < nc implies p.contains(#[trigger] g(j)) by {
                }
            }
            assert forall|j: int| 0 <= j < nc implies #[trigger] h(j) == (|j: int|
                g(j).s_times(c))(j) by {
                assert(p.contains(g(j)));
            }
            sigma_ext(nc, h, |j: int| g(j).s_times(c));
            sum_of_multiples(p, nc, g, c);
            sum_in(p, nc, g);
            regrouped(p, sigma(nc, g), c, s);
            assert(rows[i] == sigma(nc, h).s_times(s));
            assert(plain[i] == sigma(nc, g));
        }
    }
}

/// The scaling factors before frame `t` and from it on multiply to all of them.
proof fn scaling_in_two<T: Scalar>(
    p: Set<T>,
    startprob: Seq<T>,
    transmat: &Matrix<T>,
    frames: &Matrix<T>,
    t: int,
)
    requires
        exact_numbers(p),
        chain_in(p, startprob, transmat, frames),
        stays_above(startprob, transmat, frames, frames.rows.len() as int),
        0 <= t < frames.rows.len(),
    ensures
        p.contains(scaling_from(scalings(startprob, transmat, frames), t)),
        scaling_product(startprob, transmat, frames, t).s_times(
            scaling_from(scalings(startprob, transmat, frames), t),
        ) == scaling_product(startprob, transmat, frames, frames.rows.len() as int),
    decreases frames.rows.len() - t,
{
    let scaling = scalings(startprob, transmat, frames);
    scale_in(p, startprob, transmat, frames, t);
    if t < frames.rows.len() - 1 {
        scaling_in_two(p, startprob, transmat, frames, t + 1);
        let a = scaling_product(startprob, transmat, frames, t);
        let s = scaling[t];
        let c = scaling_from(scaling, t + 1);
        multiplied(p, c, s);
        multiplied(p, s, c);
        regrouped(p, a, s, c);
    }
}

/// The product of all scaling factors is the inverse of the likelihood.
proof fn scaling_inverts<T: Scalar>(
    p: Set<T>,
    startprob: Seq<T>,
    transmat: &Matrix<T>,
    frames: &Matrix<T>,
)
    requires
        exact_numbers(p),
        chain_in(p, startprob, transmat, frames),
        stays_above(startprob, transmat, frames, frames.rows.len() as int),
    ensures
        p.contains(likelihood(startprob, transmat, frames)),
        likelihood(startprob, transmat, frames) != num::<T>(0),
        p.contains(scaling_product(startprob, transmat, frames, frames.rows.len() as int)),
        likelihood(startprob, transmat, frames).s_times(
            scaling_product(startprob, transmat, frames, frames.rows.len() as int),
        ) == num::<T>(1),
{
    let n = frames.rows.len() - 1;
    raw_row_is_multiple(p, startprob, transmat, frames, n);
    row_total_of_raw(p, startprob, transmat, frames, n);
    scale_in(p, startprob, transmat, frames, n);
    let whole = likelihood(startprob, transmat, frames);
    let c = scaling_product(startprob, transmat, frames, n);
    let s = scalings(startprob, transmat, frames)[n];
    regrouped(p, whole, c, s);
    multiplied(p, s, whole.s_times(c));
    constants(p);
    multiplied(p, scaling_product(startprob, transmat, frames, n + 1), c);
}

/// A scaled posterior is a conditional probability: times the probability of the
/// frames it is the probability of the frames and of its state.
pub proof fn scaled_posteriors_are_conditional<T: Scalar>(
    p: Set<T>,
    startprob: Seq<T>,
    transmat: &Matrix<T>,
    frames: &Matrix<T>,
    fwd: &Matrix<T>,
    bwd: &Matrix<T>,
    t: int,
    j: int,
)
    requires
        exact_scaled_pass(p, startprob, transmat, frames, fwd, bwd),
        0 <= t < frames.rows.len(),
        0 <= j < frames.ncols,
    ensures
        p.contains(scaled_posterior_at(fwd, bwd, t, j)),
        scaled_posterior_at(fwd, bwd, t, j).s_times(likelihood(startprob, transmat, frames))
            == forward_row(startprob, transmat, frames, t)[j].s_times(
            backward_row(transmat, frames, t)[j],
        ),
{
    let nc = frames.ncols as int;
    let n = frames.rows.len() as int;
    let scaling = scalings(startprob, transmat, frames);
    let alpha = forward_row(startprob, transmat, frames, t);
    let beta = backward_row(transmat, frames, t);
    let s = scaling[t];
    let b = scaling_product(startprob, transmat, frames, t + 1);
    let c = scaling_from(scaling, t);
    let whole = likelihood(startprob, transmat, frames);
    let all = scaling_product(startprob, transmat, frames, n);
    scale_in(p, startprob, transmat, frames, t);
    raw_row_is_multiple(p, startprob, transmat, frames, t);
    forward_row_in(p, startprob, transmat, frames, t);
    backward_row_in(p, startprob, transmat, frames, t);
    backward_is_multiple(p, startprob, transmat, frames, t);
    scaling_in_two(p, startprob, transmat, frames, t);
    scaling_inverts(p, startprob, transmat, frames);
    // What both lattices are multiplied by: all factors, and that of the frame again.
    let q = b.s_times(c);
    let before = scaling_product(startprob, transmat, frames, t);
    multiplied(p, b, c);
    multiplied(p, s, c);
    multiplied(p, c, s);
    regrouped(p, before, s, c);
    regrouped(p, before, c, s);
    assert(q == all.s_times(s));
    let f = |k: int| fwd.at(t, k).s_times(bwd.at(t, k));
    let g = |k: int| alpha[k].s_times(beta[k]);
    assert forall|k: int| 0 <= k < nc implies p.contains(#[trigger] g(k)) && f(k) == g(k).s_times(
        q,
    ) && p.contains(f(k)) by {
        let raw = forward_raw_row(startprob, transmat, frames, t);
        let (x, y) = (alpha[k], beta[k]);
        assert(p.contains(x));
        assert(p.contains(y));
        assert(raw[k] == x.s_times(before));
        regrouped(p, x, before, s);
        assert(fwd.at(t, k) == forward_scaled_row(startprob, transmat, frames, t)[k]);
        assert(fwd.at(t, k) == x.s_times(b));
        assert(bwd.at(t, k) == backward_scaled_row(transmat, frames, scaling, t)[k]);
        assert(bwd.at(t, k) == y.s_times(c));
        paired(p, x, y, b, c);
        multiplied(p, g(k), q);
    }
    assert forall|k: int| 0 <= k < nc implies p.contains(#[trigger] f(k)) && f(k) == (|k: int|
        g(k).s_times(q))(k) by {
        assert(p.contains(g(k)));
    }
    lanes_are_sum(p, nc, f);
    sigma_ext(nc, f, |k: int| g(k).s_times(q));
    sum_of_multiples(p, nc, g, q);
    forward_times_backward(p, startprob, transmat, frames, t);
    sigma_ext(
        nc,
        g,
        |j: int|
            forward_row(startprob, transmat, frames, t)[j].s_times(
                backward_row(transmat, frames, t)[j],
            ),
    );
    let d = lanes(nc, f);
    // The divisor is the factor of the frame.
    multiplied(p, whole, q);
    regrouped(p, whole, all, s);
    constants(p);
    multiplied(p, s, num(1));
    multiplied(p, num(1), s);
    assert(d == s);
    reveal(exact_quotients);
    let joint = f(j);
    assert(p.contains(g(j)));
    let post = joint.s_over(d);
    assert(!d.s_same(num(0)));
    assert(divisor(d) == d);
    assert(scaled_posterior_at(fwd, bwd, t, j) == post);
    assert(p.contains(post) && post.s_times(d) == joint);
    // (post L) q == post d == g q
    regrouped(p, post, whole, q);
    multiplied(p, post, whole);
    if q == num::<T>(0) {
        multiplied(p, q, whole);
    }
    cancelled(p, post.s_times(whole), g(j), q);
}

/// What the scaling pass counts from `i` to `j` between two frames is a conditional
/// probability.
proof fn scaled_passage_is_conditional<T: Scalar>(
    p: Set<T>,
    startprob: Seq<T>,
    transmat: &Matrix<T>,
    frames: &Matrix<T>,
    fwd: &Matrix<T>,
    bwd: &Matrix<T>,
    i: int,
    j: int,
    t: int,
)
    requires
        exact_scaled_pass(p, startprob, transmat, frames, fwd, bwd),
        0 <= t < frames.rows.len() - 1,
        0 <= i < frames.ncols,
        0 <= j < frames.ncols,
    ensures
        p.contains(scaled_xi(fwd, transmat, bwd, frames, i, j, t)),
        p.contains(passage(startprob, transmat, frames, t, i, j)),
        scaled_xi(fwd, transmat, bwd, frames, i, j, t).s_times(
            likelihood(startprob, transmat, frames),
        ) == passage(startprob, transmat, frames, t, i, j),
{
    let scaling = scalings(startprob, transmat, frames);
    let n = frames.rows.len() as int;
    let a = forward_row(startprob, transmat, frames, t)[i];
    let x = transmat.at(i, j);
    let y = frames.at(t + 1, j);
    let z = backward_row(transmat, frames, t + 1)[j];
    let before = scaling_product(startprob, transmat, frames, t);
    let s = scaling[t];
    let b = scaling_product(startprob, transmat, frames, t + 1);
    let c = scaling_from(scaling, t + 1);
    let all = scaling_product(startprob, transmat, frames, n);
    let whole = likelihood(startprob, transmat, frames);
    scale_in(p, startprob, transmat, frames, t);
    raw_row_is_multiple(p, startprob, transmat, frames, t);
    forward_row_in(p, startprob, transmat, frames, t);
    backward_row_in(p, startprob, transmat, frames, t + 1);
    backward_is_multiple(p, startprob, transmat, frames, t + 1);
    scaling_in_two(p, startprob, transmat, frames, t + 1);
    scaling_inverts(p, startprob, transmat, frames);
    assert(p.contains(a));
    assert(p.contains(x));
    assert(p.contains(y));
    assert(p.contains(z));
    let raw = forward_raw_row(startprob, transmat, frames, t);
    assert(raw[i] == a.s_times(before));
    regrouped(p, a, before, s);
    assert(fwd.at(t, i) == forward_scaled_row(startprob, transmat, frames, t)[i]);
    assert(fwd.at(t, i) == a.s_times(b));
    assert(bwd.at(t + 1, j) == backward_scaled_row(transmat, frames, scaling, t + 1)[j]);
    assert(bwd.at(t + 1, j) == z.s_times(c));
    // ((a b) x) y (z c) == ((a x) (y z)) (b c)
    multiplied(p, a, b);
    multiplied(p, b, x);
    multiplied(p, x, b);
    multiplied(p, z, c);
    regrouped(p, a, b, x);
    regrouped(p, a, x, b);
    let ax = a.s_times(x);
    multiplied(p, a, x);
    regrouped(p, ax.s_times(b), y, z.s_times(c));
    regrouped(p, y, z, c);
    multiplied(p, ax, b);
    paired(p, ax, y.s_times(z), b, c);
    let pass = passage(startprob, transmat, frames, t, i, j);
    multiplied(p, ax, y.s_times(z));
    multiplied(p, pass, all);
    assert(scaled_xi(fwd, transmat, bwd, frames, i, j, t) == pass.s_times(all));
    multiplied(p, all, whole);
    multiplied(p, whole, all);
    regrouped(p, pass, all, whole);
    multiplied(p, pass, num(1));
}

/// The transitions that the scaling pass counts from `i` to `j`, times the
/// probability of the frames, are the probabilities of all passages, added up.
pub proof fn scaled_counts_are_expected<T: Scalar>(
    p: Set<T>,
    startprob: Seq<T>,
    transmat: &Matrix<T>,
    frames: &Matrix<T>,
    fwd: &Matrix<T>,
    bwd: &Matrix<T>,
    i: int,
    j: int,
)
    requires
        exact_scaled_pass(p, startprob, transmat, frames, fwd, bwd),
        0 <= i < frames.ncols,
        0 <= j < frames.ncols,
    ensures
        forall|t: int|
            0 <= t < frames.rows.len() - 1 ==> p.contains(
                #[trigger] scaled_xi(fwd, transmat, bwd, frames, i, j, t),
            ) && scaled_xi(fwd, transmat, bwd, frames, i, j, t).s_times(
                likelihood(startprob, transmat, frames),
            ) == passage(startprob, transmat, frames, t, i, j),
        sigma(
            frames.rows.len() - 1,
            |t: int| scaled_xi(fwd, transmat, bwd, frames, i, j, t),
        ).s_times(likelihood(startprob, transmat, frames)) == sigma(
            frames.rows.len() - 1,
            |t: int| passage(startprob, transmat, frames, t, i, j),
        ),
{
    let n = frames.rows.len() - 1;
    let whole = likelihood(startprob, transmat, frames);
    let f = |t: int| scaled_xi(fwd, transmat, bwd, frames, i, j, t);
    let g = |t: int| passage(startprob, transmat, frames, t, i, j);
    assert forall|t: int| 0 <= t < n implies p.contains(#[trigger] f(t)) && f(t).s_times(whole)
        == g(t) by {
        scaled_passage_is_conditional(p, startprob, transmat, frames, fwd, bwd, i, j, t);
    }
    scaling_inverts(p, startprob, transmat, frames);
    sum_of_multiples(p, n, f, whole);
    sigma_ext(n, |t: int| f(t).s_times(whole), g);
    assert forall|t: int| 0 <= t < n implies p.contains(
        #[trigger] scaled_xi(fwd, transmat, bwd, frames, i, j, t),
    ) && scaled_xi(fwd, transmat, bwd, frames, i, j, t).s_times(whole) == passage(
        startprob,
        transmat,
        frames,
        t,
        i,
        j,
    ) by {
        assert(p.contains(f(t)));
    }
}

/// Both passes agree on the posteriors and on the expected transitions.
pub proof fn scaled_pass_agrees_with_log_pass<T: Scalar>(
    p: Set<T>,
    l: Set<T>,
    startprob: Seq<T>,
    transmat: &Matrix<T>,
    log_frames: &Matrix<T>,
    frames: &Matrix<T>,
    fwd: &Matrix<T>,
    bwd: &Matrix<T>,
    log_fwd: &Matrix<T>,
    log_bwd: &Matrix<T>,
    t: int,
    i: int,
    j: int,
)
    requires
        exact_scaled_pass(p, startprob, transmat, frames, fwd, bwd),
        exact_logs(p, l),
        exact_ln_1p(p, l),
        frames_of_logs(l, log_frames, frames),
        log_lattices(startprob, transmat, log_frames, log_fwd, log_bwd),
        0 <= t < frames.rows.len(),
        0 <= i < frames.ncols,
        0 <= j < frames.ncols,
    ensures
        scaled_posterior_at(fwd, bwd, t, j) == log_posterior_at(log_fwd, log_bwd, t, j),
        sigma(
            frames.rows.len() - 1,
            |t: int| scaled_xi(fwd, transmat, bwd, frames, i, j, t),
        ) == expected_transitions(log_fwd, transmat, log_bwd, log_frames, i, j),
{
    let n = frames.rows.len() - 1;
    let whole = likelihood(startprob, transmat, frames);
    scaling_inverts(p, startprob, transmat, frames);
    assert(exact_pass(p, l, startprob, transmat, log_frames, frames, log_fwd, log_bwd));
    scaled_posteriors_are_conditional(p, startprob, transmat, frames, fwd, bwd, t, j);
    posterior_in(p, l, startprob, transmat, log_frames, frames, log_fwd, log_bwd, t, j);
    cancelled(
        p,
        scaled_posterior_at(fwd, bwd, t, j),
        log_posterior_at(log_fwd, log_bwd, t, j),
        whole,
    );
    scaled_counts_are_expected(p, startprob, transmat, frames, fwd, bwd, i, j);
    transitions_are_sums(p, l, startprob, transmat, log_frames, frames, log_fwd, log_bwd, i, j);
    let f = |u: int| scaled_xi(fwd, transmat, bwd, frames, i, j, u);
    let g = |u: int| expected_passage(log_fwd, transmat, log_bwd, log_frames, i, j, u);
    assert forall|u: int| 0 <= u < n implies #[trigger] f(u) == g(u) by {
        expected_passage_is_conditional(
            p,
            l,
            startprob,
            transmat,
            log_frames,
            frames,
            log_fwd,
            log_bwd,
            i,
            j,
            u,
        );
        assert(p.contains(scaled_xi(fwd, transmat, bwd, frames, i, j, u)));
        cancelled(p, f(u), g(u), whole);
    }
    sigma_ext(n, f, g);
    sigma_ext(
        n,
        g,
        |t: int| expected_passage(log_fwd, transmat, log_bwd, log_frames, i, j, t),
    );
}

} // verus!
