//! An iteration of expectation-maximisation never lowers the likelihood: what
//! [`ascent`](crate::engine::ascent) says of reals, said of the model's own numbers.

use crate::engine::agreement::{
    backward_row, backward_row_in, chain_in, exact_logs, forward_row, forward_row_in,
    frames_of_logs, likelihood, stays_above,
};
use crate::engine::algorithms::{
    backward_log_row, backward_scaled_row, forward_log_row, forward_raw_row, forward_scaled_row,
    log_gather, log_posterior_at, log_xi, scale_of, scaled_log_prob, scaled_posterior_at, scaled_xi,
    underflows,
};
use crate::engine::ascent::{
    all_passes, all_starts, frames_gain, kept_or_counted, likelihood_never_falls, one_chain, passes,
    row_kept_or_counted, starts_in, total_facts, Trellis,
};
use crate::engine::emission::EmissionModel;
use crate::engine::expected::{
    cancelled, exact_ln_1p, exact_pass, expected_passage, expected_passage_is_conditional,
    expected_transitions, log_lattices, passage, posterior_in, transitions_are_sums,
};
use crate::engine::fit::{estep_at, estep_upto, EStep};
use crate::engine::hmm::{ForwardBackward, Hmm};
use crate::engine::inference::{
    normalized_rows, updated_count, updated_transitions, Em, Inference,
};
use crate::engine::params::{Implementation, Param};
use crate::engine::scaled::{
    exact_quotients, exact_scaled_pass, scaled_counts_are_expected,
    scaled_posteriors_are_conditional, scalings,
};
use crate::engine::unique::{
    alike, backward_scaled_of_alike, raw_of_alike, same_chain, scaled_score_of_alike,
};
use crate::exact::{
    added, constants, exact_numbers, lanes_are_sum, multiplied, regrouped, sum_in, sum_of_multiples,
    values_in,
};
use crate::linalg::Dense;
use crate::matrix::{row_total, Matrix};
use crate::reals::{is_ln, rsum, rsum_ext, rsum_member, rsum_positive};
use crate::scalar::{lanes, lanes_ext, larger_of, num, sigma, sigma_ext, total, Scalar};
use crate::special::log_sum_exp;
use crate::util::divisor;
use vstd::prelude::*;

verus! {

/// `val` reads the numbers of `p` as reals that are not negative: sums as sums,
/// products as products, and zero as nothing but zero.
#[verifier::opaque]
pub open spec fn reads<T: Scalar>(p: Set<T>, val: spec_fn(T) -> real) -> bool {
    &&& val(num(0)) == 0real
    &&& val(num(1)) == 1real
    &&& forall|a: T| p.contains(a) ==> 0real <= #[trigger] val(a)
    &&& forall|a: T| p.contains(a) && #[trigger] val(a) == 0real ==> a == num::<T>(0)
    &&& forall|a: T, b: T|
        p.contains(a) && p.contains(b) ==> val(#[trigger] a.s_plus(b)) == val(a) + val(b)
    &&& forall|a: T, b: T|
        p.contains(a) && p.contains(b) ==> val(#[trigger] a.s_times(b)) == val(a) * val(b)
}

/// Counts under a flat prior are updated to themselves, and divided exactly.
#[verifier::opaque]
pub open spec fn flat_updates<T: Scalar>(p: Set<T>) -> bool {
    &&& exact_quotients(p)
    &&& forall|s: T|
        p.contains(s) ==> larger_of(
            #[trigger] num::<T>(1).s_minus(num(1)).s_plus(s),
            num(0),
        ) == s
}

pub(crate) proof fn read_constants<T: Scalar>(p: Set<T>, val: spec_fn(T) -> real)
    requires
        reads(p, val),
    ensures
        val(num(0)) == 0real,
        val(num(1)) == 1real,
{
    reveal(reads);
}

pub(crate) proof fn read_sign<T: Scalar>(p: Set<T>, val: spec_fn(T) -> real, a: T)
    requires
        reads(p, val),
        p.contains(a),
    ensures
        0real <= val(a),
        val(a) == 0real <==> a == num::<T>(0),
{
    reveal(reads);
}

pub(crate) proof fn read_sum<T: Scalar>(p: Set<T>, val: spec_fn(T) -> real, a: T, b: T)
    requires
        reads(p, val),
        p.contains(a),
        p.contains(b),
    ensures
        val(a.s_plus(b)) == val(a) + val(b),
{
    reveal(reads);
}

pub(crate) proof fn read_product<T: Scalar>(p: Set<T>, val: spec_fn(T) -> real, a: T, b: T)
    requires
        reads(p, val),
        p.contains(a),
        p.contains(b),
    ensures
        val(a.s_times(b)) == val(a) * val(b),
{
    reveal(reads);
}

/// A sum is read as the sum of what is read.
pub(crate) proof fn read_sigma<T: Scalar>(
    p: Set<T>,
    val: spec_fn(T) -> real,
    n: int,
    f: spec_fn(int) -> T,
    g: spec_fn(int) -> real,
)
    requires
        exact_numbers(p),
        reads(p, val),
        values_in(p, n, f),
        forall|i: int| 0 <= i < n ==> val(#[trigger] f(i)) == g(i),
    ensures
        p.contains(sigma(n, f)),
        val(sigma(n, f)) == rsum(n, g),
    decreases n,
{
    sum_in(p, n, f);
    if n > 0 {
        read_sigma(p, val, n - 1, f, g);
        assert(p.contains(f(n - 1)));
        assert(val(f(n - 1)) == g(n - 1));
        read_sum(p, val, sigma(n - 1, f), f(n - 1));
    } else {
        read_constants(p, val);
    }
}

/// The start probabilities, read.
pub open spec fn start_of<T>(val: spec_fn(T) -> real, startprob: Seq<T>) -> spec_fn(int) -> real {
    |i: int| val(startprob[i])
}

/// The transition probabilities, read.
pub open spec fn trans_of<T>(
    val: spec_fn(T) -> real,
    transmat: &Matrix<T>,
) -> spec_fn(int, int) -> real {
    |i: int, j: int| val(transmat.at(i, j))
}

/// A chain and its frames, read.
pub open spec fn trellis_of<T>(
    val: spec_fn(T) -> real,
    startprob: Seq<T>,
    transmat: &Matrix<T>,
    frames: &Matrix<T>,
) -> Trellis {
    Trellis {
        nc: frames.ncols as int,
        n: frames.rows.len() as int,
        start: start_of(val, startprob),
        trans: trans_of(val, transmat),
        emit: |t: int, j: int| val(frames.at(t, j)),
    }
}

proof fn trellis_wf<T: Scalar>(
    p: Set<T>,
    val: spec_fn(T) -> real,
    startprob: Seq<T>,
    transmat: &Matrix<T>,
    frames: &Matrix<T>,
)
    requires
        reads(p, val),
        chain_in(p, startprob, transmat, frames),
    ensures
        trellis_of(val, startprob, transmat, frames).wf(),
{
    let c = trellis_of(val, startprob, transmat, frames);
    assert forall|i: int| 0 <= i < c.nc implies 0real <= #[trigger] (c.start)(i) by {
        assert(p.contains(startprob[i]));
        read_sign(p, val, startprob[i]);
    }
    assert forall|i: int, j: int| 0 <= i < c.nc && 0 <= j < c.nc implies 0real <= #[trigger] (
    c.trans)(i, j) by {
        assert(p.contains(transmat.at(i, j)));
        read_sign(p, val, transmat.at(i, j));
    }
    assert forall|t: int, j: int| 0 <= t < c.n && 0 <= j < c.nc implies 0real <= #[trigger] (
    c.emit)(t, j) by {
        assert(p.contains(frames.at(t, j)));
        read_sign(p, val, frames.at(t, j));
    }
}

proof fn forward_reads<T: Scalar>(
    p: Set<T>,
    val: spec_fn(T) -> real,
    startprob: Seq<T>,
    transmat: &Matrix<T>,
    frames: &Matrix<T>,
    t: int,
    j: int,
)
    requires
        exact_numbers(p),
        reads(p, val),
        chain_in(p, startprob, transmat, frames),
        0 <= t < frames.rows.len(),
        0 <= j < frames.ncols,
    ensures
        p.contains(forward_row(startprob, transmat, frames, t)[j]),
        val(forward_row(startprob, transmat, frames, t)[j]) == trellis_of(
            val,
            startprob,
            transmat,
            frames,
        ).alpha(t)(j),
    decreases t,
{
    let nc = frames.ncols as int;
    let c = trellis_of(val, startprob, transmat, frames);
    forward_row_in(p, startprob, transmat, frames, t);
    let y = frames.at(t, j);
    assert(p.contains(y));
    if t > 0 {
        forward_row_in(p, startprob, transmat, frames, t - 1);
        let row = forward_row(startprob, transmat, frames, t - 1);
        let prev = c.alpha(t - 1);
        let f = |i: int| row[i].s_times(transmat.at(i, j));
        let g = |i: int| prev(i) * (c.trans)(i, j);
        assert forall|i: int| 0 <= i < nc implies p.contains(#[trigger] f(i)) && val(f(i)) == g(i) by {
            forward_reads(p, val, startprob, transmat, frames, t - 1, i);
            assert(p.contains(transmat.at(i, j)));
            multiplied(p, row[i], transmat.at(i, j));
            read_product(p, val, row[i], transmat.at(i, j));
        }
        read_sigma(p, val, nc, f, g);
        read_product(p, val, sigma(nc, f), y);
    } else {
        assert(p.contains(startprob[j]));
        read_product(p, val, startprob[j], y);
    }
}

proof fn backward_reads<T: Scalar>(
    p: Set<T>,
    val: spec_fn(T) -> real,
    startprob: Seq<T>,
    transmat: &Matrix<T>,
    frames: &Matrix<T>,
    t: int,
    i: int,
)
    requires
        exact_numbers(p),
        reads(p, val),
        chain_in(p, startprob, transmat, frames),
        0 <= t < frames.rows.len(),
        0 <= i < frames.ncols,
    ensures
        p.contains(backward_row(transmat, frames, t)[i]),
        val(backward_row(transmat, frames, t)[i]) == trellis_of(
            val,
            startprob,
            transmat,
            frames,
        ).beta(t)(i),
    decreases frames.rows.len() - t,
{
    let nc = frames.ncols as int;
    let c = trellis_of(val, startprob, transmat, frames);
    backward_row_in(p, startprob, transmat, frames, t);
    if t < frames.rows.len() - 1 {
        backward_row_in(p, startprob, transmat, frames, t + 1);
        let row = backward_row(transmat, frames, t + 1);
        let next = c.beta(t + 1);
        let f = |j: int| transmat.at(i, j).s_times(frames.at(t + 1, j)).s_times(row[j]);
        let g = |j: int| (c.trans)(i, j) * (c.emit)(t + 1, j) * next(j);
        assert forall|j: int| 0 <= j < nc implies p.contains(#[trigger] f(j)) && val(f(j)) == g(j) by {
            backward_reads(p, val, startprob, transmat, frames, t + 1, j);
            assert(p.contains(transmat.at(i, j)));
            assert(p.contains(frames.at(t + 1, j)));
            regrouped(p, transmat.at(i, j), frames.at(t + 1, j), row[j]);
            read_product(p, val, transmat.at(i, j), frames.at(t + 1, j));
            read_product(p, val, transmat.at(i, j).s_times(frames.at(t + 1, j)), row[j]);
        }
        read_sigma(p, val, nc, f, g);
    } else {
        read_constants(p, val);
    }
}

/// The probability of the frames, read, is the mass of the trellis.
pub(crate) proof fn likelihood_reads<T: Scalar>(
    p: Set<T>,
    val: spec_fn(T) -> real,
    startprob: Seq<T>,
    transmat: &Matrix<T>,
    frames: &Matrix<T>,
)
    requires
        exact_numbers(p),
        reads(p, val),
        chain_in(p, startprob, transmat, frames),
    ensures
        p.contains(likelihood(startprob, transmat, frames)),
        val(likelihood(startprob, transmat, frames)) == trellis_of(
            val,
            startprob,
            transmat,
            frames,
        ).mass(),
{
    let last = frames.rows.len() - 1;
    let c = trellis_of(val, startprob, transmat, frames);
    let row = forward_row(startprob, transmat, frames, last);
    forward_row_in(p, startprob, transmat, frames, last);
    let f = |i: int| row[i];
    assert forall|i: int| 0 <= i < frames.ncols implies p.contains(#[trigger] f(i)) && val(f(i))
        == c.alpha(last)(i) by {
        forward_reads(p, val, startprob, transmat, frames, last, i);
    }
    read_sigma(p, val, frames.ncols as int, f, c.alpha(last));
}

/// The lattices of a pass over exact frames are exact.
proof fn pass_is_exact<T: Scalar>(
    p: Set<T>,
    l: Set<T>,
    startprob: Seq<T>,
    transmat: &Matrix<T>,
    frames: &Matrix<T>,
    fb: &ForwardBackward<T>,
)
    requires
        exact_numbers(p),
        exact_logs(p, l),
        chain_in(p, startprob, transmat, frames),
        frames_of_logs(l, &fb.frameprob, frames),
        likelihood(startprob, transmat, frames) != num::<T>(0),
        fb.has_dims(frames.rows.len() as int, frames.ncols as int),
        fb.is_log(startprob, transmat),
    ensures
        exact_pass(p, l, startprob, transmat, &fb.frameprob, frames, &fb.fwd, &fb.bwd),
{
    let fwd = &fb.fwd;
    let bwd = &fb.bwd;
    let logs = &fb.frameprob;
    let ns = frames.rows.len() as int;
    assert forall|t: int, k: int| 0 <= t < ns && 0 <= k < frames.ncols implies #[trigger] fwd.at(
        t,
        k,
    ) == forward_log_row(startprob, transmat, logs, t)[k] by {
        assert(fwd@[t] == forward_log_row(startprob, transmat, logs, t));
    }
    assert forall|t: int, k: int| 0 <= t < ns && 0 <= k < frames.ncols implies #[trigger] bwd.at(
        t,
        k,
    ) == backward_log_row(transmat, logs, t)[k] by {
        assert(bwd@[t] == backward_log_row(transmat, logs, t));
    }
    assert(log_lattices(startprob, transmat, logs, fwd, bwd));
}

/// The values that a pass worked with stand for `frames`: their logarithms in log
/// space, themselves with scaling.
pub open spec fn frames_match<T: Scalar>(
    implementation: Implementation,
    l: Set<T>,
    frameprob: &Matrix<T>,
    frames: &Matrix<T>,
) -> bool {
    match implementation {
        Implementation::Log => frames_of_logs(l, frameprob, frames),
        Implementation::Scaling => alike(frameprob, frames),
    }
}

/// The lattices of a scaling pass over exact frames are exact.
proof fn scaled_pass_is_exact<T: Scalar>(
    p: Set<T>,
    startprob: Seq<T>,
    transmat: &Matrix<T>,
    frames: &Matrix<T>,
    fb: &ForwardBackward<T>,
)
    requires
        exact_numbers(p),
        exact_quotients(p),
        chain_in(p, startprob, transmat, frames),
        transmat.has_dims(frames.ncols as int, frames.ncols as int),
        alike(&fb.frameprob, frames),
        fb.has_dims(frames.rows.len() as int, frames.ncols as int),
        fb.is_scaled(startprob, transmat),
    ensures
        exact_scaled_pass(p, startprob, transmat, frames, &fb.fwd, &fb.bwd),
        forall|i: int, j: int, t: int|
            0 <= i < frames.ncols && 0 <= j < frames.ncols && 0 <= t < frames.rows.len() - 1
                ==> #[trigger] scaled_xi(&fb.fwd, transmat, &fb.bwd, &fb.frameprob, i, j, t)
                == scaled_xi(&fb.fwd, transmat, &fb.bwd, frames, i, j, t),
{
    let own = &fb.frameprob;
    let ns = frames.rows.len() as int;
    let scaling = scalings(startprob, transmat, frames);
    let own_scaling = Seq::new(
        ns as nat,
        |u: int| scale_of(forward_raw_row(startprob, transmat, own, u)),
    );
    assert(same_chain(transmat, own, transmat, frames));
    assert forall|t: int| 0 <= t < ns implies #[trigger] scaling[t] == own_scaling[t] by {
        raw_of_alike(startprob, transmat, own, transmat, frames, t);
    }
    assert(scaling =~= own_scaling);
    assert forall|t: int| 0 <= t < ns implies !(#[trigger] underflows(
        startprob,
        transmat,
        frames,
        t,
    )) by {
        raw_of_alike(startprob, transmat, own, transmat, frames, t);
        assert(!underflows(startprob, transmat, own, t));
    }
    assert forall|t: int, k: int| 0 <= t < ns && 0 <= k < frames.ncols implies #[trigger] fb.fwd.at(
        t,
        k,
    ) == forward_scaled_row(startprob, transmat, frames, t)[k] by {
        raw_of_alike(startprob, transmat, own, transmat, frames, t);
        assert(fb.fwd@[t] == forward_scaled_row(startprob, transmat, own, t));
    }
    assert forall|t: int, k: int| 0 <= t < ns && 0 <= k < frames.ncols implies #[trigger] fb.bwd.at(
        t,
        k,
    ) == backward_scaled_row(transmat, frames, scaling, t)[k] by {
        backward_scaled_of_alike(transmat, own, transmat, frames, scaling, t);
        assert(fb.bwd@[t] == backward_scaled_row(transmat, own, own_scaling, t));
    }
    assert forall|i: int, j: int, t: int|
        0 <= i < frames.ncols && 0 <= j < frames.ncols && 0 <= t < ns - 1 implies #[trigger] scaled_xi(
        &fb.fwd,
        transmat,
        &fb.bwd,
        own,
        i,
        j,
        t,
    ) == scaled_xi(&fb.fwd, transmat, &fb.bwd, frames, i, j, t) by {
        assert(own.at(t + 1, j) == frames.at(t + 1, j));
    }
}

/// A scaling pass over frames that hold the same entries finds their score.
pub(crate) proof fn same_scores<T: Scalar>(
    p: Set<T>,
    startprob: Seq<T>,
    transmat: &Matrix<T>,
    frames: &Matrix<T>,
    fb: &ForwardBackward<T>,
)
    requires
        chain_in(p, startprob, transmat, frames),
        transmat.has_dims(frames.ncols as int, frames.ncols as int),
        alike(&fb.frameprob, frames),
        fb.is_scaled(startprob, transmat),
    ensures
        stays_above(startprob, transmat, frames, frames.rows.len() as int),
        fb.log_prob == scaled_log_prob(
            startprob,
            transmat,
            frames,
            frames.rows.len() as int,
        ),
{
    let own = &fb.frameprob;
    assert(same_chain(transmat, own, transmat, frames));
    assert forall|t: int| 0 <= t < frames.rows.len() implies !(#[trigger] underflows(
        startprob,
        transmat,
        frames,
        t,
    )) by {
        raw_of_alike(startprob, transmat, own, transmat, frames, t);
        assert(!underflows(startprob, transmat, own, t));
    }
    scaled_score_of_alike(startprob, transmat, own, transmat, frames, frames.rows.len() as int);
}

/// A posterior, read, is the part of the mass that goes through its state.
pub(crate) proof fn posterior_reads<T: Scalar>(
    p: Set<T>,
    l: Set<T>,
    val: spec_fn(T) -> real,
    implementation: Implementation,
    startprob: Seq<T>,
    transmat: &Matrix<T>,
    frames: &Matrix<T>,
    fb: &ForwardBackward<T>,
    t: int,
    i: int,
)
    requires
        exact_numbers(p),
        exact_quotients(p),
        exact_logs(p, l),
        reads(p, val),
        chain_in(p, startprob, transmat, frames),
        transmat.has_dims(frames.ncols as int, frames.ncols as int),
        frames_match(implementation, l, &fb.frameprob, frames),
        likelihood(startprob, transmat, frames) != num::<T>(0),
        fb.has_dims(frames.rows.len() as int, frames.ncols as int),
        fb.is_pass(implementation, startprob, transmat),
        0 <= t < frames.rows.len(),
        0 <= i < frames.ncols,
    ensures
        0real < trellis_of(val, startprob, transmat, frames).mass(),
        p.contains(fb.posteriors.at(t, i)),
        val(fb.posteriors.at(t, i)) == trellis_of(val, startprob, transmat, frames).at(t, i)
            / trellis_of(val, startprob, transmat, frames).mass(),
{
    let c = trellis_of(val, startprob, transmat, frames);
    let whole = likelihood(startprob, transmat, frames);
    let fwd = &fb.fwd;
    let bwd = &fb.bwd;
    likelihood_reads(p, val, startprob, transmat, frames);
    read_sign(p, val, whole);
    let g = fb.posteriors.at(t, i);
    match implementation {
        Implementation::Log => {
            pass_is_exact(p, l, startprob, transmat, frames, fb);
            posterior_in(p, l, startprob, transmat, &fb.frameprob, frames, fwd, bwd, t, i);
            assert(g == log_posterior_at(fwd, bwd, t, i));
        },
        Implementation::Scaling => {
            scaled_pass_is_exact(p, startprob, transmat, frames, fb);
            scaled_posteriors_are_conditional(p, startprob, transmat, frames, fwd, bwd, t, i);
            assert(g == scaled_posterior_at(fwd, bwd, t, i));
        },
    }
    forward_reads(p, val, startprob, transmat, frames, t, i);
    backward_reads(p, val, startprob, transmat, frames, t, i);
    let a = forward_row(startprob, transmat, frames, t)[i];
    let b = backward_row(transmat, frames, t)[i];
    read_product(p, val, a, b);
    read_product(p, val, g, whole);
    divided(val(g), c.mass(), c.at(t, i));
}

/// What times the likelihood is the probability of a passage, read, is the part of
/// the mass that passes.
proof fn passage_reads<T: Scalar>(
    p: Set<T>,
    val: spec_fn(T) -> real,
    startprob: Seq<T>,
    transmat: &Matrix<T>,
    frames: &Matrix<T>,
    v: T,
    i: int,
    j: int,
    t: int,
)
    requires
        exact_numbers(p),
        reads(p, val),
        chain_in(p, startprob, transmat, frames),
        p.contains(v),
        v.s_times(likelihood(startprob, transmat, frames)) == passage(
            startprob,
            transmat,
            frames,
            t,
            i,
            j,
        ),
        likelihood(startprob, transmat, frames) != num::<T>(0),
        0 <= t < frames.rows.len() - 1,
        0 <= i < frames.ncols,
        0 <= j < frames.ncols,
    ensures
        val(v) == trellis_of(val, startprob, transmat, frames).passing(t, i, j) / trellis_of(
            val,
            startprob,
            transmat,
            frames,
        ).mass(),
{
    let c = trellis_of(val, startprob, transmat, frames);
    let whole = likelihood(startprob, transmat, frames);
    likelihood_reads(p, val, startprob, transmat, frames);
    read_sign(p, val, whole);
    forward_reads(p, val, startprob, transmat, frames, t, i);
    backward_reads(p, val, startprob, transmat, frames, t + 1, j);
    let u = forward_row(startprob, transmat, frames, t)[i];
    let x = transmat.at(i, j);
    let y = frames.at(t + 1, j);
    let z = backward_row(transmat, frames, t + 1)[j];
    assert(p.contains(x));
    assert(p.contains(y));
    multiplied(p, u, x);
    multiplied(p, y, z);
    read_product(p, val, u, x);
    read_product(p, val, y, z);
    read_product(p, val, u.s_times(x), y.s_times(z));
    read_product(p, val, v, whole);
    let (ru, rx, ry, rz) = (val(u), val(x), val(y), val(z));
    assert((ru * rx) * (ry * rz) == ru * (rx * ry * rz)) by (nonlinear_arith);
    assert(passage(startprob, transmat, frames, t, i, j) == u.s_times(x).s_times(y.s_times(z)));
    divided(val(v), c.mass(), c.passing(t, i, j));
}

/// What a pass found, read: its posteriors at the first frame and its expected
/// transitions are the expected counts of the trellis.
proof fn pass_reads<T: Scalar>(
    p: Set<T>,
    l: Set<T>,
    val: spec_fn(T) -> real,
    implementation: Implementation,
    startprob: Seq<T>,
    transmat: &Matrix<T>,
    frames: &Matrix<T>,
    fb: &ForwardBackward<T>,
    i: int,
    j: int,
)
    requires
        exact_numbers(p),
        exact_quotients(p),
        exact_logs(p, l),
        exact_ln_1p(p, l),
        reads(p, val),
        chain_in(p, startprob, transmat, frames),
        transmat.has_dims(frames.ncols as int, frames.ncols as int),
        frames_match(implementation, l, &fb.frameprob, frames),
        likelihood(startprob, transmat, frames) != num::<T>(0),
        fb.has_dims(frames.rows.len() as int, frames.ncols as int),
        fb.is_pass(implementation, startprob, transmat),
        0 <= i < frames.ncols,
        0 <= j < frames.ncols,
    ensures
        0real < trellis_of(val, startprob, transmat, frames).mass(),
        p.contains(fb.posteriors.at(0, i)),
        val(fb.posteriors.at(0, i)) == starts_in(trellis_of(val, startprob, transmat, frames), i),
        p.contains(fb.transitions(implementation, transmat, i, j)),
        val(fb.transitions(implementation, transmat, i, j)) == passes(
            trellis_of(val, startprob, transmat, frames),
            i,
            j,
        ),
{
    let c = trellis_of(val, startprob, transmat, frames);
    let fwd = &fb.fwd;
    let bwd = &fb.bwd;
    let logs = &fb.frameprob;
    let ns = frames.rows.len() as int;
    let h = |t: int| c.passing(t, i, j) / c.mass();
    posterior_reads(p, l, val, implementation, startprob, transmat, frames, fb, 0, i);
    match implementation {
        Implementation::Log => {
            pass_is_exact(p, l, startprob, transmat, frames, fb);
            transitions_are_sums(p, l, startprob, transmat, logs, frames, fwd, bwd, i, j);
            let f = |t: int| expected_passage(fwd, transmat, bwd, logs, i, j, t);
            assert forall|t: int| 0 <= t < ns - 1 implies p.contains(#[trigger] f(t)) && val(f(t))
                == h(t) by {
                expected_passage_is_conditional(
                    p,
                    l,
                    startprob,
                    transmat,
                    logs,
                    frames,
                    fwd,
                    bwd,
                    i,
                    j,
                    t,
                );
                passage_reads(p, val, startprob, transmat, frames, f(t), i, j, t);
            }
            read_sigma(p, val, ns - 1, f, h);
            transitions_are_expected(fb, transmat, i, j);
        },
        Implementation::Scaling => {
            scaled_pass_is_exact(p, startprob, transmat, frames, fb);
            scaled_counts_are_expected(p, startprob, transmat, frames, fwd, bwd, i, j);
            let f = |t: int| scaled_xi(fwd, transmat, bwd, logs, i, j, t);
            assert forall|t: int| 0 <= t < ns - 1 implies p.contains(#[trigger] f(t)) && val(f(t))
                == h(t) by {
                assert(p.contains(scaled_xi(fwd, transmat, bwd, frames, i, j, t)));
                assert(f(t) == scaled_xi(fwd, transmat, bwd, frames, i, j, t));
                passage_reads(p, val, startprob, transmat, frames, f(t), i, j, t);
            }
            read_sigma(p, val, ns - 1, f, h);
            sigma_ext(
                ns - 1,
                f,
                |t: int| scaled_xi(&fb.fwd, transmat, &fb.bwd, &fb.frameprob, i, j, t),
            );
        },
    }
}

proof fn divided(a: real, m: real, b: real)
    requires
        0real < m,
        a * m == b,
    ensures
        a == b / m,
{
    assert(a == b / m) by (nonlinear_arith)
        requires
            0real < m,
            a * m == b,
    ;
}

proof fn gather_ext<T: Scalar>(n: int, f: spec_fn(int) -> T, g: spec_fn(int) -> T)
    requires
        forall|t: int| 0 <= t < n ==> #[trigger] f(t) == g(t),
    ensures
        log_gather(n, f) == log_gather(n, g),
    decreases n,
{
    if n > 0 {
        gather_ext(n - 1, f, g);
        assert(f(n - 1) == g(n - 1));
    }
}

proof fn transitions_are_expected<T: Scalar>(
    fb: &ForwardBackward<T>,
    transmat: &Matrix<T>,
    i: int,
    j: int,
)
    ensures
        fb.transitions(Implementation::Log, transmat, i, j) == expected_transitions(
            &fb.fwd,
            transmat,
            &fb.bwd,
            &fb.frameprob,
            i,
            j,
        ),
{
    let n = fb.frameprob.rows.len() - 1;
    let m = log_sum_exp(fb.fwd.row_view(n));
    let f = |t: int| log_xi(&fb.fwd, transmat, &fb.bwd, &fb.frameprob, m, i, j, t);
    gather_ext(
        n,
        |t: int|
            log_xi(
                &fb.fwd,
                transmat,
                &fb.bwd,
                &fb.frameprob,
                log_sum_exp(fb.fwd.row_view(fb.frameprob.rows.len() as int - 1)),
                i,
                j,
                t,
            ),
        f,
    );
    gather_ext(
        n,
        |t: int|
            log_xi(
                &fb.fwd,
                transmat,
                &fb.bwd,
                &fb.frameprob,
                log_sum_exp(fb.fwd.row_view(fb.frameprob.rows.len() - 1)),
                i,
                j,
                t,
            ),
        f,
    );
}

/// The sequences of an E-step, read.
pub open spec fn trellises_of<T>(
    val: spec_fn(T) -> real,
    startprob: Seq<T>,
    transmat: &Matrix<T>,
    frames: Seq<Matrix<T>>,
) -> spec_fn(int) -> Trellis {
    |s: int| trellis_of(val, startprob, transmat, &frames[s])
}

/// The frames of every sequence of an E-step are exact, and have a probability.
pub open spec fn exact_sequences<T: Dense, E: EmissionModel<T>>(
    p: Set<T>,
    l: Set<T>,
    implementation: Implementation,
    start: Seq<T>,
    trans: &Matrix<T>,
    tr: EStep<T, E>,
    frames: Seq<Matrix<T>>,
    count: int,
) -> bool {
    forall|s: int|
        0 <= s < count ==> chain_in(p, start, trans, #[trigger] &frames[s]) && frames_match(
            implementation,
            l,
            &tr.fbs[s].frameprob,
            &frames[s],
        ) && tr.fbs[s].frameprob.dims() == frames[s].dims() && likelihood(start, trans, &frames[s]) != num::<T>(0)
}

/// The entries of `frames` are numbers of `p`.
pub open spec fn frames_in<T: Scalar>(p: Set<T>, frames: &Matrix<T>) -> bool {
    forall|t: int, j: int|
        0 <= t < frames.rows.len() && 0 <= j < frames.ncols ==> p.contains(#[trigger] frames.at(t, j))
}

/// The statistics after `k` sequences, read, are their expected counts.
proof fn statistics_read<T: Dense, E: EmissionModel<T>>(
    p: Set<T>,
    l: Set<T>,
    val: spec_fn(T) -> real,
    h: &Hmm<T, E>,
    x: &Matrix<T>,
    ranges: Seq<(usize, usize)>,
    start: Seq<T>,
    trans: &Matrix<T>,
    tr: EStep<T, E>,
    frames: Seq<Matrix<T>>,
    count: int,
    k: int,
    i: int,
    j: int,
)
    requires
        exact_numbers(p),
        exact_logs(p, l),
        exact_ln_1p(p, l),
        exact_quotients(p),
        reads(p, val),
        trans.has_dims(h.inference.states(), h.inference.states()),
        estep_upto(h, x, ranges, start, trans, tr, count),
        exact_sequences(p, l, h.implementation, start, trans, tr, frames, count),
        0 <= k <= count,
        0 <= i < h.inference.states(),
        0 <= j < h.inference.states(),
    ensures
        h.params.members().contains(Param::Start) ==> p.contains(tr.cores[k].start@[i]) && val(
            tr.cores[k].start@[i],
        ) == all_starts(k, trellises_of(val, start, trans, frames), i),
        h.params.members().contains(Param::Trans) ==> p.contains(tr.cores[k].trans.at(i, j)) && val(
            tr.cores[k].trans.at(i, j),
        ) == all_passes(k, trellises_of(val, start, trans, frames), i, j),
    decreases k,
{
    let old = trellises_of(val, start, trans, frames);
    let f = |s: int| starts_in(old(s), i);
    let g = |s: int| passes(old(s), i, j);
    constants(p);
    read_constants(p, val);
    if k > 0 {
        statistics_read(p, l, val, h, x, ranges, start, trans, tr, frames, count, k - 1, i, j);
        assert(estep_at(h, x, ranges, start, trans, tr, k - 1));
        let fb = tr.fbs[k - 1];
        assert(chain_in(p, start, trans, &frames[k - 1]));
        pass_reads(p, l, val, h.implementation, start, trans, &frames[k - 1], &fb, i, j);
        let before = tr.cores[k - 1];
        let post = fb.posteriors.at(0, i);
        let moved = fb.transitions(h.implementation, trans, i, j);
        if h.params.members().contains(Param::Start) {
            added(p, before.start@[i], post);
            read_sum(p, val, before.start@[i], post);
            assert(tr.cores[k].start@[i] == before.start@[i].s_plus(post));
            assert(rsum(k, f) == rsum(k - 1, f) + f(k - 1));
        }
        if h.params.members().contains(Param::Trans) {
            if fb.posteriors.rows.len() > 1 {
                added(p, before.trans.at(i, j), moved);
                read_sum(p, val, before.trans.at(i, j), moved);
                assert(tr.cores[k].trans.at(i, j) == before.trans.at(i, j).s_plus(moved));
            } else {
                assert(tr.cores[k].trans.at(i, j) == before.trans.at(i, j));
                assert(old(k - 1).n - 1 == 0);
                assert(passes(old(k - 1), i, j) == 0real);
            }
            assert(rsum(k, g) == rsum(k - 1, g) + g(k - 1));
        }
    } else {
        assert(tr.cores[0].start@[i] == num::<T>(0));
        assert(tr.cores[0].trans.at(i, j) == num::<T>(0));
    }
}

/// A count under a flat prior is updated to itself, where no count goes with a
/// parameter that is zero.
proof fn flat_count<T: Scalar>(p: Set<T>, prior: T, s: T, current: T)
    requires
        flat_updates(p),
        prior == num::<T>(1),
        p.contains(s),
        p.contains(current),
        current == num::<T>(0) ==> s == num::<T>(0),
    ensures
        updated_count(prior, s, current) == s,
{
    reveal(flat_updates);
    reveal(exact_quotients);
    assert(larger_of(num::<T>(1).s_minus(num(1)).s_plus(s), num(0)) == s);
}

/// A quotient by a sum, read, times the sum is the dividend; and where the sum is
/// zero, so is the dividend.
pub(crate) proof fn quotient_reads<T: Scalar>(p: Set<T>, val: spec_fn(T) -> real, a: T, d: T, q: T)
    requires
        exact_numbers(p),
        reads(p, val),
        flat_updates(p),
        p.contains(a),
        p.contains(d),
        val(a) <= val(d),
        d.s_same(num(0)) || q == a.s_over(d),
    ensures
        val(q) * val(d) == val(a),
{
    reveal(flat_updates);
    reveal(exact_quotients);
    read_sign(p, val, a);
    read_sign(p, val, d);
    if d == num::<T>(0) {
        let x = val(q);
        assert(x * 0real == 0real) by (nonlinear_arith);
    } else {
        assert(!d.s_same(num(0)));
        assert(a.s_over(d).s_times(d) == a);
        read_product(p, val, q, d);
    }
}

/// A quotient by a sum is a number, and so is what stands for it where the sum is
/// zero.
pub(crate) proof fn quotient_in<T: Scalar>(p: Set<T>, val: spec_fn(T) -> real, a: T, d: T, q: T)
    requires
        exact_numbers(p),
        reads(p, val),
        flat_updates(p),
        p.contains(a),
        p.contains(d),
        if d.s_same(num(0)) {
            q == a || q == a.s_over(num(1))
        } else {
            q == a.s_over(d)
        },
    ensures
        p.contains(q),
{
    reveal(flat_updates);
    reveal(exact_quotients);
    constants(p);
    read_constants(p, val);
    assert(num::<T>(1) != num::<T>(0));
    if d.s_same(num(0)) {
        assert(p.contains(a.s_over(num(1))));
    } else {
        assert(d != num::<T>(0));
    }
}

/// The first `n` values sum to 1, or are all zero.
pub open spec fn sums_to_one<T: Scalar>(n: int, f: spec_fn(int) -> T) -> bool {
    ||| lanes(n, f) == num::<T>(1)
    ||| forall|i: int| 0 <= i < n ==> #[trigger] f(i) == num::<T>(0)
}

/// Numbers divided by their sum sum to 1, or are all zero.
pub(crate) proof fn quotients_sum_to_one<T: Scalar>(
    p: Set<T>,
    val: spec_fn(T) -> real,
    n: int,
    f: spec_fn(int) -> T,
    d: T,
    g: spec_fn(int) -> T,
)
    requires
        exact_numbers(p),
        reads(p, val),
        flat_updates(p),
        d == sigma(n, f),
        forall|i: int| 0 <= i < n ==> p.contains(#[trigger] f(i)),
        forall|i: int|
            0 <= i < n ==> if d.s_same(num(0)) {
                #[trigger] g(i) == f(i) || g(i) == f(i).s_over(num(1))
            } else {
                g(i) == f(i).s_over(d)
            },
    ensures
        sums_to_one(n, g),
{
    let one = num::<T>(1);
    let h = |i: int| val(f(i));
    sum_in(p, n, f);
    constants(p);
    read_constants(p, val);
    read_sigma(p, val, n, f, h);
    assert forall|i: int| 0 <= i < n implies 0real <= #[trigger] h(i) by {
        read_sign(p, val, f(i));
    }
    reveal(flat_updates);
    reveal(exact_quotients);
    if d.s_same(num(0)) {
        assert(d == num::<T>(0));
        assert forall|i: int| 0 <= i < n implies #[trigger] g(i) == num::<T>(0) by {
            rsum_member(n, h, i);
            assert(h(i) <= 0real);
            read_sign(p, val, f(i));
            assert(f(i) == num::<T>(0));
            let q = f(i).s_over(one);
            assert(p.contains(q) && q.s_times(one) == f(i));
            multiplied(p, q, one);
        }
    } else {
        assert(d != num::<T>(0));
        assert forall|i: int| 0 <= i < n implies p.contains(#[trigger] g(i)) && g(i).s_times(d)
            == f(i) by {
            assert(p.contains(f(i)));
            assert(f(i).s_over(d).s_times(d) == f(i));
        }
        sum_in(p, n, g);
        sum_of_multiples(p, n, g, d);
        sigma_ext(n, f, |i: int| g(i).s_times(d));
        multiplied(p, d, one);
        multiplied(p, sigma(n, g), d);
        cancelled(p, sigma(n, g), one, d);
        if 0 <= n {
            lanes_are_sum(p, n, g);
        } else {
            assert(sums_to_one(n, g));
        }
    }
}

/// Numbers that sum to 1 or are all zero, and are not all zero, are read as numbers
/// that sum to 1.
pub(crate) proof fn distribution_reads<T: Scalar>(
    p: Set<T>,
    val: spec_fn(T) -> real,
    n: int,
    f: spec_fn(int) -> T,
    a: spec_fn(int) -> real,
    k: int,
)
    requires
        exact_numbers(p),
        reads(p, val),
        sums_to_one(n, f),
        forall|i: int| 0 <= i < n ==> p.contains(#[trigger] f(i)) && val(f(i)) == a(i),
        0 <= k < n,
        0real < a(k),
    ensures
        rsum(n, a) == 1real,
{
    read_constants(p, val);
    assert(p.contains(f(k)) && val(f(k)) == a(k));
    read_sigma(p, val, n, f, a);
    lanes_are_sum(p, n, f);
}

/// The new start distribution, read, is the old one or that of the counts.
proof fn start_kept_or_counted<T: Dense, E: EmissionModel<T, Inference = Em<T>>>(
    p: Set<T>,
    l: Set<T>,
    val: spec_fn(T) -> real,
    h: &Hmm<T, E>,
    x: &Matrix<T>,
    ranges: Seq<(usize, usize)>,
    trans: &Matrix<T>,
    tr: EStep<T, E>,
    frames: Seq<Matrix<T>>,
    after: &Em<T>,
)
    requires
        exact_numbers(p),
        exact_logs(p, l),
        exact_ln_1p(p, l),
        reads(p, val),
        flat_updates(p),
        exact_update(p, l, h, x, ranges, trans, tr, frames, after),
    ensures
        kept_or_counted(
            h.inference.n_components as int,
            start_of(val, h.inference.start_prob@),
            |i: int|
                all_starts(
                    ranges.len() as int,
                    trellises_of(val, h.inference.start_prob@, trans, frames),
                    i,
                ),
            start_of(val, after.start_prob@),
        ),
        forall|i: int|
            0 <= i < h.inference.n_components ==> p.contains(#[trigger] after.start_prob@[i]),
        after.start_prob@.len() == h.inference.n_components,
        sums_to_one(h.inference.n_components as int, entry_of(after.start_prob@)),
{
    let nc = h.inference.n_components as int;
    let count = ranges.len() as int;
    let start = h.inference.start_prob@;
    let old = trellises_of(val, start, trans, frames);
    let a = start_of(val, start);
    let c = |i: int| all_starts(count, old, i);
    let b = start_of(val, after.start_prob@);
    if h.params.members().contains(Param::Start) {
        let stats = tr.cores.last();
        let s = Seq::new(
            nc as nat,
            |i: int| updated_count(h.inference.start_prior, stats.start@[i], start[i]),
        );
        let f = |i: int| s[i];
        trellises_wf(p, l, val, h, x, ranges, trans, tr, frames, after);
        assert forall|i: int| 0 <= i < nc implies p.contains(#[trigger] f(i)) && val(f(i)) == c(i)
            && 0real <= c(i) by {
            reveal(flat_updates);
            statistics_read(p, l, val, h, x, ranges, start, trans, tr, frames, count, count, i, i);
            total_facts(count, old, nc, a, trans_of(val, trans), i, i);
            start_in(p, start, trans, frames, nc, i);
            read_sign(p, val, start[i]);
            read_sign(p, val, stats.start@[i]);
            flat_count(p, h.inference.start_prior, stats.start@[i], start[i]);
        }
        assert forall|i: int| 0 <= i < nc implies 0real <= #[trigger] c(i) by {
            assert(p.contains(f(i)));
        }
        read_sigma(p, val, nc, f, c);
        let d = total(s);
        lanes_are_sum(p, nc, f);
        assert(d == sigma(nc, f));
        assert forall|i: int| 0 <= i < nc implies #[trigger] b(i) * rsum(nc, c) == c(i) by {
            assert(p.contains(f(i)));
            rsum_member(nc, c, i);
            quotient_reads(p, val, s[i], d, after.start_prob@[i]);
        }
        assert forall|i: int| 0 <= i < nc implies p.contains(#[trigger] after.start_prob@[i]) by {
            assert(p.contains(f(i)));
            quotient_in(p, val, s[i], d, after.start_prob@[i]);
        }
        quotients_sum_to_one(p, val, nc, f, d, entry_of(after.start_prob@));
        let g = entry_of(start);
        assert forall|i: int| 0 <= i < nc implies p.contains(#[trigger] g(i)) && val(g(i)) == a(i) by {
            start_in(p, start, trans, frames, nc, i);
        }
        if 0real < rsum(nc, c) {
            let k = rsum_positive(nc, c);
            assert(p.contains(f(k)));
            total_facts(count, old, nc, a, trans_of(val, trans), k, k);
            distribution_reads(p, val, nc, g, a, k);
        }
    } else {
        assert forall|i: int| 0 <= i < nc implies #[trigger] b(i) == a(i) by {
        }
        assert forall|i: int| 0 <= i < nc implies p.contains(#[trigger] after.start_prob@[i]) by {
            trellises_wf(p, l, val, h, x, ranges, trans, tr, frames, after);
            start_in(p, start, trans, frames, nc, i);
        }
    }
}

/// The entries of a sequence.
pub open spec fn entry_of<T>(s: Seq<T>) -> spec_fn(int) -> T {
    |i: int| s[i]
}

/// The entries of row `i`.
pub open spec fn row_of<T>(m: &Matrix<T>, i: int) -> spec_fn(int) -> T {
    |j: int| m.at(i, j)
}

/// A start probability is one of the numbers.
proof fn start_in<T: Scalar>(
    p: Set<T>,
    start: Seq<T>,
    trans: &Matrix<T>,
    frames: Seq<Matrix<T>>,
    nc: int,
    i: int,
)
    requires
        chain_in(p, start, trans, &frames[0]),
        frames[0].ncols == nc,
        0 <= i < nc,
    ensures
        p.contains(start[i]),
        forall|j: int| 0 <= j < nc ==> p.contains(#[trigger] trans.at(i, j)),
{
    assert(p.contains(start[i]));
}

/// An E-step and the M-step after it, over exact numbers, under flat priors: the
/// start distribution and every transition row sum to 1 or are all zero, as is the
/// row of a state that was never left.
pub open spec fn exact_update<T: Dense, E: EmissionModel<T, Inference = Em<T>>>(
    p: Set<T>,
    l: Set<T>,
    h: &Hmm<T, E>,
    x: &Matrix<T>,
    ranges: Seq<(usize, usize)>,
    trans: &Matrix<T>,
    tr: EStep<T, E>,
    frames: Seq<Matrix<T>>,
    after: &Em<T>,
) -> bool {
    let em = h.inference;
    &&& ranges.len() >= 1
    &&& em.shaped()
    &&& trans@ == em.trans_mat@
    &&& trans.has_dims(em.n_components as int, em.n_components as int)
    &&& em.start_prior == num::<T>(1)
    &&& em.trans_prior == num::<T>(1)
    &&& sums_to_one(em.n_components as int, entry_of(em.start_prob@))
    &&& forall|i: int|
        0 <= i < em.n_components ==> sums_to_one(
            em.n_components as int,
            #[trigger] row_of(trans, i),
        )
    &&& estep_upto(h, x, ranges, em.start_prob@, trans, tr, ranges.len() as int)
    &&& exact_sequences(
        p,
        l,
        h.implementation,
        em.start_prob@,
        trans,
        tr,
        frames,
        ranges.len() as int,
    )
    &&& em.mstep_rel(&tr.cores.last(), h.params, after)
}

/// The trellises of an E-step stand under one chain, and have a mass.
pub(crate) proof fn trellises_wf<T: Dense, E: EmissionModel<T, Inference = Em<T>>>(
    p: Set<T>,
    l: Set<T>,
    val: spec_fn(T) -> real,
    h: &Hmm<T, E>,
    x: &Matrix<T>,
    ranges: Seq<(usize, usize)>,
    trans: &Matrix<T>,
    tr: EStep<T, E>,
    frames: Seq<Matrix<T>>,
    after: &Em<T>,
)
    requires
        exact_numbers(p),
        reads(p, val),
        exact_update(p, l, h, x, ranges, trans, tr, frames, after),
    ensures
        one_chain(
            ranges.len() as int,
            trellises_of(val, h.inference.start_prob@, trans, frames),
            h.inference.n_components as int,
            start_of(val, h.inference.start_prob@),
            trans_of(val, trans),
        ),
        forall|s: int|
            0 <= s < ranges.len() ==> 0real < (#[trigger] trellises_of(
                val,
                h.inference.start_prob@,
                trans,
                frames,
            )(s)).mass() && frames[s].ncols == h.inference.n_components,
        frames[0].ncols == h.inference.n_components,
        chain_in(p, h.inference.start_prob@, trans, &frames[0]),
{
    let start = h.inference.start_prob@;
    let old = trellises_of(val, start, trans, frames);
    assert forall|s: int| 0 <= s < ranges.len() implies (#[trigger] old(s)).nc
        == h.inference.n_components && old(s).start == start_of(val, start) && old(s).trans
        == trans_of(val, trans) && old(s).wf() && 0real < old(s).mass() && frames[s].ncols
        == h.inference.n_components by {
        assert(estep_at(h, x, ranges, start, trans, tr, s));
        assert(chain_in(p, start, trans, &frames[s]));
        trellis_wf(p, val, start, trans, &frames[s]);
        likelihood_reads(p, val, start, trans, &frames[s]);
        read_sign(p, val, likelihood(start, trans, &frames[s]));
    }
    assert(old(0).nc == h.inference.n_components);
    assert(chain_in(p, start, trans, &frames[0]));
}

/// A new transition row, read, is the old one or that of the counts.
proof fn row_counted<T: Dense, E: EmissionModel<T, Inference = Em<T>>>(
    p: Set<T>,
    l: Set<T>,
    val: spec_fn(T) -> real,
    h: &Hmm<T, E>,
    x: &Matrix<T>,
    ranges: Seq<(usize, usize)>,
    trans: &Matrix<T>,
    tr: EStep<T, E>,
    frames: Seq<Matrix<T>>,
    after: &Em<T>,
    i: int,
)
    requires
        exact_numbers(p),
        exact_logs(p, l),
        exact_ln_1p(p, l),
        reads(p, val),
        flat_updates(p),
        exact_update(p, l, h, x, ranges, trans, tr, frames, after),
        0 <= i < h.inference.n_components,
    ensures
        row_kept_or_counted(
            ranges.len() as int,
            trellises_of(val, h.inference.start_prob@, trans, frames),
            h.inference.n_components as int,
            trans_of(val, trans),
            trans_of(val, &after.trans_mat),
            i,
        ),
        forall|j: int|
            0 <= j < h.inference.n_components ==> p.contains(#[trigger] after.trans_mat.at(i, j)),
        after.trans_mat.has_dims(
            h.inference.n_components as int,
            h.inference.n_components as int,
        ),
        sums_to_one(h.inference.n_components as int, row_of(&after.trans_mat, i)),
{
    let nc = h.inference.n_components as int;
    let count = ranges.len() as int;
    let start = h.inference.start_prob@;
    let em = h.inference;
    let old = trellises_of(val, start, trans, frames);
    let old_trans = trans_of(val, trans);
    let new_trans = trans_of(val, &after.trans_mat);
    let a = |j: int| old_trans(i, j);
    let c = |j: int| all_passes(count, old, i, j);
    let b = |j: int| new_trans(i, j);
    assert forall|j: int| 0 <= j < nc implies #[trigger] em.trans_mat.at(i, j) == trans.at(i, j) by {
        assert(em.trans_mat@[i] == trans@[i]);
    }
    trellises_wf(p, l, val, h, x, ranges, trans, tr, frames, after);
    start_in(p, start, trans, frames, nc, i);
    if h.params.members().contains(Param::Trans) {
        let stats = tr.cores.last();
        let counts = choose|counts: Matrix<T>| #[trigger]
            updated_transitions(&em, &stats, &counts) && normalized_rows(&counts, &after.trans_mat);
        let f = |j: int| counts.at(i, j);
        assert forall|j: int| 0 <= j < nc implies p.contains(#[trigger] f(j)) && val(f(j)) == c(j)
            && 0real <= c(j) && (0real < c(j) ==> 0real < a(j)) by {
            reveal(flat_updates);
            statistics_read(p, l, val, h, x, ranges, start, trans, tr, frames, count, count, i, j);
            total_facts(count, old, nc, start_of(val, start), old_trans, i, j);
            let s = stats.trans.at(i, j);
            let t = trans.at(i, j);
            assert(p.contains(t));
            read_sign(p, val, t);
            read_sign(p, val, s);
            assert(em.trans_mat.at(i, j) == t);
            flat_count(p, em.trans_prior, s, t);
            assert(counts.at(i, j) == updated_count(em.trans_prior, s, em.trans_mat.at(i, j)));
        }
        assert forall|j: int| 0 <= j < nc implies 0real <= #[trigger] c(j) by {
            assert(p.contains(f(j)));
        }
        read_sigma(p, val, nc, f, c);
        let d = row_total(&counts, i);
        lanes_are_sum(p, nc, f);
        assert(d == sigma(nc, f));
        assert forall|j: int| 0 <= j < nc implies #[trigger] b(j) * rsum(nc, c) == c(j) by {
            assert(p.contains(f(j)));
            rsum_member(nc, c, j);
            assert(after.trans_mat.at(i, j) == counts.at(i, j).s_over(divisor(d)));
            quotient_reads(p, val, counts.at(i, j), d, after.trans_mat.at(i, j));
        }
        assert forall|j: int| 0 <= j < nc implies p.contains(#[trigger] after.trans_mat.at(i, j)) by {
            assert(p.contains(f(j)));
            assert(after.trans_mat.at(i, j) == counts.at(i, j).s_over(divisor(d)));
            quotient_in(p, val, counts.at(i, j), d, after.trans_mat.at(i, j));
        }
        let q = row_of(&after.trans_mat, i);
        assert forall|j: int| 0 <= j < nc implies if d.s_same(num(0)) {
            #[trigger] q(j) == f(j) || q(j) == f(j).s_over(num(1))
        } else {
            q(j) == f(j).s_over(d)
        } by {
            assert(after.trans_mat.at(i, j) == counts.at(i, j).s_over(divisor(d)));
        }
        quotients_sum_to_one(p, val, nc, f, d, q);
        if 0real < rsum(nc, c) {
            let k = rsum_positive(nc, c);
            assert(p.contains(f(k)));
            let g = row_of(trans, i);
            assert forall|j: int| 0 <= j < nc implies p.contains(#[trigger] g(j)) && val(g(j)) == a(
                j,
            ) by {
                assert(p.contains(trans.at(i, j)));
            }
            distribution_reads(p, val, nc, g, a, k);
        }
    } else {
        assert forall|j: int| 0 <= j < nc implies #[trigger] b(j) == a(j) by {
            assert(em.trans_mat.at(i, j) == trans.at(i, j));
        }
        assert forall|j: int| 0 <= j < nc implies p.contains(#[trigger] after.trans_mat.at(i, j)) by {
            assert(em.trans_mat.at(i, j) == trans.at(i, j));
        }
        let (q, g) = (row_of(&after.trans_mat, i), row_of(trans, i));
        assert forall|j: int| 0 <= j < nc implies #[trigger] q(j) == g(j) by {
            assert(em.trans_mat.at(i, j) == trans.at(i, j));
        }
        lanes_ext(nc, q, g);
        assert(sums_to_one(nc, g));
        assert forall|j: int|
            (forall|k: int| 0 <= k < nc ==> #[trigger] g(k) == num::<T>(0)) && 0 <= j < nc implies #[trigger] q(
            j,
        ) == num::<T>(0) by {
            assert(q(j) == g(j));
        }
    }
}

/// A chain over exact numbers under flat priors, whose start distribution and
/// transition rows sum to 1 or are all zero, gives every sequence a probability.
pub open spec fn flat_chain<T: Dense>(
    p: Set<T>,
    em: &Em<T>,
    frames: Seq<Matrix<T>>,
    count: int,
) -> bool {
    &&& em.shaped()
    &&& em.start_prior == num::<T>(1)
    &&& em.trans_prior == num::<T>(1)
    &&& sums_to_one(em.n_components as int, entry_of(em.start_prob@))
    &&& forall|i: int|
        0 <= i < em.n_components ==> sums_to_one(
            em.n_components as int,
            #[trigger] row_of(&em.trans_mat, i),
        )
    &&& forall|s: int|
        0 <= s < count ==> chain_in(p, em.start_prob@, &em.trans_mat, #[trigger] &frames[s])
            && likelihood(em.start_prob@, &em.trans_mat, &frames[s]) != num::<T>(0)
}

/// An iteration of expectation-maximisation never lowers the log-likelihood of the
/// sequences, and leaves a chain that the next can start from. `frames` are the frame likelihoods that the E-step worked with and
/// `new_frames` those under the new emission; the law is that of the start and
/// transition update, for an emission whose own update does not lower its expected
/// log-likelihood.
pub proof fn iteration_never_lowers_the_likelihood<
    T: Dense,
    E: EmissionModel<T, Inference = Em<T>>,
>(
    p: Set<T>,
    l: Set<T>,
    val: spec_fn(T) -> real,
    ln: spec_fn(real) -> real,
    h: &Hmm<T, E>,
    x: &Matrix<T>,
    ranges: Seq<(usize, usize)>,
    trans: &Matrix<T>,
    tr: EStep<T, E>,
    frames: Seq<Matrix<T>>,
    after: &Em<T>,
    new_frames: Seq<Matrix<T>>,
)
    requires
        exact_numbers(p),
        exact_logs(p, l),
        exact_ln_1p(p, l),
        reads(p, val),
        flat_updates(p),
        is_ln(ln),
        exact_update(p, l, h, x, ranges, trans, tr, frames, after),
        forall|s: int|
            0 <= s < ranges.len() ==> frames_in(p, #[trigger] &new_frames[s])
                && new_frames[s].dims() == frames[s].dims(),
        forall|s: int, t: int, j: int|
            0 <= s < ranges.len() && 0 <= t < frames[s].rows.len() && 0 <= j < frames[s].ncols
                && 0real < #[trigger] trellises_of(val, h.inference.start_prob@, trans, frames)(
                s,
            ).at(t, j) ==> 0real < val(new_frames[s].at(t, j)),
        0real <= rsum(
            ranges.len() as int,
            |s: int|
                frames_gain(
                    ln,
                    trellises_of(val, h.inference.start_prob@, trans, frames)(s),
                    trellises_of(val, after.start_prob@, &after.trans_mat, new_frames)(s),
                ),
        ),
    ensures
        rsum(
            ranges.len() as int,
            |s: int| ln(val(likelihood(h.inference.start_prob@, trans, &frames[s]))),
        ) <= rsum(
            ranges.len() as int,
            |s: int| ln(val(likelihood(after.start_prob@, &after.trans_mat, &new_frames[s]))),
        ),
        flat_chain(p, after, new_frames, ranges.len() as int),
{
    let nc = h.inference.n_components as int;
    let count = ranges.len() as int;
    let start = h.inference.start_prob@;
    let old = trellises_of(val, start, trans, frames);
    let new = trellises_of(val, after.start_prob@, &after.trans_mat, new_frames);
    let (a, b) = (start_of(val, start), trans_of(val, trans));
    let (a2, b2) = (start_of(val, after.start_prob@), trans_of(val, &after.trans_mat));
    trellises_wf(p, l, val, h, x, ranges, trans, tr, frames, after);
    start_kept_or_counted(p, l, val, h, x, ranges, trans, tr, frames, after);
    assert forall|s: int| 0 <= s < count implies chain_in(
        p,
        after.start_prob@,
        &after.trans_mat,
        #[trigger] &new_frames[s],
    ) by {
        assert(frames_in(p, &new_frames[s]));
        assert(old(s).nc == nc);
        assert(chain_in(p, start, trans, &frames[s]));
        assert forall|i: int, j: int| 0 <= i < nc && 0 <= j < nc implies p.contains(
            #[trigger] after.trans_mat.at(i, j),
        ) by {
            row_counted(p, l, val, h, x, ranges, trans, tr, frames, after, i);
        }
    }
    assert forall|i: int| 0 <= i < nc implies #[trigger] row_kept_or_counted(
        count,
        old,
        nc,
        b,
        b2,
        i,
    ) by {
        row_counted(p, l, val, h, x, ranges, trans, tr, frames, after, i);
    }
    assert forall|s: int| 0 <= s < count implies (#[trigger] new(s)).nc == nc && new(s).start == a2
        && new(s).trans == b2 && new(s).wf() by {
        assert(old(s).nc == nc);
        assert(chain_in(p, after.start_prob@, &after.trans_mat, &new_frames[s]));
        trellis_wf(p, val, after.start_prob@, &after.trans_mat, &new_frames[s]);
    }
    assert forall|s: int| 0 <= s < count implies (#[trigger] old(s)).n == new(s).n && 0real < old(
        s,
    ).mass() by {
        assert(new_frames[s].dims() == frames[s].dims());
    }
    assert forall|s: int, t: int, j: int|
        0 <= s < count && 0 <= t < old(s).n && 0 <= j < nc && 0real < #[trigger] old(s).at(t, j)
        implies 0real < (new(s).emit)(t, j) by {
        assert(old(s).nc == nc);
        assert(0real < trellises_of(val, start, trans, frames)(s).at(t, j));
    }
    rsum_ext(
        count,
        |s: int|
            frames_gain(
                ln,
                trellises_of(val, start, trans, frames)(s),
                trellises_of(val, after.start_prob@, &after.trans_mat, new_frames)(s),
            ),
        |s: int| frames_gain(ln, old(s), new(s)),
    );
    likelihood_never_falls(ln, count, old, new, nc, a, b, a2, b2);
    let before = |s: int| ln(val(likelihood(start, trans, &frames[s])));
    let now = |s: int| ln(val(likelihood(after.start_prob@, &after.trans_mat, &new_frames[s])));
    assert forall|s: int| 0 <= s < count implies #[trigger] before(s) == ln(old(s).mass()) by {
        assert(chain_in(p, start, trans, &frames[s]));
        likelihood_reads(p, val, start, trans, &frames[s]);
    }
    assert forall|s: int| 0 <= s < count implies #[trigger] now(s) == ln(new(s).mass()) by {
        assert(chain_in(p, after.start_prob@, &after.trans_mat, &new_frames[s]));
        likelihood_reads(p, val, after.start_prob@, &after.trans_mat, &new_frames[s]);
    }
    rsum_ext(count, before, |s: int| ln(old(s).mass()));
    rsum_ext(count, now, |s: int| ln(new(s).mass()));
    row_counted(p, l, val, h, x, ranges, trans, tr, frames, after, 0);
    assert forall|i: int| 0 <= i < nc implies sums_to_one(
        nc,
        #[trigger] row_of(&after.trans_mat, i),
    ) by {
        row_counted(p, l, val, h, x, ranges, trans, tr, frames, after, i);
    }
    assert forall|s: int| 0 <= s < count implies likelihood(
        after.start_prob@,
        &after.trans_mat,
        #[trigger] &new_frames[s],
    ) != num::<T>(0) by {
        assert(chain_in(p, after.start_prob@, &after.trans_mat, &new_frames[s]));
        likelihood_reads(p, val, after.start_prob@, &after.trans_mat, &new_frames[s]);
        assert(0real < new(s).mass());
        read_constants(p, val);
    }
}

} // verus!
