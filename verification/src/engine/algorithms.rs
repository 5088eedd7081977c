//! Forward and backward recursions, Viterbi decoding, transition counts and
//! posteriors.
//!
//! The log-domain routines take `startprob` and `transmat` as probabilities and
//! log them internally. Lattices are `(n_samples, n_components)`, transitions
//! `(n_components, n_components)`.

use crate::error::HmmError;
use crate::matrix::{tabulate, Matrix};
use crate::scalar::{dec, lanes, lanes_ext, num, one, sigma, sum, sum_of, total, zero, Scalar};
use crate::special::{log_add, log_sum_exp, logaddexp, logsumexp, max_entry, max_upto};
use crate::util::{divisor, log_normalize_axis, log_normalized_at, normalize_axis};
use vstd::prelude::*;

verus! {

/// `startprob` and `transmat` are those of a chain with as many states as
/// `frames` has columns, and there is at least one frame.
pub open spec fn chain_shape<T>(startprob: Seq<T>, transmat: &Matrix<T>, frames: &Matrix<T>) -> bool {
    &&& frames.wf()
    &&& frames.rows.len() >= 1
    &&& startprob.len() == frames.ncols
    &&& transmat.has_dims(frames.ncols as int, frames.ncols as int)
}

/// The logarithms of the entries.
pub fn ln_matrix<T: Scalar>(a: &Matrix<T>) -> (r: Matrix<T>)
    requires
        a.wf(),
    ensures
        r.has_dims(a.rows.len() as int, a.ncols as int),
        forall|i: int, j: int|
            0 <= i < a.rows.len() && 0 <= j < a.ncols ==> #[trigger] r.at(i, j) == a.at(i, j).s_ln(),
{
    let f = |i: usize, j: usize| -> (x: T)
        requires
            a.wf(),
            i < a.rows.len(),
            j < a.ncols,
        ensures
            x == a.at(i as int, j as int).s_ln(),
    {
        a.get(i, j).ln()
    };
    Matrix::tabulate(a.rows.len(), a.ncols, f)
}

/// The first row of a log-domain lattice: `ln startprob[i] + frames[0, i]`.
pub open spec fn log_start_row<T: Scalar>(startprob: Seq<T>, frames: &Matrix<T>) -> Seq<T> {
    Seq::new(frames.ncols as nat, |i: int| startprob[i].s_ln().s_plus(frames.at(0, i)))
}

fn log_start<T: Scalar>(startprob: &Vec<T>, frames: &Matrix<T>) -> (r: Vec<T>)
    requires
        frames.wf(),
        frames.rows.len() >= 1,
        startprob.len() == frames.ncols,
    ensures
        r@ == log_start_row(startprob@, frames),
{
    let f = |i: usize| -> (x: T)
        requires
            frames.wf(),
            frames.rows.len() >= 1,
            i < frames.ncols,
            startprob.len() == frames.ncols,
        ensures
            x == startprob@[i as int].s_ln().s_plus(frames.at(0, i as int)),
    {
        startprob[i].ln().plus(frames.get(0, i))
    };
    let r = tabulate(frames.ncols, f);
    proof {
        assert(r@ =~= log_start_row(startprob@, frames));
    }
    r
}

/// What reaches state `j` from each state `i` of the row `prev`: `prev[i] + ln
/// transmat[i, j]`.
pub open spec fn log_arrivals<T: Scalar>(prev: Seq<T>, transmat: &Matrix<T>, j: int) -> Seq<T> {
    Seq::new(prev.len(), |i: int| prev[i].s_plus(transmat.at(i, j).s_ln()))
}

/// The arrivals, from a matrix that holds the logarithms already.
fn arrivals<T: Scalar>(prev: &Vec<T>, log_transmat: &Matrix<T>, j: usize, Ghost(transmat): Ghost<&Matrix<T>>) -> (r: Vec<T>)
    requires
        log_transmat.wf(),
        log_transmat.rows.len() == prev.len(),
        j < log_transmat.ncols,
        forall|i: int| 0 <= i < prev.len() ==> log_transmat.at(i, j as int) == (#[trigger] transmat.at(i, j as int)).s_ln(),
    ensures
        r@ == log_arrivals(prev@, transmat, j as int),
{
    let f = |i: usize| -> (x: T)
        requires
            log_transmat.wf(),
            log_transmat.rows.len() == prev.len(),
            i < prev.len(),
            j < log_transmat.ncols,
        ensures
            x == prev@[i as int].s_plus(log_transmat.at(i as int, j as int)),
    {
        prev[i].plus(log_transmat.get(i, j))
    };
    let r = tabulate(prev.len(), f);
    proof {
        assert forall|i: int| 0 <= i < prev.len() implies #[trigger] r@[i] == log_arrivals(prev@, transmat, j as int)[i] by {
            assert(log_transmat.at(i, j as int) == transmat.at(i, j as int).s_ln());
        }
        assert(r@ =~= log_arrivals(prev@, transmat, j as int));
    }
    r
}

/// Row `t` of the log-forward lattice.
pub open spec fn forward_log_row<T: Scalar>(
    startprob: Seq<T>,
    transmat: &Matrix<T>,
    frames: &Matrix<T>,
    t: int,
) -> Seq<T>
    decreases t,
{
    if t <= 0 {
        log_start_row(startprob, frames)
    } else {
        let prev = forward_log_row(startprob, transmat, frames, t - 1);
        Seq::new(
            frames.ncols as nat,
            |j: int| log_sum_exp(log_arrivals(prev, transmat, j)).s_plus(frames.at(t, j)),
        )
    }
}

/// The log-forward lattice, and the sequence log-likelihood that its last row
/// gives.
pub open spec fn forward_log_lattice<T: Scalar>(
    startprob: Seq<T>,
    transmat: &Matrix<T>,
    frames: &Matrix<T>,
) -> Seq<Seq<T>> {
    Seq::new(frames.rows.len() as nat, |t: int| forward_log_row(startprob, transmat, frames, t))
}

/// Forward recursion in log space: the sequence log-likelihood (log-sum-exp of
/// the last lattice row) and the log-forward lattice, whose entry `(t, j)` is the
/// log-probability of the first `t + 1` frames and of state `j` at frame `t`.
pub fn forward_log<T: Scalar>(
    startprob: &Vec<T>,
    transmat: &Matrix<T>,
    log_frameprob: &Matrix<T>,
) -> (r: (T, Matrix<T>))
    requires
        chain_shape(startprob@, transmat, log_frameprob),
    ensures
        r.1.has_dims(log_frameprob.rows.len() as int, log_frameprob.ncols as int),
        r.1@ == forward_log_lattice(startprob@, transmat, log_frameprob),
        r.0 == log_sum_exp(
            forward_log_row(
                startprob@,
                transmat,
                log_frameprob,
                log_frameprob.rows.len() - 1,
            ),
        ),
{
    let ns: usize = log_frameprob.rows.len();
    let nc: usize = log_frameprob.ncols;
    let log_transmat = ln_matrix(transmat);
    let mut rows: Vec<Vec<T>> = Vec::new();
    rows.push(log_start(startprob, log_frameprob));
    let mut t: usize = 1;
    while t < ns
        invariant
            1 <= t <= ns,
            ns == log_frameprob.rows.len(),
            nc == log_frameprob.ncols,
            chain_shape(startprob@, transmat, log_frameprob),
            log_transmat.has_dims(nc as int, nc as int),
            forall|i: int, j: int|
                0 <= i < nc && 0 <= j < nc ==> #[trigger] log_transmat.at(i, j) == transmat.at(i, j).s_ln(),
            rows.len() == t,
            forall|k: int|
                0 <= k < t ==> (#[trigger] rows@[k])@ == forward_log_row(
                    startprob@,
                    transmat,
                    log_frameprob,
                    k,
                ),
        decreases ns - t,
    {
        let prev = &rows[t - 1];
        let ghost pv = forward_log_row(startprob@, transmat, log_frameprob, t as int - 1);
        let mut row: Vec<T> = Vec::new();
        let mut j: usize = 0;
        while j < nc
            invariant
                1 <= t < ns,
                j <= nc,
                ns == log_frameprob.rows.len(),
                nc == log_frameprob.ncols,
                chain_shape(startprob@, transmat, log_frameprob),
                log_transmat.has_dims(nc as int, nc as int),
                forall|i: int, j: int|
                    0 <= i < nc && 0 <= j < nc ==> #[trigger] log_transmat.at(i, j) == transmat.at(i, j).s_ln(),
                prev@ == pv,
                pv.len() == nc,
                row.len() == j,
                forall|k: int|
                    0 <= k < j ==> #[trigger] row@[k] == log_sum_exp(
                        log_arrivals(pv, transmat, k),
                    ).s_plus(log_frameprob.at(t as int, k)),
            decreases nc - j,
        {
            let buf = arrivals(prev, &log_transmat, j, Ghost(transmat));
            row.push(logsumexp(&buf).plus(log_frameprob.get(t, j)));
            j += 1;
        }
        proof {
            assert(row@ =~= forward_log_row(startprob@, transmat, log_frameprob, t as int));
        }
        rows.push(row);
        t += 1;
    }
    let log_prob = logsumexp(&rows[ns - 1]);
    let fwd = Matrix { rows, ncols: nc };
    proof {
        assert forall|k: int| 0 <= k < ns implies (#[trigger] fwd.rows@[k])@.len() == nc by {
            forward_log_row_len(startprob@, transmat, log_frameprob, k);
        }
        assert(fwd@ =~= forward_log_lattice(startprob@, transmat, log_frameprob));
    }
    (log_prob, fwd)
}

proof fn forward_log_row_len<T: Scalar>(
    startprob: Seq<T>,
    transmat: &Matrix<T>,
    frames: &Matrix<T>,
    t: int,
)
    ensures
        forward_log_row(startprob, transmat, frames, t).len() == frames.ncols,
{
}

/// Row `t` of the forward lattice before it is rescaled.
pub open spec fn forward_raw_row<T: Scalar>(
    startprob: Seq<T>,
    transmat: &Matrix<T>,
    frames: &Matrix<T>,
    t: int,
) -> Seq<T>
    decreases t, 0int,
{
    if t <= 0 {
        Seq::new(frames.ncols as nat, |i: int| startprob[i].s_times(frames.at(0, i)))
    } else {
        let prev = forward_scaled_row(startprob, transmat, frames, t - 1);
        Seq::new(
            frames.ncols as nat,
            |j: int|
                sigma(
                    frames.ncols as int,
                    |i: int| prev[i].s_times(transmat.at(i, j)),
                ).s_times(frames.at(t, j)),
        )
    }
}

/// The factor that makes a row sum to 1.
pub open spec fn scale_of<T: Scalar>(row: Seq<T>) -> T {
    num::<T>(1).s_over(total(row))
}

/// Row `t` of the forward lattice, rescaled to sum to 1.
pub open spec fn forward_scaled_row<T: Scalar>(
    startprob: Seq<T>,
    transmat: &Matrix<T>,
    frames: &Matrix<T>,
    t: int,
) -> Seq<T>
    decreases t, 1int,
{
    let raw = forward_raw_row(startprob, transmat, frames, t);
    Seq::new(raw.len(), |i: int| raw[i].s_times(scale_of(raw)))
}

/// The log-likelihood of the first `t` frames: minus the sum of the logarithms
/// of their scaling factors.
pub open spec fn scaled_log_prob<T: Scalar>(
    startprob: Seq<T>,
    transmat: &Matrix<T>,
    frames: &Matrix<T>,
    t: int,
) -> T
    decreases t,
{
    if t <= 0 {
        num(0)
    } else {
        scaled_log_prob(startprob, transmat, frames, t - 1).s_minus(
            scale_of(forward_raw_row(startprob, transmat, frames, t - 1)).s_ln(),
        )
    }
}

/// Whether row `t` sums below `1e-300`.
pub open spec fn underflows<T: Scalar>(
    startprob: Seq<T>,
    transmat: &Matrix<T>,
    frames: &Matrix<T>,
    t: int,
) -> bool {
    total(forward_raw_row(startprob, transmat, frames, t)).s_below(dec(1, -300))
}

/// The unscaled successor of a scaled lattice row: entry `j` is `(prev .
/// transmat[., j]) * frames[t, j]`.
fn forward_step<T: Scalar>(prev: &Vec<T>, transmat: &Matrix<T>, frames: &Matrix<T>, t: usize) -> (row:
    Vec<T>)
    requires
        frames.wf(),
        t < frames.rows.len(),
        prev.len() == frames.ncols,
        transmat.has_dims(frames.ncols as int, frames.ncols as int),
    ensures
        row@ == Seq::new(
            frames.ncols as nat,
            |j: int|
                sigma(
                    frames.ncols as int,
                    |i: int| prev@[i].s_times(transmat.at(i, j)),
                ).s_times(frames.at(t as int, j)),
        ),
{
    let nc: usize = frames.ncols;
    let mut row: Vec<T> = Vec::new();
    let mut j: usize = 0;
    while j < nc
        invariant
            j <= nc,
            nc == frames.ncols,
            frames.wf(),
            t < frames.rows.len(),
            prev.len() == nc,
            transmat.has_dims(nc as int, nc as int),
            row.len() == j,
            forall|k: int|
                0 <= k < j ==> #[trigger] row@[k] == sigma(
                    nc as int,
                    |i: int| prev@[i].s_times(transmat.at(i, k)),
                ).s_times(frames.at(t as int, k)),
        decreases nc - j,
    {
        let f = |i: usize| -> (x: T)
            requires
                i < nc,
                j < nc,
                prev.len() == nc,
                transmat.has_dims(nc as int, nc as int),
            ensures
                x == prev@[i as int].s_times(transmat.at(i as int, j as int)),
        {
            prev[i].times(transmat.get(i, j))
        };
        let acc = sum_of(nc, f, Ghost(|i: int| prev@[i].s_times(transmat.at(i, j as int))));
        row.push(acc.times(frames.get(t, j)));
        j += 1;
    }
    proof {
        assert(row@ =~= Seq::new(
            frames.ncols as nat,
            |j: int|
                sigma(
                    frames.ncols as int,
                    |i: int| prev@[i].s_times(transmat.at(i, j)),
                ).s_times(frames.at(t as int, j)),
        ));
    }
    row
}

/// Every entry times `scale`.
fn scaled<T: Scalar>(row: &Vec<T>, scale: T) -> (r: Vec<T>)
    ensures
        r@ == Seq::new(row@.len(), |i: int| row@[i].s_times(scale)),
{
    let f = |i: usize| -> (x: T)
        requires
            i < row.len(),
        ensures
            x == row@[i as int].s_times(scale),
    {
        row[i].times(scale)
    };
    let r = tabulate(row.len(), f);
    proof {
        assert(r@ =~= Seq::new(row@.len(), |i: int| row@[i].s_times(scale)));
    }
    r
}

/// Forward recursion with per-step scaling: the sequence log-likelihood, the
/// scaled forward lattice and the scaling factors.
///
/// Each lattice row is rescaled to sum to 1; a row that sums below `1e-300` is
/// [`HmmError::ScalingUnderflow`].
pub fn forward_scaling<T: Scalar>(
    startprob: &Vec<T>,
    transmat: &Matrix<T>,
    frameprob: &Matrix<T>,
) -> (r: Result<(T, Matrix<T>, Vec<T>), HmmError>)
    requires
        chain_shape(startprob@, transmat, frameprob),
    ensures
        match r {
            Ok((log_prob, fwd, scaling)) => {
                let ns = frameprob.rows.len() as int;
                &&& forall|t: int| 0 <= t < ns ==> !underflows(startprob@, transmat, frameprob, t)
                &&& fwd.has_dims(ns, frameprob.ncols as int)
                &&& fwd@ == Seq::new(
                    ns as nat,
                    |t: int| forward_scaled_row(startprob@, transmat, frameprob, t),
                )
                &&& scaling@ == Seq::new(
                    ns as nat,
                    |t: int| scale_of(forward_raw_row(startprob@, transmat, frameprob, t)),
                )
                &&& log_prob == scaled_log_prob(startprob@, transmat, frameprob, ns)
            },
            Err(e) => e == HmmError::ScalingUnderflow && exists|t: int|
                0 <= t < frameprob.rows.len() && underflows(startprob@, transmat, frameprob, t),
        },
{
    let min_sum: T = T::decimal(1, -300);
    let ns: usize = frameprob.rows.len();
    let nc: usize = frameprob.ncols;
    let mut rows: Vec<Vec<T>> = Vec::new();
    let mut scaling: Vec<T> = Vec::new();
    let mut log_prob: T = zero();
    let mut t: usize = 0;
    while t < ns
        invariant
            t <= ns,
            ns == frameprob.rows.len(),
            nc == frameprob.ncols,
            min_sum == dec::<T>(1, -300),
            chain_shape(startprob@, transmat, frameprob),
            rows.len() == t,
            scaling.len() == t,
            log_prob == scaled_log_prob(startprob@, transmat, frameprob, t as int),
            forall|k: int|
                0 <= k < t ==> (#[trigger] rows@[k])@ == forward_scaled_row(
                    startprob@,
                    transmat,
                    frameprob,
                    k,
                ),
            forall|k: int|
                0 <= k < t ==> #[trigger] scaling@[k] == scale_of(
                    forward_raw_row(startprob@, transmat, frameprob, k),
                ),
            forall|k: int| 0 <= k < t ==> !underflows(startprob@, transmat, frameprob, k),
        decreases ns - t,
    {
        let raw = if t == 0 {
            let f = |i: usize| -> (x: T)
                requires
                    i < nc,
                    nc == frameprob.ncols,
                    chain_shape(startprob@, transmat, frameprob),
                ensures
                    x == startprob@[i as int].s_times(frameprob.at(0, i as int)),
            {
                startprob[i].times(frameprob.get(0, i))
            };
            tabulate(nc, f)
        } else {
            proof {
                forward_rows_len(startprob@, transmat, frameprob, t as int - 1);
            }
            forward_step(&rows[t - 1], transmat, frameprob, t)
        };
        proof {
            assert(raw@ =~= forward_raw_row(startprob@, transmat, frameprob, t as int));
        }
        let s = sum(&raw);
        if s.below(min_sum) {
            proof {
                assert(underflows(startprob@, transmat, frameprob, t as int));
            }
            return Err(HmmError::ScalingUnderflow);
        }
        let scale = one::<T>().over(s);
        scaling.push(scale);
        log_prob = log_prob.minus(scale.ln());
        rows.push(scaled(&raw, scale));
        t += 1;
    }
    let fwd = Matrix { rows, ncols: nc };
    proof {
        assert forall|k: int| 0 <= k < ns implies (#[trigger] fwd.rows@[k])@.len() == nc by {
            forward_rows_len(startprob@, transmat, frameprob, k);
        }
        assert(fwd@ =~= Seq::new(
            ns as nat,
            |t: int| forward_scaled_row(startprob@, transmat, frameprob, t),
        ));
        assert(scaling@ =~= Seq::new(
            ns as nat,
            |t: int| scale_of(forward_raw_row(startprob@, transmat, frameprob, t)),
        ));
    }
    Ok((log_prob, fwd, scaling))
}

proof fn forward_rows_len<T: Scalar>(
    startprob: Seq<T>,
    transmat: &Matrix<T>,
    frames: &Matrix<T>,
    t: int,
)
    ensures
        forward_raw_row(startprob, transmat, frames, t).len() == frames.ncols,
        forward_scaled_row(startprob, transmat, frames, t).len() == frames.ncols,
{
    assert(forward_raw_row(startprob, transmat, frames, t).len() == frames.ncols);
}

/// Row `t` of the log-backward lattice of `frames.rows.len()` frames: the last
/// row is zero, and row `t` gathers `ln transmat[i, j] + frames[t + 1, j] +
/// next[j]` by log-sum-exp.
pub open spec fn backward_log_row<T: Scalar>(transmat: &Matrix<T>, frames: &Matrix<T>, t: int) -> Seq<T>
    decreases frames.rows.len() - t,
{
    if t >= frames.rows.len() - 1 {
        Seq::new(frames.ncols as nat, |i: int| num(0))
    } else {
        let next = backward_log_row(transmat, frames, t + 1);
        Seq::new(
            frames.ncols as nat,
            |i: int| log_sum_exp(log_departures(transmat, frames, next, t, i)),
        )
    }
}

/// What leads from state `i` at frame `t` to each state `j` at frame `t + 1`.
pub open spec fn log_departures<T: Scalar>(
    transmat: &Matrix<T>,
    frames: &Matrix<T>,
    next: Seq<T>,
    t: int,
    i: int,
) -> Seq<T> {
    Seq::new(
        frames.ncols as nat,
        |j: int| transmat.at(i, j).s_ln().s_plus(frames.at(t + 1, j)).s_plus(next[j]),
    )
}

/// The rows of a lattice that was filled from the last row to the first.
fn reversed<T: Scalar>(rows: Vec<Vec<T>>, nc: usize, Ghost(spec_rows): Ghost<spec_fn(int) -> Seq<T>>) -> (m:
    Matrix<T>)
    requires
        forall|k: int| 0 <= k < rows.len() ==> (#[trigger] rows@[k])@ == spec_rows(rows.len() - 1 - k),
        forall|t: int| 0 <= t < rows.len() ==> (#[trigger] spec_rows(t)).len() == nc,
    ensures
        m.has_dims(rows.len() as int, nc as int),
        m@ == Seq::new(rows.len() as nat, spec_rows),
{
    let ns: usize = rows.len();
    let mut out: Vec<Vec<T>> = Vec::new();
    let mut t: usize = 0;
    while t < ns
        invariant
            t <= ns,
            ns == rows.len(),
            out.len() == t,
            forall|k: int| 0 <= k < rows.len() ==> (#[trigger] rows@[k])@ == spec_rows(rows.len() - 1 - k),
            forall|k: int| 0 <= k < t ==> (#[trigger] out@[k])@ == spec_rows(k),
        decreases ns - t,
    {
        let row = crate::matrix::copied(&rows[ns - 1 - t]);
        out.push(row);
        t += 1;
    }
    let m = Matrix { rows: out, ncols: nc };
    proof {
        assert forall|k: int| 0 <= k < ns implies (#[trigger] m.rows@[k])@.len() == nc by {
            assert(m.rows@[k]@ == spec_rows(k));
        }
        assert(m@ =~= Seq::new(ns as nat, spec_rows));
    }
    m
}

/// Backward recursion in log space: entry `(t, i)` is the log-probability of the
/// frames after `t` given state `i` at frame `t`.
pub fn backward_log<T: Scalar>(
    _startprob: &Vec<T>,
    transmat: &Matrix<T>,
    log_frameprob: &Matrix<T>,
) -> (bwd: Matrix<T>)
    requires
        chain_shape(_startprob@, transmat, log_frameprob),
    ensures
        bwd.has_dims(log_frameprob.rows.len() as int, log_frameprob.ncols as int),
        bwd@ == Seq::new(
            log_frameprob.rows.len() as nat,
            |t: int| backward_log_row(transmat, log_frameprob, t),
        ),
{
    let ns: usize = log_frameprob.rows.len();
    let nc: usize = log_frameprob.ncols;
    let log_transmat = ln_matrix(transmat);
    let mut rows: Vec<Vec<T>> = Vec::new();
    let last = crate::matrix::filled(nc, zero::<T>());
    proof {
        assert(last@ =~= backward_log_row(transmat, log_frameprob, ns as int - 1));
    }
    rows.push(last);
    let mut t: usize = ns - 1;
    while t > 0
        invariant
            t <= ns - 1,
            ns == log_frameprob.rows.len(),
            nc == log_frameprob.ncols,
            chain_shape(_startprob@, transmat, log_frameprob),
            log_transmat.has_dims(nc as int, nc as int),
            forall|i: int, j: int|
                0 <= i < nc && 0 <= j < nc ==> #[trigger] log_transmat.at(i, j) == transmat.at(i, j).s_ln(),
            rows.len() == ns - t,
            forall|k: int|
                0 <= k < rows.len() ==> (#[trigger] rows@[k])@ == backward_log_row(
                    transmat,
                    log_frameprob,
                    ns - 1 - k,
                ),
        decreases t,
    {
        t = t - 1;
        let next = &rows[ns - 2 - t];
        let ghost nv = backward_log_row(transmat, log_frameprob, t as int + 1);
        let mut row: Vec<T> = Vec::new();
        let mut i: usize = 0;
        while i < nc
            invariant
                i <= nc,
                t + 1 < ns,
                ns == log_frameprob.rows.len(),
                nc == log_frameprob.ncols,
                log_frameprob.wf(),
                log_transmat.has_dims(nc as int, nc as int),
                forall|i: int, j: int|
                    0 <= i < nc && 0 <= j < nc ==> #[trigger] log_transmat.at(i, j) == transmat.at(i, j).s_ln(),
                next@ == nv,
                nv.len() == nc,
                row.len() == i,
                forall|k: int|
                    0 <= k < i ==> #[trigger] row@[k] == log_sum_exp(
                        log_departures(transmat, log_frameprob, nv, t as int, k),
                    ),
            decreases nc - i,
        {
            let f = |j: usize| -> (x: T)
                requires
                    j < nc,
                    i < nc,
                    t + 1 < log_frameprob.rows.len(),
                    nc == log_frameprob.ncols,
                    log_frameprob.wf(),
                    log_transmat.has_dims(nc as int, nc as int),
                    next.len() == nc,
                ensures
                    x == log_transmat.at(i as int, j as int).s_plus(
                        log_frameprob.at(t + 1, j as int),
                    ).s_plus(next@[j as int]),
            {
                log_transmat.get(i, j).plus(log_frameprob.get(t + 1, j)).plus(next[j])
            };
            let buf = tabulate(nc, f);
            proof {
                assert forall|j: int| 0 <= j < nc implies #[trigger] buf@[j] == transmat.at(i as int, j).s_ln().s_plus(
                    log_frameprob.at(t + 1, j),
                ).s_plus(nv[j]) by {
                    assert(log_transmat.at(i as int, j) == transmat.at(i as int, j).s_ln());
                }
                assert(buf@ =~= log_departures(transmat, log_frameprob, nv, t as int, i as int));
            }
            row.push(logsumexp(&buf));
            i += 1;
        }
        proof {
            assert(row@ =~= backward_log_row(transmat, log_frameprob, t as int));
        }
        rows.push(row);
    }
    reversed(rows, nc, Ghost(|t: int| backward_log_row(transmat, log_frameprob, t)))
}

/// Row `t` of the scaled backward lattice: the last row holds the last scaling
/// factor, and entry `i` of row `t` is `scaling[t]` times the sum over `j` of
/// `transmat[i, j] * frames[t + 1, j] * next[j]`.
pub open spec fn backward_scaled_row<T: Scalar>(
    transmat: &Matrix<T>,
    frames: &Matrix<T>,
    scaling: Seq<T>,
    t: int,
) -> Seq<T>
    decreases frames.rows.len() - t,
{
    if t >= frames.rows.len() - 1 {
        Seq::new(frames.ncols as nat, |i: int| scaling[t])
    } else {
        let next = backward_scaled_row(transmat, frames, scaling, t + 1);
        Seq::new(
            frames.ncols as nat,
            |i: int|
                sigma(
                    frames.ncols as int,
                    |j: int|
                        transmat.at(i, j).s_times(frames.at(t + 1, j)).s_times(next[j]),
                ).s_times(scaling[t]),
        )
    }
}

/// Backward recursion with the scaling factors of the forward pass.
pub fn backward_scaling<T: Scalar>(
    _startprob: &Vec<T>,
    transmat: &Matrix<T>,
    frameprob: &Matrix<T>,
    scaling: &Vec<T>,
) -> (bwd: Matrix<T>)
    requires
        chain_shape(_startprob@, transmat, frameprob),
        scaling.len() == frameprob.rows.len(),
    ensures
        bwd.has_dims(frameprob.rows.len() as int, frameprob.ncols as int),
        bwd@ == Seq::new(
            frameprob.rows.len() as nat,
            |t: int| backward_scaled_row(transmat, frameprob, scaling@, t),
        ),
{
    let ns: usize = frameprob.rows.len();
    let nc: usize = frameprob.ncols;
    let mut rows: Vec<Vec<T>> = Vec::new();
    let last = crate::matrix::filled(nc, scaling[ns - 1]);
    proof {
        assert(last@ =~= backward_scaled_row(transmat, frameprob, scaling@, ns as int - 1));
    }
    rows.push(last);
    let mut t: usize = ns - 1;
    while t > 0
        invariant
            t <= ns - 1,
            ns == frameprob.rows.len(),
            nc == frameprob.ncols,
            scaling.len() == ns,
            chain_shape(_startprob@, transmat, frameprob),
            rows.len() == ns - t,
            forall|k: int|
                0 <= k < rows.len() ==> (#[trigger] rows@[k])@ == backward_scaled_row(
                    transmat,
                    frameprob,
                    scaling@,
                    ns - 1 - k,
                ),
        decreases t,
    {
        t = t - 1;
        let next = &rows[ns - 2 - t];
        let ghost nv = backward_scaled_row(transmat, frameprob, scaling@, t as int + 1);
        let mut row: Vec<T> = Vec::new();
        let mut i: usize = 0;
        while i < nc
            invariant
                i <= nc,
                t + 1 < ns,
                ns == frameprob.rows.len(),
                nc == frameprob.ncols,
                scaling.len() == ns,
                frameprob.wf(),
                transmat.has_dims(nc as int, nc as int),
                next@ == nv,
                nv.len() == nc,
                row.len() == i,
                forall|k: int|
                    0 <= k < i ==> #[trigger] row@[k] == sigma(
                        nc as int,
                        |j: int|
                            transmat.at(k, j).s_times(frameprob.at(t + 1, j)).s_times(nv[j]),
                    ).s_times(scaling@[t as int]),
            decreases nc - i,
        {
            let f = |j: usize| -> (x: T)
                requires
                    j < nc,
                    i < nc,
                    t + 1 < frameprob.rows.len(),
                    nc == frameprob.ncols,
                    frameprob.wf(),
                    transmat.has_dims(nc as int, nc as int),
                    next.len() == nc,
                ensures
                    x == transmat.at(i as int, j as int).s_times(
                        frameprob.at(t + 1, j as int),
                    ).s_times(next@[j as int]),
            {
                transmat.get(i, j).times(frameprob.get(t + 1, j)).times(next[j])
            };
            let acc = sum_of(
                nc,
                f,
                Ghost(
                    |j: int|
                        transmat.at(i as int, j).s_times(frameprob.at(t + 1, j)).s_times(nv[j]),
                ),
            );
            row.push(acc.times(scaling[t]));
            i += 1;
        }
        proof {
            assert(row@ =~= backward_scaled_row(transmat, frameprob, scaling@, t as int));
        }
        rows.push(row);
    }
    reversed(rows, nc, Ghost(|t: int| backward_scaled_row(transmat, frameprob, scaling@, t)))
}

/// Two lattices over the frames, and transitions between their states.
pub open spec fn lattice_shape<T>(
    fwd: &Matrix<T>,
    transmat: &Matrix<T>,
    bwd: &Matrix<T>,
    frames: &Matrix<T>,
) -> bool {
    &&& frames.wf()
    &&& frames.rows.len() >= 1
    &&& fwd.has_dims(frames.rows.len() as int, frames.ncols as int)
    &&& bwd.has_dims(frames.rows.len() as int, frames.ncols as int)
    &&& transmat.has_dims(frames.ncols as int, frames.ncols as int)
}

/// The expected number of transitions from `i` to `j` between frames `t` and
/// `t + 1`, in scaling form.
pub open spec fn scaled_xi<T: Scalar>(
    fwd: &Matrix<T>,
    transmat: &Matrix<T>,
    bwd: &Matrix<T>,
    frames: &Matrix<T>,
    i: int,
    j: int,
    t: int,
) -> T {
    fwd.at(t, i).s_times(transmat.at(i, j)).s_times(frames.at(t + 1, j)).s_times(bwd.at(t + 1, j))
}

/// Accumulated transition counts in scaling form: entry `(i, j)` is the sum over
/// adjacent frames of [`scaled_xi`].
pub fn compute_scaling_xi_sum<T: Scalar>(
    fwd: &Matrix<T>,
    transmat: &Matrix<T>,
    bwd: &Matrix<T>,
    frameprob: &Matrix<T>,
) -> (xi: Matrix<T>)
    requires
        lattice_shape(fwd, transmat, bwd, frameprob),
    ensures
        xi.has_dims(frameprob.ncols as int, frameprob.ncols as int),
        forall|i: int, j: int|
            0 <= i < frameprob.ncols && 0 <= j < frameprob.ncols ==> #[trigger] xi.at(i, j) == sigma(
                frameprob.rows.len() - 1,
                |t: int| scaled_xi(fwd, transmat, bwd, frameprob, i, j, t),
            ),
{
    let nc: usize = frameprob.ncols;
    let f = |i: usize, j: usize| -> (x: T)
        requires
            lattice_shape(fwd, transmat, bwd, frameprob),
            i < frameprob.ncols,
            j < frameprob.ncols,
        ensures
            x == sigma(
                frameprob.rows.len() - 1,
                |t: int| scaled_xi(fwd, transmat, bwd, frameprob, i as int, j as int, t),
            ),
    {
        scaled_xi_total(fwd, transmat, bwd, frameprob, i, j)
    };
    Matrix::tabulate(nc, nc, f)
}

fn scaled_xi_total<T: Scalar>(
    fwd: &Matrix<T>,
    transmat: &Matrix<T>,
    bwd: &Matrix<T>,
    frameprob: &Matrix<T>,
    i: usize,
    j: usize,
) -> (x: T)
    requires
        lattice_shape(fwd, transmat, bwd, frameprob),
        i < frameprob.ncols,
        j < frameprob.ncols,
    ensures
        x == sigma(
            frameprob.rows.len() - 1,
            |t: int| scaled_xi(fwd, transmat, bwd, frameprob, i as int, j as int, t),
        ),
{
    let f = |t: usize| -> (x: T)
        requires
            lattice_shape(fwd, transmat, bwd, frameprob),
            t + 1 < frameprob.rows.len(),
            i < frameprob.ncols,
            j < frameprob.ncols,
        ensures
            x == scaled_xi(fwd, transmat, bwd, frameprob, i as int, j as int, t as int),
    {
        fwd.get(t, i).times(transmat.get(i, j)).times(frameprob.get(t + 1, j)).times(
            bwd.get(t + 1, j),
        )
    };
    sum_of(
        frameprob.rows.len() - 1,
        f,
        Ghost(|t: int| scaled_xi(fwd, transmat, bwd, frameprob, i as int, j as int, t)),
    )
}

/// The log of the expected number of transitions from `i` to `j` between frames
/// `t` and `t + 1`, given the sequence log-likelihood.
pub open spec fn log_xi<T: Scalar>(
    fwd: &Matrix<T>,
    transmat: &Matrix<T>,
    bwd: &Matrix<T>,
    frames: &Matrix<T>,
    log_prob: T,
    i: int,
    j: int,
    t: int,
) -> T {
    fwd.at(t, i).s_plus(transmat.at(i, j).s_ln()).s_plus(frames.at(t + 1, j)).s_plus(
        bwd.at(t + 1, j),
    ).s_minus(log_prob)
}

/// The first `n` values of `f`, gathered by [`log_add`] from negative infinity.
pub open spec fn log_gather<T: Scalar>(n: int, f: spec_fn(int) -> T) -> T
    decreases n,
{
    if n <= 0 {
        T::s_neg_inf()
    } else {
        log_add(log_gather(n - 1, f), f(n - 1))
    }
}

/// Accumulated transition counts in log form: entry `(i, j)` gathers [`log_xi`]
/// over adjacent frames, starting from negative infinity (no contribution).
pub fn compute_log_xi_sum<T: Scalar>(
    fwd: &Matrix<T>,
    transmat: &Matrix<T>,
    bwd: &Matrix<T>,
    log_frameprob: &Matrix<T>,
) -> (xi: Matrix<T>)
    requires
        lattice_shape(fwd, transmat, bwd, log_frameprob),
    ensures
        xi.has_dims(log_frameprob.ncols as int, log_frameprob.ncols as int),
        forall|i: int, j: int|
            0 <= i < log_frameprob.ncols && 0 <= j < log_frameprob.ncols ==> #[trigger] xi.at(i, j)
                == log_gather(
                log_frameprob.rows.len() - 1,
                |t: int|
                    log_xi(
                        fwd,
                        transmat,
                        bwd,
                        log_frameprob,
                        log_sum_exp(fwd.row_view(log_frameprob.rows.len() - 1)),
                        i,
                        j,
                        t,
                    ),
            ),
{
    let nc: usize = log_frameprob.ncols;
    let log_prob = logsumexp(&fwd.rows[log_frameprob.rows.len() - 1]);
    let f = |i: usize, j: usize| -> (x: T)
        requires
            lattice_shape(fwd, transmat, bwd, log_frameprob),
            i < log_frameprob.ncols,
            j < log_frameprob.ncols,
        ensures
            x == log_gather(
                log_frameprob.rows.len() - 1,
                |t: int|
                    log_xi(fwd, transmat, bwd, log_frameprob, log_prob, i as int, j as int, t),
            ),
    {
        log_xi_total(fwd, transmat, bwd, log_frameprob, log_prob, i, j)
    };
    Matrix::tabulate(nc, nc, f)
}

fn log_xi_total<T: Scalar>(
    fwd: &Matrix<T>,
    transmat: &Matrix<T>,
    bwd: &Matrix<T>,
    log_frameprob: &Matrix<T>,
    log_prob: T,
    i: usize,
    j: usize,
) -> (x: T)
    requires
        lattice_shape(fwd, transmat, bwd, log_frameprob),
        i < log_frameprob.ncols,
        j < log_frameprob.ncols,
    ensures
        x == log_gather(
            log_frameprob.rows.len() - 1,
            |t: int| log_xi(fwd, transmat, bwd, log_frameprob, log_prob, i as int, j as int, t),
        ),
{
    let ns: usize = log_frameprob.rows.len();
    let lt = transmat.get(i, j).ln();
    let ghost g = |t: int| log_xi(fwd, transmat, bwd, log_frameprob, log_prob, i as int, j as int, t);
    let mut acc = T::neg_inf();
    let mut t: usize = 0;
    while t < ns - 1
        invariant
            t <= ns - 1,
            ns == log_frameprob.rows.len(),
            lattice_shape(fwd, transmat, bwd, log_frameprob),
            i < log_frameprob.ncols,
            j < log_frameprob.ncols,
            lt == transmat.at(i as int, j as int).s_ln(),
            g == (|t: int|
                log_xi(fwd, transmat, bwd, log_frameprob, log_prob, i as int, j as int, t)),
            acc == log_gather(t as int, g),
        decreases ns - t,
    {
        let x = fwd.get(t, i).plus(lt).plus(log_frameprob.get(t + 1, j)).plus(
            bwd.get(t + 1, j),
        ).minus(log_prob);
        acc = logaddexp(acc, x);
        t += 1;
    }
    acc
}

/// Row `t` of the Viterbi lattice: the log-probability of the best path over the
/// first `t + 1` frames that ends in each state.
pub open spec fn viterbi_row<T: Scalar>(
    startprob: Seq<T>,
    transmat: &Matrix<T>,
    frames: &Matrix<T>,
    t: int,
) -> Seq<T>
    decreases t,
{
    if t <= 0 {
        log_start_row(startprob, frames)
    } else {
        let prev = viterbi_row(startprob, transmat, frames, t - 1);
        Seq::new(
            frames.ncols as nat,
            |i: int|
                max_upto(log_arrivals(prev, transmat, i), frames.ncols as int).s_plus(
                    frames.at(t, i),
                ),
        )
    }
}

/// The first index, among the first `n`, of an entry that no earlier entry
/// reaches: the first maximum. 0 where no entry is above negative infinity.
pub open spec fn first_best<T: Scalar>(s: Seq<T>, n: int) -> int
    decreases n,
{
    if n <= 0 {
        0
    } else if max_upto(s, n - 1).s_below(s[n - 1]) {
        n - 1
    } else {
        first_best(s, n - 1)
    }
}

/// The maximum of the first `n` entries and the last index that attains it: a
/// later entry that equals the best so far takes its place.
pub open spec fn last_best<T: Scalar>(s: Seq<T>, n: int) -> (T, int)
    decreases n,
{
    if n <= 0 {
        (T::s_neg_inf(), 0)
    } else {
        let (best, idx) = last_best(s, n - 1);
        let v = s[n - 1];
        if best.s_below(v) || (v.s_same(best) && n - 1 > idx) {
            (v, n - 1)
        } else {
            (best, idx)
        }
    }
}

/// The state of the decoded path at frame `t`: at the last frame the first
/// maximum of the lattice row, before that the last best predecessor of the
/// state at `t + 1`.
pub open spec fn viterbi_state<T: Scalar>(
    startprob: Seq<T>,
    transmat: &Matrix<T>,
    frames: &Matrix<T>,
    t: int,
) -> int
    decreases frames.rows.len() - t,
{
    let nc = frames.ncols as int;
    if t >= frames.rows.len() - 1 {
        first_best(viterbi_row(startprob, transmat, frames, frames.rows.len() - 1), nc)
    } else {
        let next = viterbi_state(startprob, transmat, frames, t + 1);
        last_best(log_arrivals(viterbi_row(startprob, transmat, frames, t), transmat, next), nc).1
    }
}

/// Viterbi decoding: the log-probability of the most likely state sequence, and
/// that sequence. The last state is the first maximum of the last lattice row;
/// in the backtrace ties favour the larger state index.
pub fn viterbi<T: Scalar>(
    startprob: &Vec<T>,
    transmat: &Matrix<T>,
    log_frameprob: &Matrix<T>,
) -> (r: (T, Vec<usize>))
    requires
        chain_shape(startprob@, transmat, log_frameprob),
        log_frameprob.ncols >= 1,
    ensures
        r.1.len() == log_frameprob.rows.len(),
        forall|t: int|
            0 <= t < r.1.len() ==> #[trigger] r.1@[t] == viterbi_state(
                startprob@,
                transmat,
                log_frameprob,
                t,
            ) && r.1@[t] < log_frameprob.ncols,
        r.0 == viterbi_row(
            startprob@,
            transmat,
            log_frameprob,
            log_frameprob.rows.len() - 1,
        )[viterbi_state(startprob@, transmat, log_frameprob, log_frameprob.rows.len() - 1)],
{
    let ns: usize = log_frameprob.rows.len();
    let nc: usize = log_frameprob.ncols;
    let log_transmat = ln_matrix(transmat);
    let mut lattice: Vec<Vec<T>> = Vec::new();
    lattice.push(log_start(startprob, log_frameprob));
    let mut t: usize = 1;
    while t < ns
        invariant
            1 <= t <= ns,
            ns == log_frameprob.rows.len(),
            nc == log_frameprob.ncols,
            chain_shape(startprob@, transmat, log_frameprob),
            log_transmat.has_dims(nc as int, nc as int),
            forall|i: int, j: int|
                0 <= i < nc && 0 <= j < nc ==> #[trigger] log_transmat.at(i, j) == transmat.at(i, j).s_ln(),
            lattice.len() == t,
            forall|k: int|
                0 <= k < t ==> (#[trigger] lattice@[k])@ == viterbi_row(
                    startprob@,
                    transmat,
                    log_frameprob,
                    k,
                ),
        decreases ns - t,
    {
        let prev = &lattice[t - 1];
        let ghost pv = viterbi_row(startprob@, transmat, log_frameprob, t as int - 1);
        let mut row: Vec<T> = Vec::new();
        let mut i: usize = 0;
        while i < nc
            invariant
                1 <= t < ns,
                i <= nc,
                ns == log_frameprob.rows.len(),
                nc == log_frameprob.ncols,
                chain_shape(startprob@, transmat, log_frameprob),
                log_transmat.has_dims(nc as int, nc as int),
                forall|i: int, j: int|
                    0 <= i < nc && 0 <= j < nc ==> #[trigger] log_transmat.at(i, j) == transmat.at(i, j).s_ln(),
                prev@ == pv,
                pv.len() == nc,
                row.len() == i,
                forall|k: int|
                    0 <= k < i ==> #[trigger] row@[k] == max_upto(
                        log_arrivals(pv, transmat, k),
                        nc as int,
                    ).s_plus(log_frameprob.at(t as int, k)),
            decreases nc - i,
        {
            let buf = arrivals(prev, &log_transmat, i, Ghost(transmat));
            row.push(max_entry(&buf).plus(log_frameprob.get(t, i)));
            i += 1;
        }
        proof {
            assert(row@ =~= viterbi_row(startprob@, transmat, log_frameprob, t as int));
        }
        lattice.push(row);
        t += 1;
    }
    let last = &lattice[ns - 1];
    let mut prev: usize = 0;
    let mut best = T::neg_inf();
    let mut i: usize = 0;
    while i < nc
        invariant
            i <= nc,
            last.len() == nc,
            best == max_upto(last@, i as int),
            prev == first_best(last@, i as int),
            prev == 0 || prev < i,
        decreases nc - i,
    {
        if best.below(last[i]) {
            best = last[i];
            prev = i;
        }
        i += 1;
    }
    let log_prob = last[prev];
    // States from the last frame to the first.
    let mut back: Vec<usize> = Vec::new();
    back.push(prev);
    let mut t: usize = ns - 1;
    while t > 0
        invariant
            t <= ns - 1,
            ns == log_frameprob.rows.len(),
            nc == log_frameprob.ncols,
            nc >= 1,
            chain_shape(startprob@, transmat, log_frameprob),
            log_transmat.has_dims(nc as int, nc as int),
            forall|i: int, j: int|
                0 <= i < nc && 0 <= j < nc ==> #[trigger] log_transmat.at(i, j) == transmat.at(i, j).s_ln(),
            lattice.len() == ns,
            forall|k: int|
                0 <= k < ns ==> (#[trigger] lattice@[k])@ == viterbi_row(
                    startprob@,
                    transmat,
                    log_frameprob,
                    k,
                ),
            prev < nc,
            prev == viterbi_state(startprob@, transmat, log_frameprob, t as int),
            back.len() == ns - t,
            forall|k: int|
                0 <= k < back.len() ==> #[trigger] back@[k] == viterbi_state(
                    startprob@,
                    transmat,
                    log_frameprob,
                    ns - 1 - k,
                ) && back@[k] < nc,
        decreases t,
    {
        t = t - 1;
        let row = &lattice[t];
        let vals = arrivals(row, &log_transmat, prev, Ghost(transmat));
        let mut best_val = T::neg_inf();
        let mut best_idx: usize = 0;
        let mut i: usize = 0;
        while i < nc
            invariant
                i <= nc,
                vals.len() == nc,
                (best_val, best_idx as int) == last_best(vals@, i as int),
                best_idx == 0 || best_idx < i,
            decreases nc - i,
        {
            let v = vals[i];
            if best_val.below(v) || (v.same(best_val) && i > best_idx) {
                best_val = v;
                best_idx = i;
            }
            i += 1;
        }
        prev = best_idx;
        back.push(prev);
    }
    let mut states: Vec<usize> = Vec::new();
    let mut k: usize = 0;
    while k < ns
        invariant
            k <= ns,
            ns == log_frameprob.rows.len(),
            nc == log_frameprob.ncols,
            back.len() == ns,
            forall|k: int|
                0 <= k < back.len() ==> #[trigger] back@[k] == viterbi_state(
                    startprob@,
                    transmat,
                    log_frameprob,
                    ns - 1 - k,
                ) && back@[k] < nc,
            states.len() == k,
            forall|t: int|
                0 <= t < k ==> #[trigger] states@[t] == viterbi_state(
                    startprob@,
                    transmat,
                    log_frameprob,
                    t,
                ) && states@[t] < nc,
        decreases ns - k,
    {
        states.push(back[ns - 1 - k]);
        k += 1;
    }
    (log_prob, states)
}

/// The posterior of state `j` at frame `t`, from log-domain lattices: the sum of
/// the two lattices, log-normalised along the row and exponentiated.
pub open spec fn log_posterior_at<T: Scalar>(fwd: &Matrix<T>, bwd: &Matrix<T>, t: int, j: int) -> T {
    if fwd.ncols == 1 {
        num::<T>(0).s_exp()
    } else {
        fwd.at(t, j).s_plus(bwd.at(t, j)).s_minus(
            log_sum_exp(Seq::new(fwd.ncols as nat, |k: int| fwd.at(t, k).s_plus(bwd.at(t, k)))),
        ).s_exp()
    }
}

/// Posteriors from log-domain lattices.
pub fn compute_posteriors_log<T: Scalar>(fwd: &Matrix<T>, bwd: &Matrix<T>) -> (post: Matrix<T>)
    requires
        fwd.wf(),
        bwd.has_dims(fwd.rows.len() as int, fwd.ncols as int),
    ensures
        post.has_dims(fwd.rows.len() as int, fwd.ncols as int),
        forall|t: int, j: int|
            0 <= t < fwd.rows.len() && 0 <= j < fwd.ncols ==> #[trigger] post.at(t, j)
                == log_posterior_at(fwd, bwd, t, j),
{
    let f = |t: usize, j: usize| -> (x: T)
        requires
            fwd.wf(),
            bwd.has_dims(fwd.rows.len() as int, fwd.ncols as int),
            t < fwd.rows.len(),
            j < fwd.ncols,
        ensures
            x == fwd.at(t as int, j as int).s_plus(bwd.at(t as int, j as int)),
    {
        fwd.get(t, j).plus(bwd.get(t, j))
    };
    let mut log_gamma = Matrix::tabulate(fwd.rows.len(), fwd.ncols, f);
    let ghost joint = log_gamma;
    log_normalize_axis(&mut log_gamma, 1);
    let normalised = log_gamma;
    let g = |t: usize, j: usize| -> (x: T)
        requires
            normalised.wf(),
            t < normalised.rows.len(),
            j < normalised.ncols,
        ensures
            x == normalised.at(t as int, j as int).s_exp(),
    {
        normalised.get(t, j).exp()
    };
    let post = Matrix::tabulate(fwd.rows.len(), fwd.ncols, g);
    proof {
        assert forall|t: int, j: int|
            0 <= t < fwd.rows.len() && 0 <= j < fwd.ncols implies #[trigger] post.at(t, j)
            == log_posterior_at(fwd, bwd, t, j) by {
            assert(normalised.at(t, j) == log_normalized_at(&joint, 1, t, j));
            assert(joint.rows@[t].len() == fwd.ncols);
            assert forall|k: int| 0 <= k < fwd.ncols implies #[trigger] joint.row_view(t)[k] == fwd.at(t, k).s_plus(bwd.at(t, k)) by {
                assert(joint.at(t, k) == fwd.at(t, k).s_plus(bwd.at(t, k)));
            }
            assert(joint.row_view(t) =~= Seq::new(
                fwd.ncols as nat,
                |k: int| fwd.at(t, k).s_plus(bwd.at(t, k)),
            ));
            assert(joint.at(t, j) == fwd.at(t, j).s_plus(bwd.at(t, j)));
        }
    }
    post
}

/// The posterior of state `j` at frame `t`, from scaling-form lattices: the
/// product of the two lattices, divided by its sum along the row (by 1 where
/// that sum is zero).
pub open spec fn scaled_posterior_at<T: Scalar>(fwd: &Matrix<T>, bwd: &Matrix<T>, t: int, j: int) -> T {
    fwd.at(t, j).s_times(bwd.at(t, j)).s_over(
        divisor(lanes(fwd.ncols as int, |k: int| fwd.at(t, k).s_times(bwd.at(t, k)))),
    )
}

/// Posteriors from scaling-form lattices.
pub fn compute_posteriors_scaling<T: Scalar>(fwd: &Matrix<T>, bwd: &Matrix<T>) -> (post: Matrix<T>)
    requires
        fwd.wf(),
        bwd.has_dims(fwd.rows.len() as int, fwd.ncols as int),
    ensures
        post.has_dims(fwd.rows.len() as int, fwd.ncols as int),
        forall|t: int, j: int|
            0 <= t < fwd.rows.len() && 0 <= j < fwd.ncols ==> #[trigger] post.at(t, j)
                == scaled_posterior_at(fwd, bwd, t, j),
{
    let f = |t: usize, j: usize| -> (x: T)
        requires
            fwd.wf(),
            bwd.has_dims(fwd.rows.len() as int, fwd.ncols as int),
            t < fwd.rows.len(),
            j < fwd.ncols,
        ensures
            x == fwd.at(t as int, j as int).s_times(bwd.at(t as int, j as int)),
    {
        fwd.get(t, j).times(bwd.get(t, j))
    };
    let mut post = Matrix::tabulate(fwd.rows.len(), fwd.ncols, f);
    let ghost joint = post;
    normalize_axis(&mut post, 1);
    proof {
        assert forall|t: int, j: int|
            0 <= t < fwd.rows.len() && 0 <= j < fwd.ncols implies #[trigger] post.at(t, j)
            == scaled_posterior_at(fwd, bwd, t, j) by {
            let a = |k: int| joint.at(t, k);
            let b = |k: int| fwd.at(t, k).s_times(bwd.at(t, k));
            assert forall|k: int| 0 <= k < fwd.ncols implies #[trigger] a(k) == b(k) by {
                assert(joint.at(t, k) == fwd.at(t, k).s_times(bwd.at(t, k)));
            }
            lanes_ext(fwd.ncols as int, a, b);
            assert(joint.at(t, j) == fwd.at(t, j).s_times(bwd.at(t, j)));
        }
    }
    post
}

} // verus!
