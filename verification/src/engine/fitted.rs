//! A fitted model and its inference operations.

use crate::counting::saturated;
use crate::engine::algorithms::{first_best, viterbi, viterbi_row, viterbi_state};
use crate::engine::emission::{is_slice, EmissionModel};
use crate::engine::fit::{is_split, lengths_mismatch, lengths_ok, ranges_ok, split};
use crate::engine::hmm::{frames_of, pass_underflows, FbMode, ForwardBackward, Hmm};
use crate::engine::inference::{seed_or_zero, Inference};
use crate::engine::laws::score_covers_every_row;
use crate::engine::monitor::ConvergenceMonitor;
use crate::engine::optimality::path_score;
use crate::engine::params::{DecoderAlgorithm, Implementation, Param, ParamSet};
use crate::error::HmmError;
use crate::linalg::{stationary_distribution, stationary_system, stationary_target, Dense};
use crate::matrix::Matrix;
use crate::rng::state::{fresh_state, NumpyRandomState, RngView};
use crate::rng::uniform::sample_of;
use crate::scalar::{count, num, zero, Scalar};
use crate::special::max_upto;
use crate::util::prefix_total;
use vstd::prelude::*;

verus! {

/// A trained hidden Markov model.
#[derive(Clone)]
pub struct Fitted<T: Dense, E: EmissionModel<T>>(pub Hmm<T, E>);

/// Entry `i` of the running sums of `a`.
pub open spec fn running_sum<T: Scalar>(a: Seq<T>, i: int) -> T
    decreases i,
{
    if i <= 0 {
        a[0]
    } else {
        a[i].s_plus(running_sum(a, i - 1))
    }
}

/// The running sums of `a`.
pub open spec fn running_sums<T: Scalar>(a: Seq<T>) -> Seq<T> {
    Seq::new(a.len(), |i: int| running_sum(a, i))
}

/// Cumulative sum of a vector.
pub fn cumsum<T: Scalar>(a: &Vec<T>) -> (r: Vec<T>)
    ensures
        r@ == running_sums(a@),
{
    let mut r: Vec<T> = Vec::new();
    let mut i: usize = 0;
    while i < a.len()
        invariant
            i <= a.len(),
            r.len() == i,
            forall|k: int| 0 <= k < i ==> #[trigger] r@[k] == running_sum(a@, k),
        decreases a.len() - i,
    {
        let x = if i == 0 {
            a[0]
        } else {
            a[i].plus(r[i - 1])
        };
        r.push(x);
        i += 1;
    }
    proof {
        assert(r@ =~= running_sums(a@));
    }
    r
}

/// Cumulative sums of a matrix: down the columns along axis 0, along the rows
/// for axis 1.
pub fn cumsum_axis<T: Scalar>(a: &Matrix<T>, axis: usize) -> (r: Matrix<T>)
    requires
        a.wf(),
        axis < 2,
    ensures
        r.has_dims(a.rows.len() as int, a.ncols as int),
        forall|i: int, j: int|
            0 <= i < a.rows.len() && 0 <= j < a.ncols ==> #[trigger] r.at(i, j) == if axis == 0 {
                running_sum(a.col_view(j), i)
            } else {
                running_sum(a.row_view(i), j)
            },
{
    let n: usize = a.rows.len();
    let m: usize = a.ncols;
    let lanes: usize = if axis == 0 {
        m
    } else {
        n
    };
    let mut sums: Vec<Vec<T>> = Vec::new();
    let mut k: usize = 0;
    while k < lanes
        invariant
            k <= lanes,
            a.wf(),
            axis < 2,
            n == a.rows.len(),
            m == a.ncols,
            lanes == if axis == 0 {
                m
            } else {
                n
            },
            sums.len() == k,
            forall|q: int|
                0 <= q < k ==> (#[trigger] sums@[q])@ == running_sums(
                    if axis == 0 {
                        a.col_view(q)
                    } else {
                        a.row_view(q)
                    },
                ),
        decreases lanes - k,
    {
        let s = if axis == 0 {
            cumsum(&a.col(k))
        } else {
            cumsum(&a.rows[k])
        };
        sums.push(s);
        k += 1;
    }
    proof {
        assert forall|q: int| 0 <= q < n implies (#[trigger] a.row_view(q)).len() == m by {
            assert(a.rows[q].len() == m);
        }
    }
    let f = |i: usize, j: usize| -> (x: T)
        requires
            i < n,
            j < m,
            axis == 0 ==> sums.len() == m && sums@[j as int].len() == n,
            axis != 0 ==> sums.len() == n && sums@[i as int].len() == m,
        ensures
            x == if axis == 0 {
                sums@[j as int]@[i as int]
            } else {
                sums@[i as int]@[j as int]
            },
    {
        if axis == 0 {
            sums[j][i]
        } else {
            sums[i][j]
        }
    };
    proof {
        assert forall|i: usize, j: usize| i < n && j < m implies call_requires(f, (i, j)) by {
            if axis == 0 {
                assert(sums@[j as int]@ == running_sums(a.col_view(j as int)));
            } else {
                assert(sums@[i as int]@ == running_sums(a.row_view(i as int)));
                assert(a.row_view(i as int).len() == m);
            }
        }
    }
    Matrix::tabulate(n, m, f)
}

/// The first index, from `i` on, whose entry is above `u`; the last index if there
/// is none.
pub open spec fn first_above<T: Scalar>(cdf: Seq<T>, u: T, i: int) -> int
    decreases cdf.len() - i,
{
    if i < 0 || i >= cdf.len() {
        cdf.len() - 1
    } else if u.s_below(cdf[i]) {
        i
    } else {
        first_above(cdf, u, i + 1)
    }
}

/// First index whose entry is above `u`, or the last index if none is.
pub fn first_gt<T: Scalar>(cdf: &Vec<T>, u: T) -> (r: usize)
    requires
        cdf.len() >= 1,
    ensures
        r == first_above(cdf@, u, 0),
        r < cdf.len(),
{
    let mut i: usize = 0;
    while i < cdf.len()
        invariant
            i <= cdf.len(),
            cdf.len() >= 1,
            first_above(cdf@, u, i as int) == first_above(cdf@, u, 0),
        decreases cdf.len() - i,
    {
        if u.below(cdf[i]) {
            return i;
        }
        i += 1;
    }
    cdf.len() - 1
}

/// The index and value of the first maximum of a row.
pub fn argmax_row<T: Scalar>(row: &Vec<T>) -> (r: (usize, T))
    ensures
        r.0 == first_best(row@, row@.len() as int),
        r.1 == max_upto(row@, row@.len() as int),
        r.0 == 0 || r.0 < row.len(),
{
    let mut idx: usize = 0;
    let mut max = T::neg_inf();
    let mut i: usize = 0;
    while i < row.len()
        invariant
            i <= row.len(),
            idx == first_best(row@, i as int),
            max == max_upto(row@, i as int),
            idx == 0 || idx < i,
        decreases row.len() - i,
    {
        if max.below(row[i]) {
            max = row[i];
            idx = i;
        }
        i += 1;
    }
    (idx, max)
}

/// The trace of a scoring pass over the first `k` sequences.
pub struct Scoring<T> {
    /// The sequences.
    pub subs: Seq<Matrix<T>>,
    /// The forward-backward results of each.
    pub fbs: Seq<ForwardBackward<T>>,
    /// The summed log-probability before the first sequence and after each.
    pub logs: Seq<T>,
}

/// Sequence `i` of the trace was sliced and passed over.
pub open spec fn scored_at<T: Dense, E: EmissionModel<T>>(
    h: &Hmm<T, E>,
    x: &Matrix<T>,
    ranges: Seq<(usize, usize)>,
    trans: &Matrix<T>,
    tr: Scoring<T>,
    i: int,
) -> bool {
    &&& is_slice(x, ranges[i].0 as int, ranges[i].1 as int, &tr.subs[i])
    &&& tr.fbs[i].has_dims(tr.subs[i].rows.len() as int, h.inference.states())
    &&& frames_of(
        &h.emission,
        h.implementation,
        FbMode::Score,
        &tr.subs[i],
        &tr.fbs[i].frameprob,
    )
    &&& tr.fbs[i].is_pass(h.implementation, h.inference.start_view(), trans)
    &&& tr.logs[i + 1] == tr.logs[i].s_plus(tr.fbs[i].log_prob)
}

/// The trace is that of the first `k` sequences.
pub open spec fn scored_upto<T: Dense, E: EmissionModel<T>>(
    h: &Hmm<T, E>,
    x: &Matrix<T>,
    ranges: Seq<(usize, usize)>,
    trans: &Matrix<T>,
    tr: Scoring<T>,
    k: int,
) -> bool {
    &&& trans@ == h.inference.trans_view()
    &&& trans.has_dims(h.inference.states(), h.inference.states())
    &&& tr.subs.len() == k
    &&& tr.fbs.len() == k
    &&& tr.logs.len() == k + 1
    &&& tr.logs[0] == num::<T>(0)
    &&& forall|i: int| 0 <= i < k ==> #[trigger] scored_at(h, x, ranges, trans, tr, i)
}

/// The posteriors of the first `k` sequences, one under the other.
pub open spec fn stacked<T>(fbs: Seq<ForwardBackward<T>>, k: int) -> Seq<Seq<T>>
    decreases k,
{
    if k <= 0 {
        Seq::empty()
    } else {
        stacked(fbs, k - 1) + fbs[k - 1].posteriors@
    }
}

/// The log-probability and posteriors are those of a scoring pass: the sum over
/// the sequences of their log-likelihoods, and their posteriors one under the
/// other.
pub open spec fn is_score<T: Dense, E: EmissionModel<T>>(
    h: &Hmm<T, E>,
    x: &Matrix<T>,
    lengths: Option<&[usize]>,
    log_prob: T,
    posteriors: Seq<Seq<T>>,
) -> bool {
    exists|ranges: Seq<(usize, usize)>, trans: Matrix<T>, tr: Scoring<T>|
        is_split(lengths, x.rows.len() as int, ranges) && #[trigger] scored_upto(
            h,
            x,
            ranges,
            &trans,
            tr,
            ranges.len() as int,
        ) && log_prob == tr.logs.last() && posteriors == stacked(tr.fbs, ranges.len() as int)
}

/// The log-probability is that of a scoring pass.
pub open spec fn is_log_likelihood<T: Dense, E: EmissionModel<T>>(
    h: &Hmm<T, E>,
    x: &Matrix<T>,
    lengths: Option<&[usize]>,
    log_prob: T,
) -> bool {
    exists|posteriors: Seq<Seq<T>>| #[trigger] is_score(h, x, lengths, log_prob, posteriors)
}

/// The posteriors are those of a scoring pass.
pub open spec fn is_posterior<T: Dense, E: EmissionModel<T>>(
    h: &Hmm<T, E>,
    x: &Matrix<T>,
    lengths: Option<&[usize]>,
    posteriors: Seq<Seq<T>>,
) -> bool {
    exists|log_prob: T| #[trigger] is_score(h, x, lengths, log_prob, posteriors)
}

/// The scoring pass over some sequence underflows.
pub open spec fn score_underflows<T: Dense, E: EmissionModel<T>>(
    h: &Hmm<T, E>,
    x: &Matrix<T>,
    lengths: Option<&[usize]>,
) -> bool {
    exists|ranges: Seq<(usize, usize)>, trans: Matrix<T>, sub: Matrix<T>, k: int|
        is_split(lengths, x.rows.len() as int, ranges) && trans@ == h.inference.trans_view() && 0
            <= k < ranges.len() && #[trigger] is_slice(
            x,
            ranges[k].0 as int,
            ranges[k].1 as int,
            &sub,
        ) && #[trigger] pass_underflows(
            &h.emission,
            h.implementation,
            FbMode::Score,
            h.inference.start_view(),
            &trans,
            &sub,
        )
}

/// How scoring fails: the lengths do not match, or a pass underflows.
pub open spec fn score_error<T: Dense, E: EmissionModel<T>>(
    h: &Hmm<T, E>,
    x: &Matrix<T>,
    lengths: Option<&[usize]>,
    e: HmmError,
) -> bool {
    ||| lengths_mismatch(lengths, x.rows.len() as int) && (lengths matches Some(ls) && e == (
    HmmError::LengthsMismatch {
        total: prefix_total(ls@, ls@.len() as int) as usize,
        n_samples: x.rows.len(),
    }))
    ||| !lengths_mismatch(lengths, x.rows.len() as int) && e == HmmError::ScalingUnderflow
        && score_underflows(h, x, lengths)
}

/// The trace of a decoding pass over the first `k` sequences.
pub struct Decoding<T> {
    /// The sequences.
    pub subs: Seq<Matrix<T>>,
    /// The frame log-likelihoods of each.
    pub frames: Seq<Matrix<T>>,
    /// The decoded states of each.
    pub paths: Seq<Seq<usize>>,
    /// The summed log-probability before the first sequence and after each.
    pub logs: Seq<T>,
}

/// Sequence `i` of the trace was sliced and decoded.
pub open spec fn decoded_at<T: Dense, E: EmissionModel<T>>(
    h: &Hmm<T, E>,
    x: &Matrix<T>,
    ranges: Seq<(usize, usize)>,
    trans: &Matrix<T>,
    tr: Decoding<T>,
    i: int,
) -> bool {
    let start = h.inference.start_view();
    let last = tr.subs[i].rows.len() - 1;
    &&& is_slice(x, ranges[i].0 as int, ranges[i].1 as int, &tr.subs[i])
    &&& frames_of(
        &h.emission,
        Implementation::Log,
        FbMode::Score,
        &tr.subs[i],
        &tr.frames[i],
    )
    &&& tr.paths[i].len() == tr.subs[i].rows.len()
    &&& forall|t: int|
        0 <= t < tr.paths[i].len() ==> #[trigger] tr.paths[i][t] == viterbi_state(
            start,
            trans,
            &tr.frames[i],
            t,
        )
    &&& tr.logs[i + 1] == tr.logs[i].s_plus(
        viterbi_row(start, trans, &tr.frames[i], last)[viterbi_state(
            start,
            trans,
            &tr.frames[i],
            last,
        )],
    )
}

/// The trace is that of the first `k` sequences.
pub open spec fn decoded_upto<T: Dense, E: EmissionModel<T>>(
    h: &Hmm<T, E>,
    x: &Matrix<T>,
    ranges: Seq<(usize, usize)>,
    trans: &Matrix<T>,
    tr: Decoding<T>,
    k: int,
) -> bool {
    &&& trans@ == h.inference.trans_view()
    &&& trans.has_dims(h.inference.states(), h.inference.states())
    &&& tr.subs.len() == k
    &&& tr.frames.len() == k
    &&& tr.paths.len() == k
    &&& tr.logs.len() == k + 1
    &&& tr.logs[0] == num::<T>(0)
    &&& forall|i: int| 0 <= i < k ==> #[trigger] decoded_at(h, x, ranges, trans, tr, i)
}

/// The states of the first `k` sequences, one after the other.
pub open spec fn joined_paths(paths: Seq<Seq<usize>>, k: int) -> Seq<usize>
    decreases k,
{
    if k <= 0 {
        Seq::empty()
    } else {
        joined_paths(paths, k - 1) + paths[k - 1]
    }
}

/// The log-probability and states are those of Viterbi decoding, sequence by
/// sequence.
pub open spec fn is_viterbi_decoding<T: Dense, E: EmissionModel<T>>(
    h: &Hmm<T, E>,
    x: &Matrix<T>,
    lengths: Option<&[usize]>,
    log_prob: T,
    states: Seq<usize>,
) -> bool {
    exists|ranges: Seq<(usize, usize)>, trans: Matrix<T>, tr: Decoding<T>|
        is_split(lengths, x.rows.len() as int, ranges) && #[trigger] decoded_upto(
            h,
            x,
            ranges,
            &trans,
            tr,
            ranges.len() as int,
        ) && log_prob == tr.logs.last() && states == joined_paths(tr.paths, ranges.len() as int)
}

/// A path with its states as mathematical integers.
pub open spec fn as_path(states: Seq<usize>) -> Seq<int> {
    Seq::new(states.len(), |t: int| states[t] as int)
}

/// The states of sequence `i`, scored by the trace `scored`, are the first maxima of
/// its posteriors, and the log-probability of following them was added.
pub open spec fn chosen_at<T: Dense, E: EmissionModel<T>>(
    h: &Hmm<T, E>,
    trans: &Matrix<T>,
    scored: Scoring<T>,
    tr: Decoding<T>,
    i: int,
) -> bool {
    &&& frames_of(
        &h.emission,
        Implementation::Log,
        FbMode::Score,
        &scored.subs[i],
        &tr.frames[i],
    )
    &&& tr.paths[i].len() == scored.subs[i].rows.len()
    &&& forall|t: int|
        0 <= t < tr.paths[i].len() ==> #[trigger] tr.paths[i][t] == first_best(
            scored.fbs[i].posteriors@[t],
            h.inference.states(),
        )
    &&& tr.logs[i + 1] == tr.logs[i].s_plus(
        path_score(
            h.inference.start_view(),
            trans,
            &tr.frames[i],
            as_path(tr.paths[i]),
            scored.subs[i].rows.len() - 1,
        ),
    )
}

/// The trace is that of the first `k` sequences that `scored` scored.
pub open spec fn chosen_upto<T: Dense, E: EmissionModel<T>>(
    h: &Hmm<T, E>,
    trans: &Matrix<T>,
    scored: Scoring<T>,
    tr: Decoding<T>,
    k: int,
) -> bool {
    &&& tr.subs == scored.subs
    &&& tr.frames.len() == k
    &&& tr.paths.len() == k
    &&& tr.logs.len() == k + 1
    &&& tr.logs[0] == num::<T>(0)
    &&& forall|i: int| 0 <= i < k ==> #[trigger] chosen_at(h, trans, scored, tr, i)
}

/// The states are the first maxima of the posteriors of a scoring pass, and the
/// log-probability is that of following them, summed over the sequences.
pub open spec fn is_posterior_decoding<T: Dense, E: EmissionModel<T>>(
    h: &Hmm<T, E>,
    x: &Matrix<T>,
    lengths: Option<&[usize]>,
    log_prob: T,
    states: Seq<usize>,
) -> bool {
    exists|
        ranges: Seq<(usize, usize)>,
        trans: Matrix<T>,
        scored: Scoring<T>,
        tr: Decoding<T>,
    |
        is_split(lengths, x.rows.len() as int, ranges) && #[trigger] scored_upto(
            h,
            x,
            ranges,
            &trans,
            scored,
            ranges.len() as int,
        ) && #[trigger] chosen_upto(h, &trans, scored, tr, ranges.len() as int) && log_prob
            == tr.logs.last() && states == joined_paths(tr.paths, ranges.len() as int)
}

/// The states are those of decoding by the algorithm `a`.
pub open spec fn is_decoding<T: Dense, E: EmissionModel<T>>(
    h: &Hmm<T, E>,
    x: &Matrix<T>,
    lengths: Option<&[usize]>,
    a: DecoderAlgorithm,
    log_prob: T,
    states: Seq<usize>,
) -> bool {
    match a {
        DecoderAlgorithm::Viterbi => is_viterbi_decoding(h, x, lengths, log_prob, states),
        DecoderAlgorithm::Posterior => is_posterior_decoding(h, x, lengths, log_prob, states),
    }
}

/// The states are those of decoding by the model's own algorithm.
pub open spec fn is_prediction<T: Dense, E: EmissionModel<T>>(
    h: &Hmm<T, E>,
    x: &Matrix<T>,
    lengths: Option<&[usize]>,
    states: Seq<usize>,
) -> bool {
    exists|log_prob: T| #[trigger] is_decoding(h, x, lengths, h.algorithm, log_prob, states)
}

/// A chain of states and observations as it is drawn.
pub struct Chain<T> {
    /// The random state.
    pub rng: RngView<T>,
    /// The states so far.
    pub states: Seq<int>,
    /// The observations so far.
    pub rows: Seq<Seq<T>>,
    /// Whether a draw gave up.
    pub failed: bool,
}

/// The first `n` states and observations: the first state is `first`, each next
/// one follows the cumulative transition row of the one before it.
pub open spec fn chain<T: Dense, E: EmissionModel<T>>(
    h: &Hmm<T, E>,
    first: int,
    rng: RngView<T>,
    n: int,
) -> Chain<T>
    decreases n,
{
    if n <= 0 {
        Chain { rng, states: Seq::empty(), rows: Seq::empty(), failed: false }
    } else {
        let c = chain(h, first, rng, n - 1);
        if c.failed {
            c
        } else {
            let (state, s) = if n == 1 {
                (first, c.rng)
            } else {
                (
                    first_above(
                        running_sums(h.inference.trans_view()[c.states.last()]),
                        sample_of::<T>(c.rng.mt),
                        0,
                    ),
                    c.rng.sampled(),
                )
            };
            match h.emission.draw(state, s) {
                (t, None) => Chain { rng: t, failed: true, ..c },
                (t, Some(row)) => Chain {
                    rng: t,
                    states: c.states.push(state),
                    rows: c.rows.push(row),
                    failed: false,
                },
            }
        }
    }
}

/// The first state of a sample and the random state after it: `currstate` where it
/// is given, else drawn from the start distribution.
pub open spec fn first_state<T: Dense, E: EmissionModel<T>>(
    h: &Hmm<T, E>,
    rng: RngView<T>,
    currstate: Option<usize>,
) -> (int, RngView<T>) {
    match currstate {
        Some(c) => (c as int, rng),
        None => (
            first_above(running_sums(h.inference.start_view()), sample_of::<T>(rng.mt), 0),
            rng.sampled(),
        ),
    }
}

/// The seed of a sample: the given one, else the model's, else 0.
pub open spec fn sample_seed(given: Option<u32>, own: Option<u32>) -> u32 {
    match given {
        Some(s) => s,
        None => seed_or_zero(own),
    }
}

/// The chain that a sample of `n` is.
pub open spec fn sampled_chain<T: Dense, E: EmissionModel<T>>(
    h: &Hmm<T, E>,
    random_state: Option<u32>,
    currstate: Option<usize>,
    n: int,
) -> Chain<T> {
    let (first, rng) = first_state(
        h,
        fresh_state::<T>(sample_seed(random_state, h.random_state)),
        currstate,
    );
    chain(h, first, rng, n)
}

proof fn chain_stays_failed<T: Dense, E: EmissionModel<T>>(
    h: &Hmm<T, E>,
    first: int,
    rng: RngView<T>,
    i: int,
    n: int,
)
    requires
        0 <= i <= n,
        chain(h, first, rng, i).failed,
    ensures
        chain(h, first, rng, n).failed,
    decreases n,
{
    if n > i {
        chain_stays_failed(h, first, rng, i, n - 1);
    }
}

proof fn chain_lengths<T: Dense, E: EmissionModel<T>>(
    h: &Hmm<T, E>,
    first: int,
    rng: RngView<T>,
    n: int,
)
    requires
        n >= 0,
        !chain(h, first, rng, n).failed,
    ensures
        chain(h, first, rng, n).states.len() == n,
        chain(h, first, rng, n).rows.len() == n,
        n >= 1 ==> chain(h, first, rng, n).states[0] == first,
    decreases n,
{
    if n > 0 {
        chain_lengths(h, first, rng, n - 1);
    }
}

/// A sample starts in the state that `currstate` pins.
pub proof fn sample_starts_in_pinned_state<T: Dense, E: EmissionModel<T>>(
    h: &Hmm<T, E>,
    random_state: Option<u32>,
    c: usize,
    n: int,
)
    requires
        n >= 1,
        !sampled_chain(h, random_state, Some(c), n).failed,
    ensures
        sampled_chain(h, random_state, Some(c), n).states.len() == n,
        sampled_chain(h, random_state, Some(c), n).states[0] == c,
{
    chain_lengths(h, c as int, fresh_state::<T>(sample_seed(random_state, h.random_state)), n);
}

/// `a` is the Akaike information criterion of the model on `x`.
pub open spec fn is_aic<T: Dense, E: EmissionModel<T>>(
    h: &Hmm<T, E>,
    x: &Matrix<T>,
    lengths: Option<&[usize]>,
    a: T,
) -> bool {
    exists|k: usize, log_prob: T| #[trigger]
        is_total_scalars(h, k) && #[trigger] is_log_likelihood(h, x, lengths, log_prob) && a
            == num::<T>(-2).s_times(log_prob).s_plus(num::<T>(2).s_times(num(k as int)))
}

/// `b` is the Bayesian information criterion of the model on `x`.
pub open spec fn is_bic<T: Dense, E: EmissionModel<T>>(
    h: &Hmm<T, E>,
    x: &Matrix<T>,
    lengths: Option<&[usize]>,
    b: T,
) -> bool {
    exists|k: usize, log_prob: T| #[trigger]
        is_total_scalars(h, k) && #[trigger] is_log_likelihood(h, x, lengths, log_prob) && b
            == num::<T>(-2).s_times(log_prob).s_plus(
            num::<T>(k as int).s_times(num::<T>(x.rows.len() as int).s_ln()),
        )
}

/// The number of free scalars over all parameter groups of the model.
pub open spec fn is_total_scalars<T: Dense, E: EmissionModel<T>>(h: &Hmm<T, E>, k: usize) -> bool {
    exists|all: ParamSet|
        k == saturated(#[trigger] h.scalars(all)) && all.wf() && (forall|p: Param|
            all.members().contains(p) <==> (p == Param::Start || p == Param::Trans
                || E::owned_params().contains(p)))
}

impl<T: Dense, E: EmissionModel<T>> Fitted<T, E> {
    /// The parameters have the shapes that states and features ask for.
    pub open spec fn wf(&self) -> bool {
        self.0.shaped()
    }

    /// The underlying model, to continue fitting it.
    pub fn into_inner(self) -> (h: Hmm<T, E>)
        ensures
            h == self.0,
    {
        self.0
    }

    /// Number of hidden states.
    pub fn n_components(&self) -> (n: usize)
        ensures
            n == self.0.inference.states(),
    {
        self.0.n_components()
    }

    /// The fitted initial-state distribution.
    pub fn start_prob(&self) -> (r: &Vec<T>)
        ensures
            r@ == self.0.inference.start_view(),
    {
        self.0.inference.start_prob()
    }

    /// The fitted transition matrix.
    pub fn trans_mat(&self) -> (r: &Matrix<T>)
        requires
            self.wf(),
        ensures
            r@ == self.0.inference.trans_view(),
            r.has_dims(self.0.inference.states(), self.0.inference.states()),
    {
        self.0.inference.trans_mat()
    }

    /// The fitted emission model.
    pub fn emission(&self) -> (r: &E)
        ensures
            *r == self.0.emission,
    {
        &self.0.emission
    }

    /// The convergence monitor after fitting.
    pub fn monitor(&self) -> (r: &ConvergenceMonitor<T>)
        ensures
            *r == self.0.monitor,
    {
        &self.0.monitor
    }

    /// The numerical strategy of the forward-backward passes.
    pub fn implementation(&self) -> (r: Implementation)
        ensures
            r == self.0.implementation,
    {
        self.0.implementation
    }

    /// Log-likelihood of `x` and per-sample state posteriors.
    pub fn score_samples(&self, x: &Matrix<T>, lengths: Option<&[usize]>) -> (r: Result<
        (T, Matrix<T>),
        HmmError,
    >)
        requires
            self.wf(),
            x.wf(),
            lengths_ok(lengths, x.rows.len() as int),
            !lengths_mismatch(lengths, x.rows.len() as int) ==> self.0.emission.observable(x),
        ensures
            match r {
                Ok((log_prob, posteriors)) => {
                    &&& posteriors.has_dims(
                        x.rows.len() as int,
                        self.0.inference.states(),
                    )
                    &&& is_score(&self.0, x, lengths, log_prob, posteriors@)
                },
                Err(e) => score_error(&self.0, x, lengths, e),
            },
    {
        let r = self.score_impl(x, lengths, true);
        proof {
            if let Ok((log_prob, posteriors)) = &r {
                score_covers_every_row(&self.0, x, lengths, *log_prob, posteriors@);
            }
        }
        r
    }

    /// Log-likelihood of `x` under the model.
    pub fn score(&self, x: &Matrix<T>, lengths: Option<&[usize]>) -> (r: Result<T, HmmError>)
        requires
            self.wf(),
            x.wf(),
            lengths_ok(lengths, x.rows.len() as int),
            !lengths_mismatch(lengths, x.rows.len() as int) ==> self.0.emission.observable(x),
        ensures
            match r {
                Ok(log_prob) => is_log_likelihood(&self.0, x, lengths, log_prob),
                Err(e) => score_error(&self.0, x, lengths, e),
            },
    {
        match self.score_impl(x, lengths, false) {
            Ok((log_prob, _)) => Ok(log_prob),
            Err(e) => Err(e),
        }
    }

    /// Scoring, with the posteriors collected or left out.
    fn score_impl(&self, x: &Matrix<T>, lengths: Option<&[usize]>, compute_posteriors: bool) -> (r:
        Result<(T, Matrix<T>), HmmError>)
        requires
            self.wf(),
            x.wf(),
            lengths_ok(lengths, x.rows.len() as int),
            !lengths_mismatch(lengths, x.rows.len() as int) ==> self.0.emission.observable(x),
        ensures
            match r {
                Ok((log_prob, posteriors)) => {
                    &&& posteriors.has_dims(
                        posteriors.rows.len() as int,
                        self.0.inference.states(),
                    )
                    &&& compute_posteriors ==> is_score(
                        &self.0,
                        x,
                        lengths,
                        log_prob,
                        posteriors@,
                    )
                    &&& !compute_posteriors ==> posteriors.rows.len() == 0 && is_log_likelihood(
                        &self.0,
                        x,
                        lengths,
                        log_prob,
                    )
                },
                Err(e) => score_error(&self.0, x, lengths, e),
            },
    {
        let h = &self.0;
        let start = h.inference.start_prob();
        let trans = h.inference.trans_mat();
        let nc: usize = self.n_components();
        let ranges = match split(x, lengths) {
            Ok(v) => v,
            Err(e) => {
                return Err(e);
            },
        };
        let mut log_prob: T = zero();
        let mut rows: Vec<Vec<T>> = Vec::new();
        let ghost mut tr: Scoring<T> = Scoring {
            subs: Seq::empty(),
            fbs: Seq::empty(),
            logs: seq![log_prob],
        };
        let mut k: usize = 0;
        while k < ranges.len()
            invariant
                k <= ranges.len(),
                *h == self.0,
                self.wf(),
                nc == h.inference.states(),
                x.wf(),
                h.emission.observable(x),
                ranges_ok(ranges@, x.rows.len() as int),
                is_split(lengths, x.rows.len() as int, ranges@),
                !lengths_mismatch(lengths, x.rows.len() as int),
                start@ == h.inference.start_view(),
                start.len() == nc,
                trans@ == h.inference.trans_view(),
                scored_upto(h, x, ranges@, trans, tr, k as int),
                tr.logs.last() == log_prob,
                forall|i: int| 0 <= i < rows.len() ==> (#[trigger] rows@[i])@.len() == nc,
                compute_posteriors ==> row_views(rows@) == stacked(tr.fbs, k as int),
                !compute_posteriors ==> rows.len() == 0,
            decreases ranges.len() - k,
        {
            let (begin, end) = ranges[k];
            assert(ranges@[k as int].0 < ranges@[k as int].1 <= x.rows.len());
            let sub = x.slice_rows(begin, end);
            proof {
                assert(is_slice(x, begin as int, end as int, &sub));
                h.emission.slices_observable(x, begin as int, end as int, &sub);
            }
            match h.forward_backward(start, trans, &sub, FbMode::Score) {
                Err(e) => {
                    proof {
                        let t = *trans;
                        assert(is_slice(
                            x,
                            ranges@[k as int].0 as int,
                            ranges@[k as int].1 as int,
                            &sub,
                        ));
                        assert(pass_underflows(
                            &h.emission,
                            h.implementation,
                            FbMode::Score,
                            h.inference.start_view(),
                            &t,
                            &sub,
                        ));
                        assert(score_underflows(h, x, lengths));
                    }
                    return Err(e);
                },
                Ok(fb) => {
                    let ghost before = tr;
                    let ghost seen = rows@;
                    log_prob = log_prob.plus(fb.log_prob);
                    let ghost after = Scoring {
                        subs: before.subs.push(sub),
                        fbs: before.fbs.push(fb),
                        logs: before.logs.push(log_prob),
                    };
                    proof {
                        assert forall|i: int| 0 <= i < k + 1 implies #[trigger] scored_at(
                            h,
                            x,
                            ranges@,
                            trans,
                            after,
                            i,
                        ) by {
                            if i < k {
                                assert(scored_at(h, x, ranges@, trans, before, i));
                            }
                        }
                        stacked_prefix(before.fbs, after.fbs, k as int);
                        tr = after;
                    }
                    let ghost posts = fb.posteriors@;
                    if compute_posteriors {
                        let mut block = fb.posteriors.rows;
                        let ghost added = block@;
                        proof {
                            assert forall|i: int| 0 <= i < added.len() implies (
                            #[trigger] added[i])@.len() == nc by {
                                assert(fb.posteriors.rows[i].len() == nc);
                            }
                            assert(row_views(added) =~= posts);
                        }
                        rows.append(&mut block);
                        proof {
                            assert(rows@ == seen + added);
                            assert forall|i: int| 0 <= i < rows.len() implies (
                            #[trigger] rows@[i])@.len() == nc by {
                                if i < seen.len() {
                                    assert(rows@[i] == seen[i]);
                                } else {
                                    assert(rows@[i] == added[i - seen.len()]);
                                }
                            }
                            assert(row_views(rows@) =~= row_views(seen) + row_views(added));
                        }
                    }
                },
            }
            k += 1;
        }
        let posteriors = Matrix { rows, ncols: nc };
        proof {
            assert(posteriors@ =~= row_views(rows@));
            assert(is_score(
                h,
                x,
                lengths,
                log_prob,
                stacked(tr.fbs, ranges@.len() as int),
            ));
        }
        Ok((log_prob, posteriors))
    }

    /// Most likely state sequence for `x`, by the given algorithm or the model's
    /// own, and its log-probability. Viterbi decodes each sequence independently;
    /// the posterior algorithm takes the per-sample first maximum.
    pub fn decode(
        &self,
        x: &Matrix<T>,
        lengths: Option<&[usize]>,
        algorithm: Option<DecoderAlgorithm>,
    ) -> (r: Result<(T, Vec<usize>), HmmError>)
        requires
            self.wf(),
            x.wf(),
            lengths_ok(lengths, x.rows.len() as int),
            !lengths_mismatch(lengths, x.rows.len() as int) ==> self.0.emission.observable(x),
        ensures
            ({
                let a = match algorithm {
                    Some(a) => a,
                    None => self.0.algorithm,
                };
                match r {
                    Ok((log_prob, states)) => is_decoding(
                        &self.0,
                        x,
                        lengths,
                        a,
                        log_prob,
                        states@,
                    ),
                    Err(e) => match a {
                        DecoderAlgorithm::Viterbi => lengths_mismatch(
                            lengths,
                            x.rows.len() as int,
                        ) && score_error(&self.0, x, lengths, e),
                        DecoderAlgorithm::Posterior => score_error(&self.0, x, lengths, e),
                    },
                }
            }),
    {
        let a = match algorithm {
            Some(a) => a,
            None => self.0.algorithm,
        };
        match a {
            DecoderAlgorithm::Viterbi => self.decode_viterbi(x, lengths),
            DecoderAlgorithm::Posterior => self.decode_posterior(x, lengths),
        }
    }

    fn decode_viterbi(&self, x: &Matrix<T>, lengths: Option<&[usize]>) -> (r: Result<
        (T, Vec<usize>),
        HmmError,
    >)
        requires
            self.wf(),
            x.wf(),
            lengths_ok(lengths, x.rows.len() as int),
            !lengths_mismatch(lengths, x.rows.len() as int) ==> self.0.emission.observable(x),
        ensures
            match r {
                Ok((log_prob, states)) => is_viterbi_decoding(
                    &self.0,
                    x,
                    lengths,
                    log_prob,
                    states@,
                ),
                Err(e) => lengths_mismatch(lengths, x.rows.len() as int) && score_error(
                    &self.0,
                    x,
                    lengths,
                    e,
                ),
            },
    {
        let h = &self.0;
        let start = h.inference.start_prob();
        let trans = h.inference.trans_mat();
        let ranges = match split(x, lengths) {
            Ok(v) => v,
            Err(e) => {
                return Err(e);
            },
        };
        let mut log_prob: T = zero();
        let mut states: Vec<usize> = Vec::new();
        let ghost mut tr: Decoding<T> = Decoding {
            subs: Seq::empty(),
            frames: Seq::empty(),
            paths: Seq::empty(),
            logs: seq![log_prob],
        };
        let mut k: usize = 0;
        while k < ranges.len()
            invariant
                k <= ranges.len(),
                *h == self.0,
                self.wf(),
                x.wf(),
                h.emission.observable(x),
                ranges_ok(ranges@, x.rows.len() as int),
                start@ == h.inference.start_view(),
                start.len() == h.inference.states(),
                trans@ == h.inference.trans_view(),
                decoded_upto(h, x, ranges@, trans, tr, k as int),
                tr.logs.last() == log_prob,
                states@ == joined_paths(tr.paths, k as int),
            decreases ranges.len() - k,
        {
            let (begin, end) = ranges[k];
            assert(ranges@[k as int].0 < ranges@[k as int].1 <= x.rows.len());
            let sub = x.slice_rows(begin, end);
            proof {
                assert(is_slice(x, begin as int, end as int, &sub));
                h.emission.slices_observable(x, begin as int, end as int, &sub);
            }
            let frames = h.emission.log_likelihood(&sub);
            let (lp, mut path) = viterbi(start, trans, &frames);
            let ghost before = tr;
            let ghost decoded = path@;
            log_prob = log_prob.plus(lp);
            states.append(&mut path);
            proof {
                let after = Decoding {
                    subs: before.subs.push(sub),
                    frames: before.frames.push(frames),
                    paths: before.paths.push(decoded),
                    logs: before.logs.push(log_prob),
                };
                assert forall|i: int| 0 <= i < k + 1 implies #[trigger] decoded_at(
                    h,
                    x,
                    ranges@,
                    trans,
                    after,
                    i,
                ) by {
                    if i < k {
                        assert(decoded_at(h, x, ranges@, trans, before, i));
                    }
                }
                paths_prefix(before.paths, after.paths, k as int);
                tr = after;
            }
            k += 1;
        }
        Ok((log_prob, states))
    }

    fn decode_posterior(&self, x: &Matrix<T>, lengths: Option<&[usize]>) -> (r: Result<
        (T, Vec<usize>),
        HmmError,
    >)
        requires
            self.wf(),
            x.wf(),
            lengths_ok(lengths, x.rows.len() as int),
            !lengths_mismatch(lengths, x.rows.len() as int) ==> self.0.emission.observable(x),
        ensures
            match r {
                Ok((log_prob, states)) => is_posterior_decoding(
                    &self.0,
                    x,
                    lengths,
                    log_prob,
                    states@,
                ),
                Err(e) => score_error(&self.0, x, lengths, e),
            },
    {
        let h = &self.0;
        let ghost nc = h.inference.states();
        let start = h.inference.start_prob();
        let trans = h.inference.trans_mat();
        let ranges = match split(x, lengths) {
            Ok(v) => v,
            Err(e) => {
                return Err(e);
            },
        };
        let mut log_prob: T = zero();
        let mut states: Vec<usize> = Vec::new();
        let ghost mut scored: Scoring<T> = Scoring {
            subs: Seq::empty(),
            fbs: Seq::empty(),
            logs: seq![num::<T>(0)],
        };
        let ghost mut tr: Decoding<T> = Decoding {
            subs: Seq::empty(),
            frames: Seq::empty(),
            paths: Seq::empty(),
            logs: seq![log_prob],
        };
        let mut k: usize = 0;
        while k < ranges.len()
            invariant
                k <= ranges.len(),
                *h == self.0,
                self.wf(),
                nc == h.inference.states(),
                x.wf(),
                h.emission.observable(x),
                ranges_ok(ranges@, x.rows.len() as int),
                is_split(lengths, x.rows.len() as int, ranges@),
                !lengths_mismatch(lengths, x.rows.len() as int),
                start@ == h.inference.start_view(),
                start.len() == nc,
                trans@ == h.inference.trans_view(),
                scored_upto(h, x, ranges@, trans, scored, k as int),
                chosen_upto(h, trans, scored, tr, k as int),
                tr.logs.last() == log_prob,
                states@ == joined_paths(tr.paths, k as int),
            decreases ranges.len() - k,
        {
            let (begin, end) = ranges[k];
            assert(ranges@[k as int].0 < ranges@[k as int].1 <= x.rows.len());
            let sub = x.slice_rows(begin, end);
            proof {
                assert(is_slice(x, begin as int, end as int, &sub));
                h.emission.slices_observable(x, begin as int, end as int, &sub);
            }
            let fb = match h.forward_backward(start, trans, &sub, FbMode::Score) {
                Ok(fb) => fb,
                Err(e) => {
                    proof {
                        let t = *trans;
                        assert(is_slice(
                            x,
                            ranges@[k as int].0 as int,
                            ranges@[k as int].1 as int,
                            &sub,
                        ));
                        assert(pass_underflows(
                            &h.emission,
                            h.implementation,
                            FbMode::Score,
                            h.inference.start_view(),
                            &t,
                            &sub,
                        ));
                        assert(score_underflows(h, x, lengths));
                    }
                    return Err(e);
                },
            };
            let frames = h.emission.log_likelihood(&sub);
            let mut path = best_states(&fb.posteriors);
            let ghost before = tr;
            let ghost chosen = path@;
            log_prob = log_prob.plus(score_of_path(start, trans, &frames, &path));
            states.append(&mut path);
            proof {
                let more = Scoring {
                    subs: scored.subs.push(sub),
                    fbs: scored.fbs.push(fb),
                    logs: scored.logs.push(scored.logs.last().s_plus(fb.log_prob)),
                };
                let after = Decoding {
                    subs: before.subs.push(sub),
                    frames: before.frames.push(frames),
                    paths: before.paths.push(chosen),
                    logs: before.logs.push(log_prob),
                };
                assert forall|i: int| 0 <= i < k + 1 implies #[trigger] scored_at(
                    h,
                    x,
                    ranges@,
                    trans,
                    more,
                    i,
                ) by {
                    if i < k {
                        assert(scored_at(h, x, ranges@, trans, scored, i));
                    }
                }
                assert forall|i: int| 0 <= i < k + 1 implies #[trigger] chosen_at(
                    h,
                    trans,
                    more,
                    after,
                    i,
                ) by {
                    if i < k {
                        assert(chosen_at(h, trans, scored, before, i));
                    }
                }
                paths_prefix(before.paths, after.paths, k as int);
                scored = more;
                tr = after;
            }
            k += 1;
        }
        Ok((log_prob, states))
    }

    /// State sequence for `x` by the model's own algorithm.
    pub fn predict(&self, x: &Matrix<T>, lengths: Option<&[usize]>) -> (r: Result<
        Vec<usize>,
        HmmError,
    >)
        requires
            self.wf(),
            x.wf(),
            lengths_ok(lengths, x.rows.len() as int),
            !lengths_mismatch(lengths, x.rows.len() as int) ==> self.0.emission.observable(x),
        ensures
            match r {
                Ok(states) => is_prediction(&self.0, x, lengths, states@),
                Err(e) => score_error(&self.0, x, lengths, e),
            },
    {
        match self.decode(x, lengths, None) {
            Ok((log_prob, states)) => Ok(states),
            Err(e) => Err(e),
        }
    }

    /// Per-sample state posteriors for `x`.
    pub fn predict_proba(&self, x: &Matrix<T>, lengths: Option<&[usize]>) -> (r: Result<
        Matrix<T>,
        HmmError,
    >)
        requires
            self.wf(),
            x.wf(),
            lengths_ok(lengths, x.rows.len() as int),
            !lengths_mismatch(lengths, x.rows.len() as int) ==> self.0.emission.observable(x),
        ensures
            match r {
                Ok(posteriors) => is_posterior(&self.0, x, lengths, posteriors@) && posteriors.has_dims(
                    x.rows.len() as int,
                    self.0.inference.states(),
                ),
                Err(e) => score_error(&self.0, x, lengths, e),
            },
    {
        match self.score_samples(x, lengths) {
            Ok((_, posteriors)) => Ok(posteriors),
            Err(e) => Err(e),
        }
    }

    /// Generate `n_samples` observations and their hidden states. The first state
    /// is drawn from the start distribution unless `currstate` pins it; each next
    /// one follows the transition probabilities. `None` if a draw gives up.
    pub fn sample(&self, n_samples: usize, random_state: Option<u32>, currstate: Option<usize>) -> (r:
        Option<(Matrix<T>, Vec<usize>)>)
        requires
            self.wf(),
            self.0.emission.samplable(),
            n_samples >= 1,
            currstate matches Some(c) ==> c < self.0.inference.states(),
        ensures
            ({
                let c = sampled_chain(&self.0, random_state, currstate, n_samples as int);
                match r {
                    Some((x, states)) => !c.failed && x@ == c.rows && x.has_dims(
                        n_samples as int,
                        self.0.emission.columns(),
                    ) && states@.map_values(|s: usize| s as int) == c.states && states.len()
                        == n_samples,
                    None => c.failed,
                }
            }),
    {
        let h = &self.0;
        let nc: usize = self.n_components();
        let seed: u32 = match random_state {
            Some(s) => s,
            None => match h.random_state {
                Some(s) => s,
                None => 0,
            },
        };
        let mut rng: NumpyRandomState<T> = NumpyRandomState::new(seed);
        let ghost s0 = rng@;
        let trans = h.inference.trans_mat();
        let mut state: usize = match currstate {
            Some(c) => c,
            None => {
                let u = rng.random_sample();
                first_gt(&cumsum(h.inference.start_prob()), u)
            },
        };
        let ghost first = state as int;
        let ghost rng0 = rng@;
        let mut states: Vec<usize> = Vec::new();
        let mut rows: Vec<Vec<T>> = Vec::new();
        let mut ncols: usize = 0;
        let mut t: usize = 0;
        while t < n_samples
            invariant
                t <= n_samples,
                *h == self.0,
                self.wf(),
                nc == h.inference.states(),
                h.emission.samplable(),
                rng.wf(),
                state < nc,
                trans@ == h.inference.trans_view(),
                trans.has_dims(nc as int, nc as int),
                t == 0 ==> state == first,
                t > 0 ==> states@.last() == state,
                t > 0 ==> ncols == h.emission.columns(),
                states.len() == t,
                rows.len() == t,
                forall|i: int|
                    0 <= i < t ==> (#[trigger] rows@[i])@.len() == h.emission.columns(),
                ({
                    let c = chain(h, first, rng0, t as int);
                    &&& !c.failed
                    &&& c.rng == rng@
                    &&& c.states == states@.map_values(|s: usize| s as int)
                    &&& c.rows == row_views(rows@)
                }),
                sampled_chain(h, random_state, currstate, n_samples as int) == chain(
                    h,
                    first,
                    rng0,
                    n_samples as int,
                ),
            decreases n_samples - t,
        {
            let ghost c = chain(h, first, rng0, t as int);
            if t > 0 {
                let u = rng.random_sample();
                assert(c.states.last() == state);
                assert(trans@[state as int] == trans.rows@[state as int]@);
                assert(trans.rows[state as int].len() == nc);
                state = first_gt(&cumsum(&trans.rows[state]), u);
            }
            match h.emission.sample_state(state, &mut rng) {
                None => {
                    proof {
                        chain_stays_failed(h, first, rng0, t as int + 1, n_samples as int);
                    }
                    return None;
                },
                Some(row) => {
                    let ghost seen_states = states@;
                    let ghost seen_rows = rows@;
                    ncols = row.len();
                    states.push(state);
                    rows.push(row);
                    proof {
                        assert(states@.map_values(|s: usize| s as int) =~= seen_states.map_values(
                            |s: usize| s as int,
                        ).push(state as int));
                        assert(row_views(rows@) =~= row_views(seen_rows).push(row@));
                    }
                },
            }
            t += 1;
        }
        let x = Matrix { rows, ncols };
        proof {
            assert(x@ =~= row_views(rows@));
        }
        Some((x, states))
    }

    /// Akaike information criterion: `-2 logL + 2 k`, `k` the number of free
    /// scalar parameters.
    pub fn aic(&self, x: &Matrix<T>, lengths: Option<&[usize]>) -> (r: Result<T, HmmError>)
        requires
            self.wf(),
            x.wf(),
            lengths_ok(lengths, x.rows.len() as int),
            !lengths_mismatch(lengths, x.rows.len() as int) ==> self.0.emission.observable(x),
        ensures
            match r {
                Ok(a) => is_aic(&self.0, x, lengths, a),
                Err(e) => score_error(&self.0, x, lengths, e),
            },
    {
        proof {
            self.0.emission.fits_featured();
        }
        let k: usize = self.0.total_fit_scalars();
        assert(is_total_scalars(&self.0, k));
        match self.score(x, lengths) {
            Ok(s) => Ok(T::of_int(-2).times(s).plus(T::of_int(2).times(count(k)))),
            Err(e) => Err(e),
        }
    }

    /// Bayesian information criterion: `-2 logL + k ln(n_samples)`, `k` the number
    /// of free scalar parameters.
    pub fn bic(&self, x: &Matrix<T>, lengths: Option<&[usize]>) -> (r: Result<T, HmmError>)
        requires
            self.wf(),
            x.wf(),
            lengths_ok(lengths, x.rows.len() as int),
            !lengths_mismatch(lengths, x.rows.len() as int) ==> self.0.emission.observable(x),
        ensures
            match r {
                Ok(b) => is_bic(&self.0, x, lengths, b),
                Err(e) => score_error(&self.0, x, lengths, e),
            },
    {
        proof {
            self.0.emission.fits_featured();
        }
        let k: usize = self.0.total_fit_scalars();
        assert(is_total_scalars(&self.0, k));
        match self.score(x, lengths) {
            Ok(s) => Ok(
                T::of_int(-2).times(s).plus(count::<T>(k).times(count::<T>(x.rows.len()).ln())),
            ),
            Err(e) => Err(e),
        }
    }

    /// Stationary distribution of the transition matrix; `None` where the system
    /// is singular.
    pub fn stationary_distribution(&self) -> (r: Option<Vec<T>>)
        requires
            self.wf(),
        ensures
            ({
                let p = self.0.inference.trans_view();
                let solution = T::s_solve(
                    stationary_system(p),
                    stationary_target(self.0.inference.states() as nat),
                );
                match r {
                    Some(v) => solution == Some(v@),
                    None => solution is None,
                }
            }),
    {
        stationary_distribution(self.trans_mat())
    }
}

/// The rows as sequences.
pub open spec fn row_views<T>(rows: Seq<Vec<T>>) -> Seq<Seq<T>> {
    Seq::new(rows.len(), |i: int| rows[i]@)
}

proof fn stacked_prefix<T>(a: Seq<ForwardBackward<T>>, b: Seq<ForwardBackward<T>>, k: int)
    requires
        forall|i: int| 0 <= i < k ==> #[trigger] a[i] == b[i],
    ensures
        stacked(a, k) == stacked(b, k),
    decreases k,
{
    if k > 0 {
        stacked_prefix(a, b, k - 1);
    }
}

/// The first maximum of every row of `post`.
fn best_states<T: Scalar>(post: &Matrix<T>) -> (r: Vec<usize>)
    requires
        post.wf(),
        post.ncols >= 1,
    ensures
        r.len() == post.rows.len(),
        forall|t: int|
            0 <= t < r.len() ==> #[trigger] r@[t] == first_best(post@[t], post.ncols as int) && r@[t]
                < post.ncols,
{
    let mut r: Vec<usize> = Vec::new();
    let mut t: usize = 0;
    while t < post.rows.len()
        invariant
            t <= post.rows.len(),
            post.wf(),
            post.ncols >= 1,
            r.len() == t,
            forall|k: int|
                0 <= k < t ==> #[trigger] r@[k] == first_best(post@[k], post.ncols as int) && r@[k]
                    < post.ncols,
        decreases post.rows.len() - t,
    {
        let (idx, max) = argmax_row(&post.rows[t]);
        assert(post@[t as int] == post.rows@[t as int]@);
        assert(post.rows[t as int].len() == post.ncols);
        r.push(idx);
        t += 1;
    }
    r
}

/// The log-probability of following `path` over all the frames.
fn score_of_path<T: Scalar>(
    start: &Vec<T>,
    trans: &Matrix<T>,
    frames: &Matrix<T>,
    path: &Vec<usize>,
) -> (r: T)
    requires
        frames.has_dims(path.len() as int, start.len() as int),
        trans.has_dims(start.len() as int, start.len() as int),
        path.len() >= 1,
        forall|t: int| 0 <= t < path.len() ==> #[trigger] path@[t] < start.len(),
    ensures
        r == path_score(start@, trans, frames, as_path(path@), path.len() - 1),
{
    assert(path@[0] < start.len());
    let mut r = start[path[0]].ln().plus(frames.get(0, path[0]));
    let mut t: usize = 1;
    while t < path.len()
        invariant
            1 <= t <= path.len(),
            frames.has_dims(path.len() as int, start.len() as int),
            trans.has_dims(start.len() as int, start.len() as int),
            forall|t: int| 0 <= t < path.len() ==> #[trigger] path@[t] < start.len(),
            r == path_score(start@, trans, frames, as_path(path@), t - 1),
        decreases path.len() - t,
    {
        assert(path@[t - 1] < start.len() && path@[t as int] < start.len());
        r = r.plus(trans.get(path[t - 1], path[t]).ln()).plus(frames.get(t, path[t]));
        t += 1;
    }
    r
}

proof fn paths_prefix(a: Seq<Seq<usize>>, b: Seq<Seq<usize>>, k: int)
    requires
        forall|i: int| 0 <= i < k ==> #[trigger] a[i] == b[i],
    ensures
        joined_paths(a, k) == joined_paths(b, k),
    decreases k,
{
    if k > 0 {
        paths_prefix(a, b, k - 1);
    }
}

} // verus!
