//! Counts weighed by posteriors, read as expected totals.

use crate::engine::agreement::{chain_in, exact_logs, likelihood};
use crate::engine::counts::{visits, weighed};
use crate::engine::emission::is_slice;
use crate::engine::hmm::ForwardBackward;
use crate::engine::params::Implementation;
use crate::engine::raising::{
    frames_match, posterior_reads, read_product, read_sigma, reads, trellis_of,
};
use crate::engine::scaled::exact_quotients;
use crate::engine::tables::shares;
use crate::exact::{exact_numbers, multiplied, sum_in};
use crate::matrix::{col_total, Matrix};
use crate::reals::rsum_ext;
use crate::scalar::{num, sigma, Scalar};
use vstd::prelude::*;

verus! {

/// The entries of `x`, read.
pub open spec fn counts_in<T: Scalar>(
    val: spec_fn(T) -> real,
    x: &Matrix<T>,
) -> spec_fn(int, int) -> real {
    |t: int, f: int| val(x.at(t, f))
}

/// The entries of each sequence, read.
pub open spec fn counts_of<T: Scalar>(
    val: spec_fn(T) -> real,
    subs: Seq<Matrix<T>>,
) -> spec_fn(int) -> spec_fn(int, int) -> real {
    |s: int| counts_in(val, &subs[s])
}

/// The entries of `x` are numbers of `p`.
pub open spec fn counts_among<T: Scalar>(p: Set<T>, x: &Matrix<T>) -> bool {
    forall|t: int, f: int|
        0 <= t < x.rows.len() && 0 <= f < x.ncols ==> p.contains(#[trigger] x.at(t, f))
}

/// The entries of a slice are entries of the whole.
pub proof fn slice_among<T: Scalar>(
    p: Set<T>,
    x: &Matrix<T>,
    begin: int,
    end: int,
    sub: &Matrix<T>,
)
    requires
        counts_among(p, x),
        is_slice(x, begin, end, sub),
    ensures
        counts_among(p, sub),
        sub.ncols == x.ncols,
{
    assert forall|t: int, f: int| 0 <= t < sub.rows.len() && 0 <= f < sub.ncols implies p.contains(
        #[trigger] sub.at(t, f),
    ) by {
        assert(sub@[t] == x@[begin + t]);
        assert(sub.at(t, f) == x.at(begin + t, f));
    }
}

/// Posteriors times counts, and posteriors alone, summed over a sequence and read,
/// are the expected total and the expected number of frames.
pub(crate) proof fn weighed_reads<T: Scalar>(
    p: Set<T>,
    l: Set<T>,
    val: spec_fn(T) -> real,
    implementation: Implementation,
    start: Seq<T>,
    trans: &Matrix<T>,
    frames: &Matrix<T>,
    fb: &ForwardBackward<T>,
    x: &Matrix<T>,
    j: int,
    f: int,
)
    requires
        exact_numbers(p),
        exact_quotients(p),
        exact_logs(p, l),
        reads(p, val),
        chain_in(p, start, trans, frames),
        trans.has_dims(frames.ncols as int, frames.ncols as int),
        frames_match(implementation, l, &fb.frameprob, frames),
        likelihood(start, trans, frames) != num::<T>(0),
        fb.has_dims(frames.rows.len() as int, frames.ncols as int),
        fb.is_pass(implementation, start, trans),
        x.rows.len() == frames.rows.len(),
        counts_among(p, x),
        0 <= j < frames.ncols,
        0 <= f < x.ncols,
    ensures
        p.contains(sigma(x.rows.len() as int, |t: int| fb.posteriors.at(t, j).s_times(x.at(t, f)))),
        val(
            sigma(x.rows.len() as int, |t: int| fb.posteriors.at(t, j).s_times(x.at(t, f))),
        ) == weighed(trellis_of(val, start, trans, frames), counts_in(val, x), j, f),
        p.contains(col_total(&fb.posteriors, j)),
        val(col_total(&fb.posteriors, j)) == visits(trellis_of(val, start, trans, frames), j),
{
    let c = trellis_of(val, start, trans, frames);
    let n = frames.rows.len() as int;
    let w = shares(c, j);
    let counts = counts_in(val, x);
    let products = |t: int| fb.posteriors.at(t, j).s_times(x.at(t, f));
    let alone = |t: int| fb.posteriors.at(t, j);
    let terms = |t: int| shares(c, j)(t) * counts(t, f);
    assert forall|t: int| 0 <= t < n implies p.contains(#[trigger] products(t)) && val(products(t))
        == terms(t) by {
        posterior_reads(p, l, val, implementation, start, trans, frames, fb, t, j);
        assert(p.contains(x.at(t, f)));
        multiplied(p, fb.posteriors.at(t, j), x.at(t, f));
        read_product(p, val, fb.posteriors.at(t, j), x.at(t, f));
    }
    assert forall|t: int| 0 <= t < n implies p.contains(#[trigger] alone(t)) && val(alone(t)) == w(
        t,
    ) by {
        posterior_reads(p, l, val, implementation, start, trans, frames, fb, t, j);
    }
    read_sigma(p, val, n, products, terms);
    read_sigma(p, val, n, alone, w);
    sum_in(p, n, products);
    sum_in(p, n, alone);
    rsum_ext(n, terms, |t: int| shares(c, j)(t) * counts(t, f));
}

} // verus!
