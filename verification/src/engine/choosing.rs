//! What decoding by posteriors chooses.

use crate::engine::algorithms::first_best;
use crate::engine::emission::EmissionModel;
use crate::engine::fitted::{chosen_at, Decoding, Scoring};
use crate::engine::hmm::Hmm;
use crate::engine::inference::Inference;
use crate::linalg::Dense;
use crate::matrix::Matrix;
use crate::reading::reads_real;
use crate::scalar::Scalar;
use crate::special::max_upto;
use vstd::prelude::*;

verus! {

/// `k` is the first of the largest among the first `n` entries.
pub open spec fn first_of_largest<T: Scalar>(
    rd: spec_fn(T) -> real,
    s: Seq<T>,
    n: int,
    k: int,
) -> bool {
    &&& 0 <= k < n
    &&& forall|j: int| 0 <= j < n ==> rd(#[trigger] s[j]) <= rd(s[k])
    &&& forall|j: int| 0 <= j < k ==> rd(#[trigger] s[j]) < rd(s[k])
}

/// The index of the best entry is the first of the largest.
pub proof fn best_is_first_of_largest<T: Scalar>(rd: spec_fn(T) -> real, s: Seq<T>, n: int)
    requires
        reads_real(rd),
        1 <= n <= s.len(),
        forall|j: int| 0 <= j < n ==> rd(T::s_neg_inf()) < rd(#[trigger] s[j]),
    ensures
        first_of_largest(rd, s, n, first_best(s, n)),
        rd(max_upto(s, n)) == rd(s[first_best(s, n)]),
    decreases n,
{
    reveal(reads_real);
    assert(rd(T::s_neg_inf()) < rd(s[n - 1]));
    if n == 1 {
        assert(max_upto(s, 0) == T::s_neg_inf());
    } else {
        best_is_first_of_largest(rd, s, n - 1);
    }
}

/// In every row, decoding by posteriors chooses a state that no other state is more
/// probable than, the first of them.
pub proof fn posterior_decoding_chooses_most_probable<T: Dense, E: EmissionModel<T>>(
    rd: spec_fn(T) -> real,
    h: &Hmm<T, E>,
    trans: &Matrix<T>,
    scored: Scoring<T>,
    tr: Decoding<T>,
    i: int,
    t: int,
)
    requires
        reads_real(rd),
        chosen_at(h, trans, scored, tr, i),
        0 <= t < scored.subs[i].rows.len(),
        1 <= h.inference.states() <= scored.fbs[i].posteriors@[t].len(),
        forall|j: int|
            0 <= j < h.inference.states() ==> rd(T::s_neg_inf()) < rd(
                #[trigger] scored.fbs[i].posteriors@[t][j],
            ),
    ensures
        first_of_largest(
            rd,
            scored.fbs[i].posteriors@[t],
            h.inference.states(),
            tr.paths[i][t] as int,
        ),
{
    best_is_first_of_largest(rd, scored.fbs[i].posteriors@[t], h.inference.states());
}

} // verus!
