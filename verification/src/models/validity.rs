//! What valid probabilities are, where arithmetic is exact.

use crate::engine::emission::EmissionModel;
use crate::engine::inference::{off_one, Em, Inference};
use crate::linalg::Dense;
use crate::matrix::{row_total, Matrix};
use crate::models::categorical::CategoricalEm;
use crate::models::gmm::GmmEm;
use crate::reading::{power_of_ten, real_lanes, real_sums, reads_real};
use crate::reals::{rsum, rsum_ext};
use crate::scalar::{dec, num, total, Scalar};
use vstd::prelude::*;

verus! {

/// The first `n` values of `p` sum to 1 within `1e-5`.
pub open spec fn sums_to_one(p: spec_fn(int) -> real, n: int) -> bool {
    &&& 100000real * (rsum(n, p) - 1real) <= 1real
    &&& 100000real * (1real - rsum(n, p)) <= 1real
}

/// Row `i` of `a` sums to 1 within `1e-5`.
pub open spec fn row_sums_to_one<T>(rd: spec_fn(T) -> real, a: &Matrix<T>, i: int) -> bool {
    sums_to_one(|j: int| rd(a.at(i, j)), a.ncols as int)
}

proof fn off_one_reads<T: Scalar>(rd: spec_fn(T) -> real, s: T)
    requires
        reads_real(rd),
    ensures
        !off_one(s) <==> 100000real * (rd(s) - 1real) <= 1real && 100000real * (1real - rd(s))
            <= 1real,
{
    reveal_with_fuel(power_of_ten, 6);
    assert(power_of_ten(5) == 100000real);
    reveal(reads_real);
    assert(rd(dec::<T>(1, -5)) * power_of_ten(5) == 1real);
    assert(rd(num::<T>(0)) == 0real);
    assert(rd(num::<T>(1)) == 1real);
    assert(rd(num::<T>(-1)) == -1real);
}

proof fn row_reads<T: Scalar>(rd: spec_fn(T) -> real, a: &Matrix<T>, i: int)
    requires
        reads_real(rd),
    ensures
        rd(row_total(a, i)) == rsum(a.ncols as int, |j: int| rd(a.at(i, j))),
{
    let n = a.ncols as int;
    let f = |j: int| a.at(i, j);
    real_sums(rd);
    real_lanes(rd, n, f);
    rsum_ext(n, |j: int| rd(f(j)), |j: int| rd(a.at(i, j)));
}

/// The start and transition probabilities are valid where both are set, there is one for
/// every state and pair of states, and those of the start and of every row sum to 1
/// within `1e-5`.
pub proof fn valid_chain<T: Dense>(rd: spec_fn(T) -> real, em: &Em<T>)
    requires
        reads_real(rd),
    ensures
        em.valid() <==> {
            let n = em.n_components;
            &&& em.start_preset && em.trans_preset
            &&& em.start_prob.len() == n
            &&& em.trans_mat.rows.len() == n && em.trans_mat.ncols == n
            &&& sums_to_one(|j: int| rd(em.start_prob@[j]), n as int)
            &&& forall|i: int|
                0 <= i < n ==> #[trigger] row_sums_to_one(rd, &em.trans_mat, i)
        },
{
    let n = em.start_prob.len() as int;
    let s = em.start_prob@;
    let f = |j: int| s[j];
    real_sums(rd);
    real_lanes(rd, n, f);
    rsum_ext(n, |j: int| rd(f(j)), |j: int| rd(em.start_prob@[j]));
    off_one_reads(rd, total(s));
    rows_read(rd, &em.trans_mat);
}

/// Rows of which none is off 1 are rows that all sum to 1.
proof fn rows_read<T: Scalar>(rd: spec_fn(T) -> real, a: &Matrix<T>)
    requires
        reads_real(rd),
    ensures
        forall|i: int|
            0 <= i < a.rows.len() ==> (!off_one(#[trigger] row_total(a, i)) <==> row_sums_to_one(
                rd,
                a,
                i,
            )),
        (forall|i: int| 0 <= i < a.rows.len() ==> !off_one(#[trigger] row_total(a, i))) <==> (
        forall|i: int|
            0 <= i < a.rows.len() ==> #[trigger] row_sums_to_one(rd, a, i)),
{
    assert forall|i: int| 0 <= i < a.rows.len() implies (!off_one(#[trigger] row_total(a, i))
        <==> row_sums_to_one(rd, a, i)) by {
        row_reads(rd, a, i);
        off_one_reads(rd, row_total(a, i));
    }
    if forall|i: int|
        0 <= i < a.rows.len() ==> #[trigger] row_sums_to_one(rd, a, i) {
        assert forall|i: int| 0 <= i < a.rows.len() implies !off_one(#[trigger] row_total(a, i)) by {
            assert(row_sums_to_one(rd, a, i));
        }
    }
    if forall|i: int| 0 <= i < a.rows.len() ==> !off_one(#[trigger] row_total(a, i)) {
        assert forall|i: int| 0 <= i < a.rows.len() implies #[trigger] row_sums_to_one(rd, a, i) by {
            assert(!off_one(row_total(a, i)));
        }
    }
}

/// The symbol probabilities of a categorical model are valid where there is one for every
/// state and symbol and those of every state sum to 1 within `1e-5`.
pub proof fn valid_symbols<T: Dense>(rd: spec_fn(T) -> real, e: &CategoricalEm<T>, nc: int)
    requires
        reads_real(rd),
    ensures
        e.valid(nc) <==> {
            &&& e.emissionprob matches Some(p)
            &&& p.rows.len() == nc
            &&& p.ncols == e.symbols()
            &&& forall|c: int|
                0 <= c < nc ==> #[trigger] row_sums_to_one(rd, &p, c)
        },
{
    if e.emissionprob is Some {
        rows_read(rd, &e.emissionprob->0);
    }
}

/// The weights of a valid mixture model sum to 1 within `1e-5` in every state.
pub proof fn valid_weights<T: Dense>(rd: spec_fn(T) -> real, e: &GmmEm<T>, nc: int)
    requires
        reads_real(rd),
    ensures
        e.valid(nc) <==> {
            &&& e.n_features is Some
            &&& e.means matches Some(m) && m.has_dims(nc, e.n_mix as int, e.width())
            &&& e.covars matches Some(s) && s.fits(nc, e.n_mix as int, e.width())
            &&& e.weights matches Some(w)
            &&& w.rows.len() == nc
            &&& w.ncols == e.n_mix
            &&& forall|i: int|
                0 <= i < nc ==> #[trigger] row_sums_to_one(rd, &w, i)
        },
{
    if e.weights is Some {
        rows_read(rd, &e.weights->0);
    }
}

} // verus!
