//! Pieces that several emission models are built from.

use crate::engine::emission::EmissionModel;
use crate::engine::hmm::Hmm;
use crate::engine::inference::{normalized_rows, rows_of_copy, seed_or_zero, seeded_state, Em};
use crate::engine::params::{DecoderAlgorithm, Implementation, Param, ParamSet};
use crate::linalg::Dense;
use crate::matrix::Matrix;
use crate::rng::state::{fresh_state, NumpyRandomState, RngView};
use crate::rng::uniform::sample_of;
use crate::scalar::{num, sigma, sum_of, Scalar};
use crate::error::HmmError;
use crate::text::{decimal, digits, joined};
use crate::util::normalize_axis;
use vstd::prelude::*;
use vstd::string::StringExecFns;

verus! {

/// `em` holds the given priors and the presets, zeros where there are none.
pub open spec fn em_built<T: Scalar>(
    em: &Em<T>,
    n_components: usize,
    start_prior: T,
    trans_prior: T,
    start_prob: Option<Vec<T>>,
    trans_mat: Option<Matrix<T>>,
) -> bool {
    &&& em.n_components == n_components
    &&& em.start_prior == start_prior
    &&& em.trans_prior == trans_prior
    &&& em.start_preset == start_prob is Some
    &&& em.trans_preset == trans_mat is Some
    &&& match start_prob {
        Some(s) => em.start_prob == s,
        None => em.start_prob@ == Seq::new(n_components as nat, |i: int| num::<T>(0)),
    }
    &&& match trans_mat {
        Some(m) => em.trans_mat == m,
        None => em.trans_mat.has_dims(n_components as int, n_components as int) && forall|
            i: int,
            j: int,
        |
            0 <= i < n_components && 0 <= j < n_components ==> #[trigger] em.trans_mat.at(i, j)
                == num::<T>(0),
    }
}

/// `h` has the given settings, initialises the groups of `init`, and has an empty
/// history and nothing to say.
pub open spec fn has_settings<T: Dense, E: EmissionModel<T>>(
    h: &Hmm<T, E>,
    algorithm: DecoderAlgorithm,
    implementation: Implementation,
    params: ParamSet,
    init: Set<Param>,
    n_iter: usize,
    tol: T,
    verbose: bool,
    random_state: Option<u32>,
) -> bool {
    &&& h.algorithm == algorithm
    &&& h.implementation == implementation
    &&& h.params == params
    &&& h.init_params.members() == init
    &&& h.n_iter == n_iter
    &&& h.random_state == random_state
    &&& h.monitor.tol == tol
    &&& h.monitor.n_iter == n_iter
    &&& h.monitor.verbose == verbose
    &&& h.monitor.history@ == Seq::<T>::empty()
    &&& h.monitor.iter == 0
    &&& h.notes@ == Seq::<String>::empty()
}

/// `m` holds, row by row, the uniform numbers that a fresh state draws.
pub open spec fn is_random_matrix<T: Scalar>(m: &Matrix<T>, seed: Option<u32>, n: int, k: int) -> bool {
    m.has_dims(n, k) && forall|i: int, j: int|
        0 <= i < n && 0 <= j < k ==> #[trigger] m.at(i, j) == sample_of::<T>(
            fresh_state::<T>(seed_or_zero(seed)).sampled_n(i * k + j).mt,
        )
}

proof fn sampled_in_steps<T: Scalar>(s: RngView<T>, a: int, b: int)
    requires
        0 <= a,
        0 <= b,
    ensures
        s.sampled_n(a).sampled_n(b) == s.sampled_n(a + b),
    decreases b,
{
    if b > 0 {
        sampled_in_steps(s, a, b - 1);
    }
}

/// An `n` by `k` matrix of uniform numbers, drawn row by row from a fresh state.
pub fn random_matrix<T: Scalar>(seed: Option<u32>, n: usize, k: usize) -> (m: Matrix<T>)
    ensures
        is_random_matrix(&m, seed, n as int, k as int),
{
    let mut rng: NumpyRandomState<T> = seeded_state(seed);
    let ghost start = rng@;
    let mut rows: Vec<Vec<T>> = Vec::new();
    let mut i: usize = 0;
    proof {
        assert(0 * (k as int) == 0) by (nonlinear_arith);
    }
    while i < n
        invariant
            i <= n,
            rng.wf(),
            rng@ == start.sampled_n(i * k),
            rows.len() == i,
            forall|p: int| 0 <= p < i ==> (#[trigger] rows@[p])@.len() == k,
            forall|p: int, q: int|
                0 <= p < i && 0 <= q < k ==> #[trigger] rows@[p]@[q] == sample_of::<T>(
                    start.sampled_n(p * k + q).mt,
                ),
        decreases n - i,
    {
        let row = rng.random_sample_n(k);
        proof {
            assert(0 <= i * k) by (nonlinear_arith);
            assert((i + 1) * k == i * k + k) by (nonlinear_arith);
            sampled_in_steps(start, i * k, k as int);
            assert forall|q: int| 0 <= q < k implies #[trigger] row@[q] == sample_of::<T>(
                start.sampled_n(i * k + q).mt,
            ) by {
                sampled_in_steps(start, i * k, q);
            }
        }
        rows.push(row);
        i += 1;
    }
    Matrix { rows, ncols: k }
}

/// `after` is `before` plus `post^T x`: entry `(c, f)` grows by the sum over the
/// rows of `post[t, c] * x[t, f]`.
pub open spec fn gains_products<T: Scalar>(
    before: &Matrix<T>,
    post: &Matrix<T>,
    x: &Matrix<T>,
    after: &Matrix<T>,
) -> bool {
    after.has_dims(before.rows.len() as int, before.ncols as int) && forall|c: int, f: int|
        0 <= c < before.rows.len() && 0 <= f < before.ncols ==> #[trigger] after.at(c, f)
            == before.at(c, f).s_plus(
            sigma(x.rows.len() as int, |t: int| post.at(t, c).s_times(x.at(t, f))),
        )
}

/// The sum over the rows of `post[t, c] * x[t, f]`.
pub fn column_product<T: Scalar>(post: &Matrix<T>, x: &Matrix<T>, c: usize, f: usize) -> (r: T)
    requires
        x.wf(),
        post.has_dims(x.rows.len() as int, post.ncols as int),
        c < post.ncols,
        f < x.ncols,
    ensures
        r == sigma(
            x.rows.len() as int,
            |t: int| post.at(t, c as int).s_times(x.at(t, f as int)),
        ),
{
    let g = |t: usize| -> (v: T)
        requires
            t < x.rows.len(),
            x.wf(),
            post.has_dims(x.rows.len() as int, post.ncols as int),
            c < post.ncols,
            f < x.ncols,
        ensures
            v == post.at(t as int, c as int).s_times(x.at(t as int, f as int)),
    {
        post.get(t, c).times(x.get(t, f))
    };
    sum_of(
        x.rows.len(),
        g,
        Ghost(|t: int| post.at(t, c as int).s_times(x.at(t, f as int))),
    )
}

/// `before + post^T x`.
pub fn add_products<T: Scalar>(before: &Matrix<T>, post: &Matrix<T>, x: &Matrix<T>) -> (after:
    Matrix<T>)
    requires
        x.wf(),
        post.has_dims(x.rows.len() as int, post.ncols as int),
        before.has_dims(post.ncols as int, x.ncols as int),
    ensures
        gains_products(before, post, x, &after),
{
    let g = |c: usize, f: usize| -> (v: T)
        requires
            x.wf(),
            post.has_dims(x.rows.len() as int, post.ncols as int),
            before.has_dims(post.ncols as int, x.ncols as int),
            c < post.ncols,
            f < x.ncols,
        ensures
            v == before.at(c as int, f as int).s_plus(
                sigma(
                    x.rows.len() as int,
                    |t: int| post.at(t, c as int).s_times(x.at(t, f as int)),
                ),
            ),
    {
        before.get(c, f).plus(column_product(post, x, c, f))
    };
    Matrix::tabulate(before.rows.len(), before.ncols, g)
}

/// A copy of `a` with every row divided by its sum (by 1 where that is zero).
pub fn row_normalized<T: Scalar>(a: &Matrix<T>) -> (r: Matrix<T>)
    requires
        a.wf(),
    ensures
        normalized_rows(a, &r),
{
    let mut r = a.duplicate();
    let ghost copy = r;
    normalize_axis(&mut r, 1);
    proof {
        rows_of_copy(a, &copy, &r);
    }
    r
}

/// The error for an observation matrix with the wrong number of columns.
pub open spec fn columns_message(got: nat, expected: nat) -> Seq<char> {
    "Unexpected number of dimensions, got "@ + digits(got) + " but expected "@ + digits(expected)
}

/// The number of features after `x` was looked at, or the error where another
/// number was expected.
pub fn confirm_features<T>(known: Option<usize>, x: &Matrix<T>) -> (r: Result<usize, HmmError>)
    ensures
        match r {
            Ok(nf) => nf == x.ncols && (known matches Some(k) ==> k == nf),
            Err(e) => known matches Some(k) && k != x.ncols && (e matches HmmError::DimensionMismatch(
                m,
            ) && m@ == columns_message(x.ncols as nat, k as nat)),
        },
{
    let nf: usize = x.ncols;
    match known {
        Some(k) => {
            if k != nf {
                let mut m = joined("Unexpected number of dimensions, got ", decimal(nf).as_str());
                m.append(" but expected ");
                m.append(decimal(k).as_str());
                return Err(HmmError::DimensionMismatch(m));
            }
        },
        None => {},
    }
    Ok(nf)
}

/// The exponentials of the entries.
pub fn exp_matrix<T: Scalar>(a: &Matrix<T>) -> (r: Matrix<T>)
    requires
        a.wf(),
    ensures
        r.has_dims(a.rows.len() as int, a.ncols as int),
        forall|i: int, j: int|
            0 <= i < a.rows.len() && 0 <= j < a.ncols ==> #[trigger] r.at(i, j) == a.at(i, j).s_exp(),
{
    let f = |i: usize, j: usize| -> (x: T)
        requires
            a.wf(),
            i < a.rows.len(),
            j < a.ncols,
        ensures
            x == a.at(i as int, j as int).s_exp(),
    {
        a.get(i, j).exp()
    };
    Matrix::tabulate(a.rows.len(), a.ncols, f)
}

} // verus!
