//! Categorical (discrete-symbol) model.
//!
//! Observations are non-negative integer symbols in a single column; the number
//! of features is the number of distinct symbols.

use crate::counting::clamped_product;
use crate::engine::emission::EmissionModel;
use crate::engine::algorithms::ln_matrix;
use crate::engine::fit::{fit_ready, fit_result, taken_as_fitted};
use crate::engine::fitted::{cumsum, first_above, first_gt, running_sums, Fitted};
use crate::engine::hmm::Hmm;
use crate::engine::inference::{
    check_row_sums, normalized_rows, off_one, row_sum_message, rows_sum_to_one, Em, Inference,
};
use crate::engine::monitor::ConvergenceMonitor;
use crate::engine::params::{less, DecoderAlgorithm, Implementation, Param, ParamSet};
use crate::error::HmmError;
use crate::linalg::Dense;
use crate::matrix::{row_total, Matrix};
use crate::models::shared::{em_built, has_settings, is_random_matrix, random_matrix};
use crate::rng::state::{NumpyRandomState, RngView};
use crate::rng::uniform::sample_of;
use crate::scalar::{count, dec, larger, larger_of, num, one, zero, Scalar};
use crate::text::{decimal, digits, joined};
use crate::util::normalize_axis;
use vstd::prelude::*;
use vstd::string::StringExecFns;

verus! {

/// The symbol that an entry stands for: its whole part, 0 where it is negative.
pub open spec fn symbol_of<T: Scalar>(v: T) -> int {
    if v.s_to_int() < 0 {
        0
    } else {
        v.s_to_int() as int
    }
}

/// The symbol that an entry stands for.
pub fn symbol<T: Scalar>(v: T) -> (s: usize)
    requires
        symbol_of(v) < usize::MAX,
    ensures
        s == symbol_of(v),
{
    let k: i64 = v.to_int();
    if k < 0 {
        0
    } else {
        k as usize
    }
}

/// Emission statistics: per-state, per-symbol posterior mass.
pub struct CategoricalStats<T> {
    /// Accumulated posterior mass, `(n_components, n_features)`.
    pub obs: Matrix<T>,
}

/// Categorical emission model.
#[derive(Clone)]
pub struct CategoricalEm<T> {
    /// Number of hidden states.
    pub n_components: usize,
    /// Number of distinct symbols; `None` until inferred from data or set.
    pub n_features: Option<usize>,
    /// Emission matrix, `(n_components, n_features)`; `None` until initialised.
    pub emissionprob: Option<Matrix<T>>,
    /// Whether `emissionprob` is set and must not be drawn again.
    pub emissionprob_preset: bool,
    /// Dirichlet concentration prior on each state's symbol distribution.
    pub emissionprob_prior: T,
}

/// Every entry is a whole number that is not negative.
pub open spec fn whole_entries<T: Scalar>(x: &Matrix<T>) -> bool {
    forall|t: int, j: int|
        0 <= t < x.rows.len() && 0 <= j < x.ncols ==> is_whole(#[trigger] x.at(t, j))
}

/// A whole number that is not negative.
pub open spec fn is_whole<T: Scalar>(v: T) -> bool {
    v.s_fract().s_same(num(0)) && !v.s_below(num(0))
}

/// No symbol is above `m`.
pub open spec fn symbols_at_most<T: Scalar>(x: &Matrix<T>, m: int) -> bool {
    forall|t: int, j: int|
        0 <= t < x.rows.len() && 0 <= j < x.ncols ==> symbol_of(#[trigger] x.at(t, j)) <= m
}

/// `m` is the largest symbol, 0 where there are none.
pub open spec fn is_max_symbol<T: Scalar>(x: &Matrix<T>, m: int) -> bool {
    &&& m >= 0
    &&& symbols_at_most(x, m)
    &&& m == 0 || exists|t: int, j: int|
        0 <= t < x.rows.len() && 0 <= j < x.ncols && symbol_of(#[trigger] x.at(t, j)) == m
}

/// Every symbol fits a machine integer.
pub open spec fn symbols_fit<T: Scalar>(x: &Matrix<T>) -> bool {
    forall|t: int, j: int|
        0 <= t < x.rows.len() && 0 <= j < x.ncols ==> symbol_of(#[trigger] x.at(t, j)) < usize::MAX
}

/// The error text for entries that are no symbols: the first one, row by row,
/// decides.
pub open spec fn symbols_flaw<T: Scalar>(x: &Matrix<T>, m: Seq<char>) -> bool {
    exists|t: int, j: int|
        0 <= t < x.rows.len() && 0 <= j < x.ncols && !is_whole(#[trigger] x.at(t, j))
            && entries_before_whole(x, t, j) && m == if x.at(t, j).s_fract().s_same(num(0)) {
            "Symbols should be nonnegative"@
        } else {
            "Symbols should be integers"@
        }
}

/// The first entry, row by row, that is no non-negative whole number decides the
/// error.
pub fn check_symbols<T: Scalar>(x: &Matrix<T>) -> (r: Result<(), HmmError>)
    requires
        x.wf(),
    ensures
        r is Ok <==> whole_entries(x),
        r matches Err(e) ==> e matches HmmError::InvalidParameter(m) && symbols_flaw(x, m@),
{
    let mut t: usize = 0;
    while t < x.rows.len()
        invariant
            t <= x.rows.len(),
            x.wf(),
            entries_before_whole(x, t as int, 0),
        decreases x.rows.len() - t,
    {
        let mut j: usize = 0;
        while j < x.ncols
            invariant
                t < x.rows.len(),
                j <= x.ncols,
                x.wf(),
                    entries_before_whole(x, t as int, j as int),
            decreases x.ncols - j,
        {
            let v = x.get(t, j);
            if !v.fract().same(zero()) {
                assert(!is_whole(x.at(t as int, j as int)));
                return Err(HmmError::InvalidParameter("Symbols should be integers".to_owned()));
            }
            if v.below(zero()) {
                assert(!is_whole(x.at(t as int, j as int)));
                return Err(HmmError::InvalidParameter("Symbols should be nonnegative".to_owned()));
            }
            j += 1;
        }
        t += 1;
    }
    Ok(())
}

/// Every entry before `(t, j)`, row by row, is a non-negative whole number.
pub open spec fn entries_before_whole<T: Scalar>(x: &Matrix<T>, t: int, j: int) -> bool {
    forall|p: int, q: int|
        0 <= p < x.rows.len() && 0 <= q < x.ncols && (p < t || (p == t && q < j)) ==> is_whole(
            #[trigger] x.at(p, q),
        )
}

/// The largest symbol, 0 where there are none.
pub fn max_symbol<T: Scalar>(x: &Matrix<T>) -> (m: usize)
    requires
        x.wf(),
        symbols_fit(x),
    ensures
        is_max_symbol(x, m as int),
        m < usize::MAX,
{
    let mut m: usize = 0;
    let mut t: usize = 0;
    while t < x.rows.len()
        invariant
            t <= x.rows.len(),
            x.wf(),
            symbols_fit(x),
            m < usize::MAX,
            forall|p: int, q: int|
                0 <= p < t && 0 <= q < x.ncols ==> symbol_of(#[trigger] x.at(p, q)) <= m,
            m == 0 || exists|p: int, q: int|
                0 <= p < x.rows.len() && 0 <= q < x.ncols && symbol_of(#[trigger] x.at(p, q)) == m,
        decreases x.rows.len() - t,
    {
        let mut j: usize = 0;
        while j < x.ncols
            invariant
                t < x.rows.len(),
                j <= x.ncols,
                x.wf(),
                symbols_fit(x),
                m < usize::MAX,
                forall|p: int, q: int|
                    0 <= p < t && 0 <= q < x.ncols ==> symbol_of(#[trigger] x.at(p, q)) <= m,
                forall|q: int| 0 <= q < j ==> symbol_of(#[trigger] x.at(t as int, q)) <= m,
                m == 0 || exists|p: int, q: int|
                    0 <= p < x.rows.len() && 0 <= q < x.ncols && symbol_of(#[trigger] x.at(p, q))
                        == m,
            decreases x.ncols - j,
        {
            let v = x.get(t, j);
            assert(symbol_of(x.at(t as int, j as int)) < usize::MAX);
            let s: usize = symbol(v);
            if s > m {
                m = s;
                assert(symbol_of(x.at(t as int, j as int)) == m);
            }
            j += 1;
        }
        t += 1;
    }
    m
}

impl<T: Scalar> CategoricalEm<T> {
    /// Stored arrays are rectangular, come with a number of symbols, and there is
    /// at least one symbol.
    pub open spec fn ok(&self) -> bool {
        &&& self.emissionprob matches Some(ep) ==> ep.wf() && self.n_features is Some
        &&& self.n_features matches Some(nf) ==> nf >= 1
    }

    /// The number of symbols, where it is known.
    pub open spec fn symbols(&self) -> int {
        self.n_features->0 as int
    }

    /// A categorical emission model. Without `n_features` the number of symbols is
    /// that of the preset emission matrix, if there is one.
    pub fn new(
        n_components: usize,
        n_features: Option<usize>,
        emissionprob: Option<Matrix<T>>,
        emissionprob_prior: T,
    ) -> (r: Self)
        requires
            emissionprob matches Some(ep) ==> ep.wf() && (n_features is None ==> ep.ncols >= 1),
            n_features matches Some(nf) ==> nf >= 1,
        ensures
            r.ok(),
            r.n_components == n_components,
            r.emissionprob == emissionprob,
            r.emissionprob_preset == emissionprob is Some,
            r.emissionprob_prior == emissionprob_prior,
            r.n_features == match n_features {
                Some(nf) => Some(nf),
                None => match emissionprob {
                    Some(ep) => Some(ep.ncols),
                    None => None,
                },
            },
    {
        let preset = emissionprob.is_some();
        let nf: Option<usize> = match n_features {
            Some(nf) => Some(nf),
            None => match &emissionprob {
                Some(ep) => Some(ep.ncols),
                None => None,
            },
        };
        CategoricalEm {
            n_components,
            n_features: nf,
            emissionprob,
            emissionprob_preset: preset,
            emissionprob_prior,
        }
    }

    /// The emission probabilities, `(n_components, n_features)`.
    pub fn emissionprob(&self) -> (r: &Matrix<T>)
        requires
            self.emissionprob is Some,
        ensures
            Some(*r) == self.emissionprob,
    {
        match &self.emissionprob {
            Some(ep) => ep,
            None => vstd::pervasive::unreached(),
        }
    }

    /// The number of symbols.
    pub fn n_symbols(&self) -> (n: usize)
        requires
            self.n_features is Some,
        ensures
            Some(n) == self.n_features,
    {
        match self.n_features {
            Some(n) => n,
            None => 0,
        }
    }

    /// The probability that state `c` emits the symbol of row `t`.
    pub open spec fn prob_at(&self, x: &Matrix<T>, t: int, c: int) -> T {
        self.emissionprob->0.at(c, symbol_of(x.at(t, 0)))
    }
}

/// Every symbol of the first column is one of the first `n`.
pub open spec fn symbols_below<T: Scalar>(x: &Matrix<T>, n: int) -> bool {
    &&& x.ncols >= 1
    &&& forall|t: int| 0 <= t < x.rows.len() ==> symbol_of(#[trigger] x.at(t, 0)) < n
}

/// The entries of `table`, one row per state, for the symbols of the rows of `x`.
pub fn look_up<T: Scalar>(table: &Matrix<T>, x: &Matrix<T>) -> (r: Matrix<T>)
    requires
        table.wf(),
        x.wf(),
        symbols_below(x, table.ncols as int),
    ensures
        r.has_dims(x.rows.len() as int, table.rows.len() as int),
        forall|t: int, c: int|
            0 <= t < x.rows.len() && 0 <= c < table.rows.len() ==> #[trigger] r.at(t, c)
                == table.at(c, symbol_of(x.at(t, 0))),
{
    let f = |t: usize, c: usize| -> (p: T)
        requires
            table.wf(),
            x.wf(),
            symbols_below(x, table.ncols as int),
            t < x.rows.len(),
            c < table.rows.len(),
        ensures
            p == table.at(c as int, symbol_of(x.at(t as int, 0))),
    {
        let v = x.get(t, 0);
        assert(symbol_of(x.at(t as int, 0)) < table.ncols);
        table.get(c, symbol(v))
    };
    Matrix::tabulate(x.rows.len(), table.rows.len(), f)
}

/// Add the posteriors of every row of `x` to the masses of its symbol.
pub fn add_symbols<T: Scalar>(obs: &mut Matrix<T>, x: &Matrix<T>, posteriors: &Matrix<T>)
    requires
        old(obs).wf(),
        x.wf(),
        symbols_below(x, old(obs).ncols as int),
        posteriors.has_dims(x.rows.len() as int, old(obs).rows.len() as int),
    ensures
        final(obs).has_dims(old(obs).rows.len() as int, old(obs).ncols as int),
        forall|c: int, s: int|
            0 <= c < old(obs).rows.len() && 0 <= s < old(obs).ncols ==> #[trigger] final(obs).at(c, s)
                == symbol_mass(old(obs).at(c, s), x, posteriors, c, s, x.rows.len() as int),
{
    let nc: usize = obs.rows.len();
    let nf: usize = obs.ncols;
    let ghost before = *obs;
    let mut t: usize = 0;
    while t < x.rows.len()
        invariant
            t <= x.rows.len(),
            x.wf(),
            symbols_below(x, nf as int),
            posteriors.has_dims(x.rows.len() as int, nc as int),
            before.has_dims(nc as int, nf as int),
            obs.has_dims(nc as int, nf as int),
            forall|c: int, s: int|
                0 <= c < nc && 0 <= s < nf ==> #[trigger] obs.at(c, s) == symbol_mass(
                    before.at(c, s),
                    x,
                    posteriors,
                    c,
                    s,
                    t as int,
                ),
        decreases x.rows.len() - t,
    {
        let v = x.get(t, 0);
        assert(symbol_of(x.at(t as int, 0)) < nf);
        let sym: usize = symbol(v);
        let ghost seen = *obs;
        let mut c: usize = 0;
        while c < nc
            invariant
                c <= nc,
                t < x.rows.len(),
                sym < nf,
                sym == symbol_of(x.at(t as int, 0)),
                posteriors.has_dims(x.rows.len() as int, nc as int),
                seen.has_dims(nc as int, nf as int),
                obs.has_dims(nc as int, nf as int),
                forall|p: int, s: int|
                    0 <= p < nc && 0 <= s < nf ==> #[trigger] obs.at(p, s) == if p < c && s == sym {
                        seen.at(p, s).s_plus(posteriors.at(t as int, p))
                    } else {
                        seen.at(p, s)
                    },
            decreases nc - c,
        {
            let m = obs.get(c, sym).plus(posteriors.get(t, c));
            obs.put(c, sym, m);
            c += 1;
        }
        proof {
            assert forall|c: int, s: int| 0 <= c < nc && 0 <= s < nf implies #[trigger] obs.at(c, s)
                == symbol_mass(before.at(c, s), x, posteriors, c, s, t as int + 1) by {
                assert(seen.at(c, s) == symbol_mass(before.at(c, s), x, posteriors, c, s, t as int));
            }
        }
        t += 1;
    }
}

/// The posterior mass of symbol `s` in state `c` after the first `n` rows: the
/// posteriors of the rows with that symbol are added up in order.
pub open spec fn symbol_mass<T: Scalar>(
    before: T,
    x: &Matrix<T>,
    post: &Matrix<T>,
    c: int,
    s: int,
    n: int,
) -> T
    decreases n,
{
    if n <= 0 {
        before
    } else if symbol_of(x.at(n - 1, 0)) == s {
        symbol_mass(before, x, post, c, s, n - 1).s_plus(post.at(n - 1, c))
    } else {
        symbol_mass(before, x, post, c, s, n - 1)
    }
}

/// `raw` holds `max(prior - 1 + obs, 0)`.
pub open spec fn prior_counts<T: Scalar>(prior: T, obs: &Matrix<T>, raw: &Matrix<T>) -> bool {
    raw.has_dims(obs.rows.len() as int, obs.ncols as int) && forall|i: int, j: int|
        0 <= i < obs.rows.len() && 0 <= j < obs.ncols ==> #[trigger] raw.at(i, j) == larger_of(
            prior.s_minus(num(1)).s_plus(obs.at(i, j)),
            num(0),
        )
}

impl<T: Dense> EmissionModel<T> for CategoricalEm<T> {
    type Inference = Em<T>;

    type Stats = CategoricalStats<T>;

    open spec fn wf(&self) -> bool {
        self.ok()
    }

    open spec fn states(&self) -> int {
        self.n_components as int
    }

    open spec fn featured(&self) -> bool {
        self.n_features is Some
    }

    open spec fn features(&self) -> int {
        self.symbols()
    }

    open spec fn columns(&self) -> int {
        1
    }

    open spec fn fits(&self) -> bool {
        &&& self.n_features is Some
        &&& self.emissionprob matches Some(ep)
        &&& ep.has_dims(self.n_components as int, self.symbols())
    }

    open spec fn valid(&self, nc: int) -> bool {
        &&& self.emissionprob matches Some(ep)
        &&& ep.dims() == (nc, self.symbols())
        &&& rows_sum_to_one(&ep)
    }

    open spec fn readable(&self, x: &Matrix<T>) -> bool {
        symbols_fit(x)
    }

    open spec fn initable(&self, x: &Matrix<T>, init: Set<Param>) -> bool {
        true
    }

    open spec fn scannable(&self, x: &Matrix<T>) -> bool {
        x.ncols >= 1
    }

    open spec fn matched(&self, x: &Matrix<T>) -> bool {
        true
    }

    open spec fn refused_rel(&self, x: &Matrix<T>, after: &Self) -> bool {
        *after == *self
    }

    open spec fn accepts(&self, x: &Matrix<T>) -> bool {
        whole_entries(x) && (self.n_features matches Some(nf) ==> symbols_at_most(x, nf - 1))
    }

    open spec fn refusal(&self, x: &Matrix<T>, e: HmmError) -> bool {
        e matches HmmError::InvalidParameter(m) && if whole_entries(x) {
            exists|k: int|
                is_max_symbol(x, k) && self.symbols() <= k && m@ == #[trigger]
                largest_symbol_message(k, self.symbols())
        } else {
            symbols_flaw(x, m@)
        }
    }

    open spec fn flaw(&self, nc: int, e: HmmError) -> bool {
        match self.emissionprob {
            None => e == HmmError::NotFitted,
            Some(ep) => if ep.dims() != (nc, self.symbols()) {
                e matches HmmError::DimensionMismatch(m) && m@ == "emissionprob_ must have shape ("@
                    + digits(nc as nat) + ", "@ + digits(self.symbols() as nat) + ")"@
            } else {
                e matches HmmError::InvalidParameter(m) && exists|i: int|
                    0 <= i < ep.rows.len() && off_one(#[trigger] row_total(&ep, i)) && (forall|
                        k: int,
                    |
                        0 <= k < i ==> !off_one(#[trigger] row_total(&ep, k))) && m@
                        == row_sum_message("emissionprob_ row "@, i as nat, row_total(&ep, i))
            },
        }
    }

    open spec fn init_flaw(&self, e: HmmError) -> bool {
        false
    }

    open spec fn mstep_flaw(&self, e: HmmError) -> bool {
        false
    }

    open spec fn observable(&self, x: &Matrix<T>) -> bool {
        symbols_below(x, self.symbols())
    }

    open spec fn owned_params() -> Seq<Param> {
        seq![Param::Emit]
    }

    open spec fn scalars(&self, nc: int, params: ParamSet) -> int {
        if params.members().contains(Param::Emit) {
            nc * (self.symbols() - 1)
        } else {
            0
        }
    }

    open spec fn set_rel(&self, x: &Matrix<T>, after: &Self) -> bool {
        &&& after.n_components == self.n_components
        &&& after.emissionprob == self.emissionprob
        &&& after.emissionprob_preset == self.emissionprob_preset
        &&& after.emissionprob_prior == self.emissionprob_prior
        &&& after.n_features is Some
        &&& match self.n_features {
            Some(nf) => after.n_features == Some(nf),
            None => is_max_symbol(x, after.symbols() - 1),
        }
    }

    open spec fn init_ok(&self, x: &Matrix<T>, init: ParamSet, seed: Option<u32>) -> bool {
        true
    }

    open spec fn init_rel(
        &self,
        x: &Matrix<T>,
        init: ParamSet,
        seed: Option<u32>,
        after: &Self,
    ) -> bool {
        &&& after.n_components == self.n_components
        &&& after.n_features == self.n_features
        &&& after.emissionprob_preset
        &&& after.emissionprob_prior == self.emissionprob_prior
        &&& if init.members().contains(Param::Emit) || !self.emissionprob_preset {
            &&& after.emissionprob matches Some(ep)
            &&& exists|raw: Matrix<T>| #[trigger]
                is_random_matrix(&raw, seed, self.n_components as int, self.symbols())
                    && normalized_rows(&raw, &ep)
        } else {
            after.emissionprob == self.emissionprob
        }
    }

    open spec fn log_like(&self, x: &Matrix<T>, t: int, c: int) -> T {
        self.prob_at(x, t, c).s_ln()
    }

    open spec fn like(&self, x: &Matrix<T>, t: int, c: int) -> T {
        self.prob_at(x, t, c)
    }

    open spec fn fit_log_like(&self, x: &Matrix<T>, t: int, c: int) -> T {
        self.prob_at(x, t, c).s_ln()
    }

    open spec fn fit_like(&self, x: &Matrix<T>, t: int, c: int) -> T {
        self.prob_at(x, t, c)
    }

    open spec fn stats_fit(&self, stats: &CategoricalStats<T>) -> bool {
        stats.obs.has_dims(self.n_components as int, self.symbols())
    }

    open spec fn zero_stats(&self, stats: &CategoricalStats<T>) -> bool {
        self.stats_fit(stats) && forall|c: int, s: int|
            0 <= c < self.n_components && 0 <= s < self.symbols() ==> #[trigger] stats.obs.at(c, s)
                == num::<T>(0)
    }

    open spec fn accumulate_rel(
        &self,
        before: &CategoricalStats<T>,
        x: &Matrix<T>,
        post: &Matrix<T>,
        params: ParamSet,
        after: &CategoricalStats<T>,
    ) -> bool {
        if params.members().contains(Param::Emit) {
            self.stats_fit(after) && forall|c: int, s: int|
                0 <= c < self.n_components && 0 <= s < self.symbols() ==> #[trigger] after.obs.at(
                    c,
                    s,
                ) == symbol_mass(before.obs.at(c, s), x, post, c, s, x.rows.len() as int)
        } else {
            *after == *before
        }
    }

    open spec fn mstep_ok(&self, stats: &CategoricalStats<T>, params: ParamSet) -> bool {
        true
    }

    open spec fn mstep_rel(
        &self,
        stats: &CategoricalStats<T>,
        params: ParamSet,
        after: &Self,
    ) -> bool {
        &&& after.n_components == self.n_components
        &&& after.n_features == self.n_features
        &&& after.emissionprob_preset == self.emissionprob_preset
        &&& after.emissionprob_prior == self.emissionprob_prior
        &&& if params.members().contains(Param::Emit) {
            &&& after.emissionprob matches Some(ep)
            &&& exists|raw: Matrix<T>| #[trigger]
                prior_counts(self.emissionprob_prior, &stats.obs, &raw) && normalized_rows(
                    &raw,
                    &ep,
                )
        } else {
            after.emissionprob == self.emissionprob
        }
    }

    open spec fn samplable(&self) -> bool {
        true
    }

    open spec fn draw(&self, state: int, s: RngView<T>) -> (RngView<T>, Option<Seq<T>>) {
        let cdf = running_sums(self.emissionprob->0.row_view(state));
        (s.sampled(), Some(seq![num::<T>(first_above(cdf, sample_of::<T>(s.mt), 0))]))
    }

    open spec fn contribution(&self) -> Option<T> {
        Some(num(0))
    }

    open spec fn begin_rel(&self, after: &Self) -> bool {
        *after == *self
    }

    proof fn slices_observable(&self, x: &Matrix<T>, begin: int, end: int, sub: &Matrix<T>) {
        assert forall|t: int| 0 <= t < sub.rows.len() implies symbol_of(#[trigger] sub.at(t, 0))
            < self.symbols() by {
            assert(sub@[t] == x@[begin + t]);
            assert(sub.at(t, 0) == x.at(begin + t, 0));
        }
    }

    proof fn likelihoods_of_row(&self, x: &Matrix<T>, t: int, y: &Matrix<T>, u: int, c: int) {
        assert(x.at(t, 0) == y.at(u, 0));
    }

    proof fn fits_featured(&self) {
    }

    fn emission_params() -> (r: Vec<Param>) {
        let mut v: Vec<Param> = Vec::new();
        v.push(Param::Emit);
        proof {
            assert(v@ =~= seq![Param::Emit]);
        }
        v
    }

    fn n_features(&self) -> (n: usize) {
        self.n_symbols()
    }

    fn check_and_set_n_features(&mut self, x: &Matrix<T>) -> (r: Result<(), HmmError>) {
        match check_symbols(x) {
            Ok(_) => {},
            Err(e) => {
                return Err(e);
            },
        }
        let k: usize = max_symbol(x);
        match self.n_features {
            Some(nf) => {
                if nf <= k {
                    let mut m = joined("Largest symbol is ", decimal(k).as_str());
                    m.append(" but the model only emits symbols up to ");
                    m.append(decimal(nf - 1).as_str());
                    proof {
                        assert(old(self).symbols() == nf);
                        assert(is_max_symbol(x, k as int));
                        assert(m@ =~= largest_symbol_message(k as int, old(self).symbols()));
                        if symbols_at_most(x, nf - 1) {
                            assert(k == 0);
                        }
                    }
                    return Err(HmmError::InvalidParameter(m));
                }
            },
            None => {
                self.n_features = Some(k + 1);
            },
        }
        Ok(())
    }

    fn init(&mut self, x: &Matrix<T>, init: ParamSet, seed: Option<u32>) -> (r: Result<
        (),
        HmmError,
    >) {
        if init.contains(Param::Emit) || !self.emissionprob_preset {
            let nc: usize = self.n_components;
            let nf: usize = self.n_symbols();
            let mut ep = random_matrix(seed, nc, nf);
            let ghost raw = ep;
            normalize_axis(&mut ep, 1);
            proof {
                assert(is_random_matrix(&raw, seed, old(self).n_components as int, old(self).symbols()));
                assert(normalized_rows(&raw, &ep));
            }
            self.emissionprob = Some(ep);
        }
        self.emissionprob_preset = true;
        Ok(())
    }

    fn check(&self, n_components: usize) -> (r: Result<(), HmmError>) {
        match &self.emissionprob {
            None => Err(HmmError::NotFitted),
            Some(ep) => {
                let nf: usize = self.n_symbols();
                if ep.rows.len() != n_components || ep.ncols != nf {
                    let mut m = joined(
                        "emissionprob_ must have shape (",
                        decimal(n_components).as_str(),
                    );
                    m.append(", ");
                    m.append(decimal(nf).as_str());
                    m.append(")");
                    return Err(HmmError::DimensionMismatch(m));
                }
                check_row_sums(ep, "emissionprob_ row ")
            },
        }
    }

    fn n_fit_scalars(&self, n_components: usize, params: ParamSet) -> (n: usize) {
        let nf: usize = self.n_symbols();
        assert(0 <= n_components * (nf - 1)) by (nonlinear_arith)
            requires
                nf >= 1,
        ;
        if params.contains(Param::Emit) {
            clamped_product(n_components, nf - 1)
        } else {
            0
        }
    }

    fn log_likelihood(&self, x: &Matrix<T>) -> (r: Matrix<T>) {
        ln_matrix(&look_up(self.emissionprob(), x))
    }

    fn likelihood(&self, x: &Matrix<T>) -> (r: Matrix<T>) {
        look_up(self.emissionprob(), x)
    }

    fn fit_log_likelihood(&self, x: &Matrix<T>) -> (r: Matrix<T>) {
        ln_matrix(&look_up(self.emissionprob(), x))
    }

    fn fit_likelihood(&self, x: &Matrix<T>) -> (r: Matrix<T>) {
        look_up(self.emissionprob(), x)
    }

    fn init_stats(&self) -> (r: CategoricalStats<T>) {
        CategoricalStats { obs: Matrix::constant(self.n_components, self.n_symbols(), zero()) }
    }

    fn accumulate(
        &self,
        stats: &mut CategoricalStats<T>,
        x: &Matrix<T>,
        posteriors: &Matrix<T>,
        params: ParamSet,
    ) {
        if !params.contains(Param::Emit) {
            return;
        }
        add_symbols(&mut stats.obs, x, posteriors);
    }

    fn mstep(&mut self, stats: &CategoricalStats<T>, params: ParamSet) -> (r: Result<(), HmmError>) {
        if params.contains(Param::Emit) {
            let prior = self.emissionprob_prior;
            let nc: usize = stats.obs.rows.len();
            let nf: usize = stats.obs.ncols;
            let f = |i: usize, j: usize| -> (v: T)
                requires
                    stats.obs.has_dims(nc as int, nf as int),
                    i < nc,
                    j < nf,
                ensures
                    v == larger_of(
                        prior.s_minus(num(1)).s_plus(stats.obs.at(i as int, j as int)),
                        num(0),
                    ),
            {
                larger(prior.minus(one()).plus(stats.obs.get(i, j)), zero())
            };
            let mut ep = Matrix::tabulate(nc, nf, f);
            let ghost raw = ep;
            normalize_axis(&mut ep, 1);
            proof {
                assert(prior_counts(prior, &stats.obs, &raw));
                assert(normalized_rows(&raw, &ep));
            }
            self.emissionprob = Some(ep);
        }
        Ok(())
    }

    fn sample_state(&self, state: usize, rng: &mut NumpyRandomState<T>) -> (r: Option<Vec<T>>) {
        let ep = self.emissionprob();
        assert(ep.rows[state as int].len() == ep.ncols);
        let cdf = cumsum(&ep.rows[state]);
        let symbol: usize = first_gt(&cdf, rng.random_sample());
        let mut v: Vec<T> = Vec::new();
        v.push(count(symbol));
        proof {
            assert(v@ =~= seq![num::<T>(symbol as int)]);
        }
        Some(v)
    }

    fn lower_bound_contribution(&self) -> (r: Option<T>) {
        Some(zero())
    }

    fn estep_begin(&mut self) {
    }
}

/// The error text for a symbol that the model does not emit.
pub open spec fn largest_symbol_message(k: int, nf: int) -> Seq<char> {
    "Largest symbol is "@ + digits(k as nat) + " but the model only emits symbols up to "@ + digits(
        (nf - 1) as nat,
    )
}

/// Builder for categorical models.
#[derive(Clone)]
pub struct CategoricalHmm<T> {
    /// Number of hidden states.
    pub n_components: usize,
    /// Number of distinct symbols; `None` lets fitting infer it from the data.
    pub n_features: Option<usize>,
    /// Decoding algorithm.
    pub algorithm: DecoderAlgorithm,
    /// Forward-backward implementation.
    pub implementation: Implementation,
    /// Which parameters are updated.
    pub params: ParamSet,
    /// Which parameters are initialised before fitting.
    pub init_params: ParamSet,
    /// Maximum number of iterations.
    pub n_iter: usize,
    /// Convergence threshold on the per-iteration gain.
    pub tol: T,
    /// Whether each iteration is reported.
    pub verbose: bool,
    /// Seed for initialisation and sampling.
    pub random_state: Option<u32>,
    /// Dirichlet concentration prior on the initial-state distribution.
    pub startprob_prior: T,
    /// Dirichlet concentration prior on each transition row.
    pub transmat_prior: T,
    /// Dirichlet concentration prior on each state's symbol distribution.
    pub emissionprob_prior: T,
    /// Optional preset initial-state distribution.
    pub start_prob: Option<Vec<T>>,
    /// Optional preset transition matrix.
    pub trans_mat: Option<Matrix<T>>,
    /// Optional preset emission matrix.
    pub emissionprob: Option<Matrix<T>>,
}

impl<T: Dense> CategoricalHmm<T> {
    /// There is a state and, where the number of symbols is given or preset, a
    /// symbol; preset matrices are rectangular.
    pub open spec fn wf(&self) -> bool {
        &&& self.n_components >= 1
        &&& self.trans_mat matches Some(m) ==> m.wf()
        &&& self.n_features matches Some(nf) ==> nf >= 1
        &&& self.emissionprob matches Some(ep) ==> ep.wf() && (self.n_features is None ==> ep.ncols
            >= 1)
    }

    /// The emission model that the builder describes.
    pub open spec fn emission(&self) -> CategoricalEm<T> {
        CategoricalEm {
            n_components: self.n_components,
            n_features: match self.n_features {
                Some(nf) => Some(nf),
                None => match self.emissionprob {
                    Some(ep) => Some(ep.ncols),
                    None => None,
                },
            },
            emissionprob: self.emissionprob,
            emissionprob_preset: self.emissionprob is Some,
            emissionprob_prior: self.emissionprob_prior,
        }
    }

    /// The groups that are initialised before fitting: those of `init_params` that
    /// nothing is preset for.
    pub open spec fn initialised(&self) -> Set<Param> {
        let s = self.init_params.members();
        let s = less(s, Param::Start, self.start_prob is Some);
        let s = less(s, Param::Trans, self.trans_mat is Some);
        let s = less(s, Param::Emit, self.emissionprob is Some);
        s
    }

    /// `h` is the model that the builder describes.
    pub open spec fn builds(&self, h: &Hmm<T, CategoricalEm<T>>) -> bool {
        &&& em_built(
            &h.inference,
            self.n_components,
            self.startprob_prior,
            self.transmat_prior,
            self.start_prob,
            self.trans_mat,
        )
        &&& h.emission == self.emission()
        &&& has_settings(
            h,
            self.algorithm,
            self.implementation,
            self.params,
            self.initialised(),
            self.n_iter,
            self.tol,
            self.verbose,
            self.random_state,
        )
        &&& h.wf()
    }

    /// A model with `n_components` states and the defaults: Viterbi decoding in
    /// log space, everything initialised and updated, at most 10 iterations with
    /// tolerance `1e-2`, flat priors and nothing preset.
    pub fn new(n_components: usize) -> (r: Self)
        ensures
            r.n_components == n_components,
            r.n_features is None,
            r.algorithm == DecoderAlgorithm::Viterbi,
            r.implementation == Implementation::Log,
            forall|p: Param| r.params.members().contains(p) <==> "ste"@.contains(p.letter()),
            r.init_params == r.params,
            r.n_iter == 10,
            r.tol == dec::<T>(1, -2),
            !r.verbose,
            r.random_state is None,
            r.startprob_prior == num::<T>(1),
            r.transmat_prior == num::<T>(1),
            r.emissionprob_prior == num::<T>(1),
            r.start_prob is None,
            r.trans_mat is None,
            r.emissionprob is None,
    {
        let params = ParamSet::from_codes("ste");
        CategoricalHmm {
            n_components,
            n_features: None,
            algorithm: DecoderAlgorithm::Viterbi,
            implementation: Implementation::Log,
            params,
            init_params: params,
            n_iter: 10,
            tol: T::decimal(1, -2),
            verbose: false,
            random_state: None,
            startprob_prior: one(),
            transmat_prior: one(),
            emissionprob_prior: one(),
            start_prob: None,
            trans_mat: None,
            emissionprob: None,
        }
    }

    /// Sets the number of distinct symbols the model emits.
    pub fn n_features(self, nf: usize) -> (r: Self)
        ensures
            r == (Self { n_features: Some(nf), ..self }),
    {
        let mut s = self;
        s.n_features = Some(nf);
        s
    }

    /// Sets the maximum number of iterations.
    pub fn n_iter(self, n: usize) -> (r: Self)
        ensures
            r == (Self { n_iter: n, ..self }),
    {
        let mut s = self;
        s.n_iter = n;
        s
    }

    /// Sets the convergence threshold on the per-iteration gain.
    pub fn tol(self, tol: T) -> (r: Self)
        ensures
            r == (Self { tol: tol, ..self }),
    {
        let mut s = self;
        s.tol = tol;
        s
    }

    /// Sets the decoding algorithm.
    pub fn algorithm(self, a: DecoderAlgorithm) -> (r: Self)
        ensures
            r == (Self { algorithm: a, ..self }),
    {
        let mut s = self;
        s.algorithm = a;
        s
    }

    /// Sets the forward-backward implementation.
    pub fn implementation(self, i: Implementation) -> (r: Self)
        ensures
            r == (Self { implementation: i, ..self }),
    {
        let mut s = self;
        s.implementation = i;
        s
    }

    /// Sets which parameters are updated, from letter codes (`s`, `t`, `e`).
    pub fn params(self, codes: &str) -> (r: Self)
        ensures
            r == (Self { params: r.params, ..self }),
            r.params.wf(),
            forall|p: Param| r.params.members().contains(p) <==> codes@.contains(p.letter()),
    {
        let mut s = self;
        s.params = ParamSet::from_codes(codes);
        s
    }

    /// Sets which parameters are initialised before fitting, from letter codes (`s`, `t`, `e`).
    pub fn init_params(self, codes: &str) -> (r: Self)
        ensures
            r == (Self { init_params: r.init_params, ..self }),
            r.init_params.wf(),
            forall|p: Param| r.init_params.members().contains(p) <==> codes@.contains(p.letter()),
    {
        let mut s = self;
        s.init_params = ParamSet::from_codes(codes);
        s
    }

    /// Sets the seed for initialisation and sampling.
    pub fn random_state(self, seed: u32) -> (r: Self)
        ensures
            r == (Self { random_state: Some(seed), ..self }),
    {
        let mut s = self;
        s.random_state = Some(seed);
        s
    }

    /// Sets whether each iteration is reported.
    pub fn verbose(self, v: bool) -> (r: Self)
        ensures
            r == (Self { verbose: v, ..self }),
    {
        let mut s = self;
        s.verbose = v;
        s
    }

    /// Sets the Dirichlet prior on the initial-state distribution.
    pub fn startprob_prior(self, p: T) -> (r: Self)
        ensures
            r == (Self { startprob_prior: p, ..self }),
    {
        let mut s = self;
        s.startprob_prior = p;
        s
    }

    /// Sets the Dirichlet prior on each transition row.
    pub fn transmat_prior(self, p: T) -> (r: Self)
        ensures
            r == (Self { transmat_prior: p, ..self }),
    {
        let mut s = self;
        s.transmat_prior = p;
        s
    }

    /// Sets the Dirichlet prior on each state's symbol distribution.
    pub fn emissionprob_prior(self, p: T) -> (r: Self)
        ensures
            r == (Self { emissionprob_prior: p, ..self }),
    {
        let mut s = self;
        s.emissionprob_prior = p;
        s
    }

    /// Presets the initial-state distribution.
    pub fn start_prob(self, sp: Vec<T>) -> (r: Self)
        ensures
            r == (Self { start_prob: Some(sp), ..self }),
    {
        let mut s = self;
        s.start_prob = Some(sp);
        s
    }

    /// Presets the transition matrix.
    pub fn trans_mat(self, tm: Matrix<T>) -> (r: Self)
        ensures
            r == (Self { trans_mat: Some(tm), ..self }),
    {
        let mut s = self;
        s.trans_mat = Some(tm);
        s
    }

    /// Presets the emission probabilities.
    pub fn emissionprob(self, ep: Matrix<T>) -> (r: Self)
        ensures
            r == (Self { emissionprob: Some(ep), ..self }),
    {
        let mut s = self;
        s.emissionprob = Some(ep);
        s
    }

    /// The unfitted model that the builder describes.
    pub fn build(self) -> (h: Hmm<T, CategoricalEm<T>>)
        requires
            self.wf(),
        ensures
            self.builds(&h),
    {
        let init_params = self.init_params
            .without(Param::Start, self.start_prob.is_some())
            .without(Param::Trans, self.trans_mat.is_some())
            .without(Param::Emit, self.emissionprob.is_some());
        let inference = Em::new(
            self.n_components,
            self.startprob_prior,
            self.transmat_prior,
            self.start_prob,
            self.trans_mat,
        );
        let emission = CategoricalEm::new(
            self.n_components,
            self.n_features,
            self.emissionprob,
            self.emissionprob_prior,
        );
        Hmm {
            emission,
            inference,
            algorithm: self.algorithm,
            implementation: self.implementation,
            params: self.params,
            init_params,
            n_iter: self.n_iter,
            random_state: self.random_state,
            monitor: ConvergenceMonitor::new(self.tol, self.n_iter, self.verbose),
            notes: Vec::new(),
        }
    }

    /// Fit the model.
    pub fn fit(self, x: &Matrix<T>, lengths: Option<&[usize]>) -> (r: Result<
        Fitted<T, CategoricalEm<T>>,
        HmmError,
    >)
        requires
            self.wf(),
            x.wf(),
            fit_ready(&self.emission(), self.initialised(), self.n_iter, x, lengths),
        ensures
            exists|h: Hmm<T, CategoricalEm<T>>| #[trigger]
                self.builds(&h) && fit_result(&h, x, lengths, r),
    {
        self.build().fit(x, lengths)
    }

    /// Treat the preset parameters as fitted, after validation.
    pub fn into_fitted(self) -> (r: Result<Fitted<T, CategoricalEm<T>>, HmmError>)
        requires
            self.wf(),
        ensures
            exists|h: Hmm<T, CategoricalEm<T>>| #[trigger] self.builds(&h) && taken_as_fitted(&h, r),
    {
        self.build().into_fitted()
    }
}

} // verus!
