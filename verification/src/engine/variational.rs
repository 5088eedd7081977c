//! Mean-field variational inference for start and transition parameters: they
//! are Dirichlet distributions with a prior and a posterior, and the E-step uses
//! sub-normalised parameters derived from the posterior.

use crate::engine::inference::{
    gave_up, normalized_rows, rows_of_copy, seed_or_zero, seeded_state, uniform_vec,
    uniform_weights, CoreStats, Inference,
};
use crate::engine::params::{Param, ParamSet};
use crate::error::HmmError;
use crate::kl::{dirichlet_divergence, kl_dirichlet};
use crate::linalg::Dense;
use crate::matrix::{copied, filled, row_sum, row_total, tabulate, Matrix};
use crate::rng::gamma::{dirichlet_draw, dirichlet_draws};
use crate::rng::state::{fresh_state, RngView};
use crate::scalar::{count, num, one, sum, total, zero, Scalar};
use crate::special::{digamma, digamma_of};
use crate::util::normalize_axis;
use vstd::prelude::*;

verus! {

/// Variational inference of start and transition parameters.
#[derive(Debug, Clone)]
pub struct Variational<T> {
    /// Number of hidden states.
    pub n_components: usize,
    /// Dirichlet prior concentrations of the start distribution.
    pub startprob_prior: Vec<T>,
    /// Dirichlet posterior concentrations of the start distribution.
    pub startprob_posterior: Vec<T>,
    /// Dirichlet prior concentrations of each transition row.
    pub transmat_prior: Matrix<T>,
    /// Dirichlet posterior concentrations of each transition row.
    pub transmat_posterior: Matrix<T>,
    /// Posterior-mean start distribution.
    pub startprob: Vec<T>,
    /// Posterior-mean transition matrix.
    pub transmat: Matrix<T>,
    /// Sub-normalised start distribution, used in the E-step.
    pub startprob_subnorm: Vec<T>,
    /// Sub-normalised transition matrix, used in the E-step.
    pub transmat_subnorm: Matrix<T>,
    /// Scalar prior of the start distribution; `None` is `1 / n_components`.
    pub startprob_prior_scalar: Option<T>,
    /// Scalar prior of the transition rows; `None` is `1 / n_components`.
    pub transmat_prior_scalar: Option<T>,
    /// Whether the start posterior was given or initialised.
    pub start_preset: bool,
    /// Whether the transition posterior was given or initialised.
    pub trans_preset: bool,
    /// Whether the start prior was given: it is never seeded anew.
    pub start_prior_given: bool,
    /// Whether the transition prior was given: it is never seeded anew.
    pub trans_prior_given: bool,
    /// Whether the start posterior was given and not initialised since: the first
    /// initialisation keeps it.
    pub start_given: bool,
    /// Whether the transition posterior was given and not initialised since: the
    /// first initialisation keeps it.
    pub trans_given: bool,
}

/// Every entry times `factor`.
pub open spec fn times_all<T: Scalar>(s: Seq<T>, factor: T) -> Seq<T> {
    Seq::new(s.len(), |i: int| s[i].s_times(factor))
}

/// Every entry of every row times `factor`.
pub open spec fn times_all_rows<T: Scalar>(s: Seq<Seq<T>>, factor: T) -> Seq<Seq<T>> {
    Seq::new(s.len(), |i: int| times_all(s[i], factor))
}

/// Entry by entry sum.
pub open spec fn added<T: Scalar>(a: Seq<T>, b: Seq<T>) -> Seq<T> {
    Seq::new(a.len(), |i: int| a[i].s_plus(b[i]))
}

/// `exp(digamma(x) - digamma(sum))`.
pub open spec fn subnormal<T: Scalar>(x: T, sum: T) -> T {
    digamma_of(x).s_minus(digamma_of(sum)).s_exp()
}

/// Every entry times `factor`.
pub fn scaled_vec<T: Scalar>(v: &Vec<T>, factor: T) -> (r: Vec<T>)
    ensures
        r@ == times_all(v@, factor),
{
    let f = |i: usize| -> (x: T)
        requires
            i < v.len(),
        ensures
            x == v@[i as int].s_times(factor),
    {
        v[i].times(factor)
    };
    let r = tabulate(v.len(), f);
    proof {
        assert(r@ =~= times_all(v@, factor));
    }
    r
}

/// Every entry of every row times `factor`.
pub fn scaled_rows<T: Scalar>(m: &Matrix<T>, factor: T) -> (r: Matrix<T>)
    requires
        m.wf(),
    ensures
        r.has_dims(m.rows.len() as int, m.ncols as int),
        r@ == times_all_rows(m@, factor),
{
    let mut rows: Vec<Vec<T>> = Vec::new();
    let mut i: usize = 0;
    while i < m.rows.len()
        invariant
            i <= m.rows.len(),
            m.wf(),
            rows.len() == i,
            forall|k: int|
                0 <= k < i ==> (#[trigger] rows@[k])@ == times_all(m.rows@[k]@, factor),
        decreases m.rows.len() - i,
    {
        rows.push(scaled_vec(&m.rows[i], factor));
        i += 1;
    }
    let r = Matrix { rows, ncols: m.ncols };
    proof {
        assert forall|k: int| 0 <= k < r.rows.len() implies (#[trigger] r.rows[k]).len() == m.ncols by {
            assert(m.rows[k].len() == m.ncols);
        }
        assert(r@ =~= times_all_rows(m@, factor));
    }
    r
}

fn sum_vecs<T: Scalar>(a: &Vec<T>, b: &Vec<T>) -> (r: Vec<T>)
    requires
        a.len() == b.len(),
    ensures
        r@ == added(a@, b@),
{
    let f = |i: usize| -> (x: T)
        requires
            i < a.len(),
            a.len() == b.len(),
        ensures
            x == a@[i as int].s_plus(b@[i as int]),
    {
        a[i].plus(b[i])
    };
    let r = tabulate(a.len(), f);
    proof {
        assert(r@ =~= added(a@, b@));
    }
    r
}

impl<T: Scalar> Variational<T> {
    /// The derived arrays have the shapes of the number of states, and every
    /// matrix is rectangular.
    pub open spec fn ok(&self) -> bool {
        let nc = self.n_components as int;
        &&& self.transmat_prior.wf()
        &&& self.transmat_posterior.wf()
        &&& self.startprob.len() == nc
        &&& self.transmat.has_dims(nc, nc)
        &&& self.startprob_subnorm.len() == nc
        &&& self.transmat_subnorm.has_dims(nc, nc)
    }

    /// Priors and posteriors have the shapes of the number of states.
    pub open spec fn dims_ok(&self) -> bool {
        let nc = self.n_components as int;
        &&& self.startprob_prior.len() == nc
        &&& self.startprob_posterior.len() == nc
        &&& self.transmat_prior.dims() == (nc, nc)
        &&& self.transmat_posterior.dims() == (nc, nc)
    }

    /// Everything but the posterior means is that of `other`.
    pub open spec fn same_but_means(&self, other: &Self) -> bool {
        &&& self.n_components == other.n_components
        &&& self.startprob_prior == other.startprob_prior
        &&& self.startprob_posterior == other.startprob_posterior
        &&& self.transmat_prior == other.transmat_prior
        &&& self.transmat_posterior == other.transmat_posterior
        &&& self.startprob_subnorm == other.startprob_subnorm
        &&& self.transmat_subnorm == other.transmat_subnorm
        &&& self.startprob_prior_scalar == other.startprob_prior_scalar
        &&& self.transmat_prior_scalar == other.transmat_prior_scalar
        &&& self.start_preset == other.start_preset
        &&& self.trans_preset == other.trans_preset
        &&& self.same_given(other)
    }

    /// What was given is what was given to `other`.
    pub open spec fn same_given(&self, other: &Self) -> bool {
        &&& self.start_prior_given == other.start_prior_given
        &&& self.trans_prior_given == other.trans_prior_given
        &&& self.start_given == other.start_given
        &&& self.trans_given == other.trans_given
    }

    /// The posterior means are those of the posteriors: the start posterior
    /// divided by its sum (the means `old_start` where the sum is zero), and the
    /// rows of the transition posterior divided by theirs.
    pub open spec fn means_of_posteriors(&self, old_start: Seq<T>) -> bool {
        let nc = self.n_components as int;
        &&& self.startprob_posterior.len() == nc ==> self.startprob@ == if total(
            self.startprob_posterior@,
        ).s_same(num(0)) {
            old_start
        } else {
            Seq::new(
                nc as nat,
                |i: int|
                    self.startprob_posterior@[i].s_over(total(self.startprob_posterior@)),
            )
        }
        &&& self.transmat_posterior.dims() == (nc, nc) ==> normalized_rows(
            &self.transmat_posterior,
            &self.transmat,
        )
    }

    /// A core with the given scalar priors (`None` for `1 / n_components`) and
    /// optional preset priors and posteriors. If a posterior is preset the
    /// posterior means are computed at once.
    pub fn new(
        n_components: usize,
        startprob_prior_scalar: Option<T>,
        transmat_prior_scalar: Option<T>,
        startprob_prior: Option<Vec<T>>,
        startprob_posterior: Option<Vec<T>>,
        transmat_prior: Option<Matrix<T>>,
        transmat_posterior: Option<Matrix<T>>,
    ) -> (r: Self)
        requires
            transmat_prior matches Some(m) ==> m.wf(),
            transmat_posterior matches Some(m) ==> m.wf(),
        ensures
            r.ok(),
            variational_built(
                &r,
                n_components,
                startprob_prior_scalar,
                transmat_prior_scalar,
                startprob_prior,
                startprob_posterior,
                transmat_prior,
                transmat_posterior,
            ),
    {
        let start_preset = startprob_posterior.is_some();
        let trans_preset = transmat_posterior.is_some();
        let start_prior_given = startprob_prior.is_some();
        let trans_prior_given = transmat_prior.is_some();
        let sp_prior = match startprob_prior {
            Some(v) => v,
            None => filled(n_components, zero()),
        };
        let sp_post = match startprob_posterior {
            Some(v) => v,
            None => filled(n_components, zero()),
        };
        let tm_prior = match transmat_prior {
            Some(m) => m,
            None => Matrix::constant(n_components, n_components, zero()),
        };
        let tm_post = match transmat_posterior {
            Some(m) => m,
            None => Matrix::constant(n_components, n_components, zero()),
        };
        let mut v = Variational {
            n_components,
            startprob_prior: sp_prior,
            startprob_posterior: sp_post,
            transmat_prior: tm_prior,
            transmat_posterior: tm_post,
            startprob: filled(n_components, zero()),
            transmat: Matrix::constant(n_components, n_components, zero()),
            startprob_subnorm: filled(n_components, zero()),
            transmat_subnorm: Matrix::constant(n_components, n_components, zero()),
            startprob_prior_scalar,
            transmat_prior_scalar,
            start_preset,
            trans_preset,
            start_prior_given,
            trans_prior_given,
            start_given: start_preset,
            trans_given: trans_preset,
        };
        if start_preset || trans_preset {
            v.update_normalized();
        }
        v
    }

    /// Recompute the posterior means of the posteriors that have the right shape.
    fn update_normalized(&mut self)
        requires
            old(self).ok(),
        ensures
            final(self).ok(),
            final(self).same_but_means(&*old(self)),
            final(self).means_of_posteriors(old(self).startprob@),
    {
        let nc: usize = self.n_components;
        let s = sum(&self.startprob_posterior);
        if self.startprob_posterior.len() == nc && !s.same(zero()) {
            let post = &self.startprob_posterior;
            let f = |i: usize| -> (x: T)
                requires
                    i < post.len(),
                ensures
                    x == post@[i as int].s_over(s),
            {
                post[i].over(s)
            };
            let m = tabulate(nc, f);
            proof {
                assert(m@ =~= Seq::new(
                    nc as nat,
                    |i: int|
                        self.startprob_posterior@[i].s_over(total(self.startprob_posterior@)),
                ));
            }
            self.startprob = m;
        }
        if self.transmat_posterior.rows.len() == nc && self.transmat_posterior.ncols == nc {
            let mut tm = self.transmat_posterior.duplicate();
            let ghost copy = tm;
            normalize_axis(&mut tm, 1);
            self.transmat = tm;
            proof {
                rows_of_copy(&self.transmat_posterior, &copy, &tm);
            }
        }
    }

    /// The Dirichlet posterior concentrations of the initial-state distribution.
    pub fn startprob_posterior(&self) -> (r: &Vec<T>)
        ensures
            *r == self.startprob_posterior,
    {
        &self.startprob_posterior
    }

    /// The start distribution is initialised.
    pub open spec fn seeds_start(&self, init: ParamSet) -> bool {
        init.members().contains(Param::Start) || !self.start_preset
    }

    /// The transition rows are initialised.
    pub open spec fn seeds_trans(&self, init: ParamSet) -> bool {
        init.members().contains(Param::Trans) || !self.trans_preset
    }

    /// The start posterior is drawn anew.
    pub open spec fn draws_start(&self, init: ParamSet) -> bool {
        self.seeds_start(init) && !self.start_given
    }

    /// The transition posterior is drawn anew.
    pub open spec fn draws_trans(&self, init: ParamSet) -> bool {
        self.seeds_trans(init) && !self.trans_given
    }

    /// The draw behind the start posterior, and the random state after it.
    pub open spec fn start_draw(&self, init: ParamSet, seed: Option<u32>) -> (
        RngView<T>,
        Option<Seq<T>>,
    ) {
        let s = fresh_state::<T>(seed_or_zero(seed));
        if self.draws_start(init) {
            dirichlet_draw(s, uniform_weights(self.n_components as int))
        } else {
            (s, Some(Seq::empty()))
        }
    }

    /// The draw behind the transition posterior.
    pub open spec fn trans_draw(&self, init: ParamSet, seed: Option<u32>) -> Option<Seq<Seq<T>>> {
        if self.draws_trans(init) {
            dirichlet_draws(
                self.start_draw(init, seed).0,
                uniform_weights(self.n_components as int),
                self.n_components as int,
            ).1
        } else {
            Some(Seq::empty())
        }
    }
}

/// `v` holds the given scalars and presets, zeros where there are none, and, if a
/// posterior is preset, the posterior means; else those are zeros too.
pub open spec fn variational_built<T: Scalar>(
    v: &Variational<T>,
    n_components: usize,
    startprob_prior_scalar: Option<T>,
    transmat_prior_scalar: Option<T>,
    startprob_prior: Option<Vec<T>>,
    startprob_posterior: Option<Vec<T>>,
    transmat_prior: Option<Matrix<T>>,
    transmat_posterior: Option<Matrix<T>>,
) -> bool {
    let zeros = Seq::new(n_components as nat, |i: int| num::<T>(0));
    &&& v.n_components == n_components
    &&& v.startprob_prior_scalar == startprob_prior_scalar
    &&& v.transmat_prior_scalar == transmat_prior_scalar
    &&& v.start_preset == startprob_posterior is Some
    &&& v.trans_preset == transmat_posterior is Some
    &&& v.start_prior_given == startprob_prior is Some
    &&& v.trans_prior_given == transmat_prior is Some
    &&& v.start_given == startprob_posterior is Some
    &&& v.trans_given == transmat_posterior is Some
    &&& match startprob_prior {
        Some(p) => v.startprob_prior == p,
        None => v.startprob_prior@ == zeros,
    }
    &&& match startprob_posterior {
        Some(p) => v.startprob_posterior == p,
        None => v.startprob_posterior@ == zeros,
    }
    &&& match transmat_prior {
        Some(m) => v.transmat_prior == m,
        None => is_constant_matrix(&v.transmat_prior, n_components as int, num(0)),
    }
    &&& match transmat_posterior {
        Some(m) => v.transmat_posterior == m,
        None => is_constant_matrix(&v.transmat_posterior, n_components as int, num(0)),
    }
    &&& if v.start_preset || v.trans_preset {
        v.means_of_posteriors(zeros)
    } else {
        v.startprob@ == zeros && is_constant_matrix(&v.transmat, n_components as int, num(0))
    }
    &&& v.startprob_subnorm@ == zeros
    &&& is_constant_matrix(&v.transmat_subnorm, n_components as int, num(0))
}

/// `m` is `n` by `n` and holds `x` everywhere.
pub open spec fn is_constant_matrix<T: Scalar>(m: &Matrix<T>, n: int, x: T) -> bool {
    m.has_dims(n, n) && forall|i: int, j: int|
        0 <= i < n && 0 <= j < n ==> #[trigger] m.at(i, j) == x
}

/// The prior that a scalar, or its default, gives.
pub open spec fn prior_value<T: Scalar>(scalar: Option<T>, nc: int) -> T {
    match scalar {
        Some(p) => p,
        None => num::<T>(1).s_over(num(nc)),
    }
}

impl<T: Dense> Inference<T> for Variational<T> {
    open spec fn wf(&self) -> bool {
        self.ok()
    }

    open spec fn states(&self) -> int {
        self.n_components as int
    }

    open spec fn shaped(&self) -> bool {
        self.ok() && self.dims_ok()
    }

    open spec fn valid(&self) -> bool {
        self.dims_ok()
    }

    open spec fn flaw(&self, e: HmmError) -> bool {
        if self.startprob_prior.len() != self.n_components
            || self.startprob_posterior.len() != self.n_components {
            e matches HmmError::DimensionMismatch(m) && m@
                == "startprob prior/posterior must have length n_components"@
        } else {
            e matches HmmError::DimensionMismatch(m) && m@
                == "transmat prior/posterior must have shape (n_components, n_components)"@
        }
    }

    open spec fn start_view(&self) -> Seq<T> {
        self.startprob@
    }

    open spec fn trans_view(&self) -> Seq<Seq<T>> {
        self.transmat@
    }

    open spec fn estep_start(&self) -> Seq<T> {
        self.startprob_subnorm@
    }

    open spec fn estep_trans(&self) -> Seq<Seq<T>> {
        self.transmat_subnorm@
    }

    open spec fn init_gives_up(&self, init: ParamSet, seed: Option<u32>) -> bool {
        self.start_draw(init, seed).1 is None || self.trans_draw(init, seed) is None
    }

    /// The priors are those of the scalars, where none were given; the start
    /// posterior is the draw times the number of sequences, each transition row its
    /// draw times the samples per state, where none were given.
    open spec fn init_rel(
        &self,
        init: ParamSet,
        seed: Option<u32>,
        n_sequences: int,
        n_samples: int,
        after: &Self,
    ) -> bool {
        let nc = self.n_components as int;
        &&& after.n_components == self.n_components
        &&& if self.seeds_start(init) && !self.start_prior_given {
            after.startprob_prior@ == Seq::new(
                nc as nat,
                |i: int| prior_value(self.startprob_prior_scalar, nc),
            )
        } else {
            after.startprob_prior == self.startprob_prior
        }
        &&& if self.draws_start(init) {
            &&& self.start_draw(init, seed).1 matches Some(d)
            &&& after.startprob_posterior@ == times_all(d, num(n_sequences))
        } else {
            after.startprob_posterior == self.startprob_posterior
        }
        &&& if self.seeds_trans(init) && !self.trans_prior_given {
            is_constant_matrix(
                &after.transmat_prior,
                nc,
                prior_value(self.transmat_prior_scalar, nc),
            )
        } else {
            after.transmat_prior == self.transmat_prior
        }
        &&& if self.draws_trans(init) {
            &&& after.transmat_posterior.has_dims(nc, nc)
            &&& self.trans_draw(init, seed) matches Some(d)
            &&& after.transmat_posterior@ == times_all_rows(
                d,
                num::<T>(n_samples).s_over(num(nc)),
            )
        } else {
            after.transmat_posterior == self.transmat_posterior
        }
        &&& after.start_preset && after.trans_preset
        &&& !after.start_given && !after.trans_given
        &&& after.start_prior_given == self.start_prior_given
        &&& after.trans_prior_given == self.trans_prior_given
        &&& after.startprob_prior_scalar == self.startprob_prior_scalar
        &&& after.transmat_prior_scalar == self.transmat_prior_scalar
        &&& after.means_of_posteriors(self.startprob@)
    }

    open spec fn begin_rel(&self, after: &Self) -> bool {
        let nc = self.n_components as int;
        &&& after.n_components == self.n_components
        &&& after.startprob_prior == self.startprob_prior
        &&& after.startprob_posterior == self.startprob_posterior
        &&& after.transmat_prior == self.transmat_prior
        &&& after.transmat_posterior == self.transmat_posterior
        &&& after.startprob == self.startprob
        &&& after.transmat == self.transmat
        &&& after.startprob_prior_scalar == self.startprob_prior_scalar
        &&& after.transmat_prior_scalar == self.transmat_prior_scalar
        &&& after.start_preset == self.start_preset
        &&& after.trans_preset == self.trans_preset
        &&& after.same_given(self)
        &&& forall|i: int|
            0 <= i < nc ==> #[trigger] after.startprob_subnorm@[i] == subnormal(
                self.startprob_posterior@[i],
                total(self.startprob_posterior@),
            )
        &&& forall|i: int, j: int|
            0 <= i < nc && 0 <= j < nc ==> #[trigger] after.transmat_subnorm.at(i, j) == subnormal(
                self.transmat_posterior.at(i, j),
                row_total(&self.transmat_posterior, i),
            )
    }

    open spec fn mstep_rel(&self, stats: &CoreStats<T>, params: ParamSet, after: &Self) -> bool {
        let nc = self.n_components as int;
        &&& after.n_components == self.n_components
        &&& after.startprob_prior == self.startprob_prior
        &&& after.transmat_prior == self.transmat_prior
        &&& after.startprob_subnorm == self.startprob_subnorm
        &&& after.transmat_subnorm == self.transmat_subnorm
        &&& after.startprob_prior_scalar == self.startprob_prior_scalar
        &&& after.transmat_prior_scalar == self.transmat_prior_scalar
        &&& after.start_preset == self.start_preset
        &&& after.trans_preset == self.trans_preset
        &&& after.same_given(self)
        &&& after.startprob_posterior@ == if params.members().contains(Param::Start) {
            added(self.startprob_prior@, stats.start@)
        } else {
            self.startprob_posterior@
        }
        &&& if params.members().contains(Param::Trans) {
            forall|i: int, j: int|
                0 <= i < nc && 0 <= j < nc ==> #[trigger] after.transmat_posterior.at(i, j)
                    == self.transmat_prior.at(i, j).s_plus(stats.trans.at(i, j))
        } else {
            after.transmat_posterior == self.transmat_posterior
        }
        &&& after.means_of_posteriors(self.startprob@)
    }

    /// The log-probability less the divergence of each Dirichlet posterior from
    /// its prior: the start distribution first, then every transition row.
    open spec fn bound(&self, log_prob: T) -> T {
        bound_upto(self, log_prob, self.n_components as int)
    }

    fn n_components(&self) -> (n: usize) {
        self.n_components
    }

    fn start_prob(&self) -> (r: &Vec<T>) {
        &self.startprob
    }

    fn trans_mat(&self) -> (r: &Matrix<T>) {
        &self.transmat
    }

    fn init(&mut self, init: ParamSet, seed: Option<u32>, n_sequences: usize, n_samples: usize) -> (r:
        Result<(), HmmError>) {
        let ghost before = *self;
        let nc: usize = self.n_components;
        let uniform = one::<T>().over(count(nc));
        let alpha = uniform_vec(nc);
        let mut rng = seeded_state(seed);
        let fresh_start = init.contains(Param::Start) || !self.start_preset;
        let fresh_trans = init.contains(Param::Trans) || !self.trans_preset;
        let mut start_draw: Option<Vec<T>> = None;
        if fresh_start && !self.start_given {
            match rng.dirichlet(&alpha) {
                Some(v) => {
                    start_draw = Some(v);
                },
                None => {
                    return Err(gave_up());
                },
            }
        }
        if fresh_trans && !self.trans_given {
            match rng.dirichlet_rows(&alpha, nc) {
                Some(m) => {
                    self.transmat_posterior = scaled_rows(
                        &m,
                        count::<T>(n_samples).over(count(nc)),
                    );
                },
                None => {
                    return Err(gave_up());
                },
            }
        }
        if fresh_trans && !self.trans_prior_given {
            let p = match self.transmat_prior_scalar {
                Some(p) => p,
                None => uniform,
            };
            self.transmat_prior = Matrix::constant(nc, nc, p);
        }
        if fresh_start && !self.start_prior_given {
            let p = match self.startprob_prior_scalar {
                Some(p) => p,
                None => uniform,
            };
            self.startprob_prior = filled(nc, p);
        }
        if let Some(v) = start_draw {
            self.startprob_posterior = scaled_vec(&v, count(n_sequences));
        }
        self.start_preset = true;
        self.trans_preset = true;
        self.start_given = false;
        self.trans_given = false;
        self.update_normalized();
        Ok(())
    }

    /// The sub-normalised parameters `exp(digamma(a) - digamma(sum a))` of the
    /// current posteriors.
    fn estep_begin(&mut self) {
        let nc: usize = self.n_components;
        let s = sum(&self.startprob_posterior);
        let dg = digamma(s);
        let post = &self.startprob_posterior;
        let f = |i: usize| -> (x: T)
            requires
                i < post.len(),
                dg == digamma_of(s),
            ensures
                x == subnormal(post@[i as int], s),
        {
            digamma(post[i]).minus(dg).exp()
        };
        let start = tabulate(nc, f);
        let tm = &self.transmat_posterior;
        let g = |i: usize, j: usize| -> (x: T)
            requires
                tm.has_dims(nc as int, nc as int),
                i < nc,
                j < nc,
            ensures
                x == subnormal(tm.at(i as int, j as int), row_total(tm, i as int)),
        {
            digamma(tm.get(i, j)).minus(digamma(row_sum(tm, i))).exp()
        };
        let trans = Matrix::tabulate(nc, nc, g);
        self.startprob_subnorm = start;
        self.transmat_subnorm = trans;
    }

    fn estep_start_trans(&self) -> (r: (Vec<T>, Matrix<T>)) {
        (copied(&self.startprob_subnorm), self.transmat_subnorm.duplicate())
    }

    fn mstep(&mut self, stats: &CoreStats<T>, params: ParamSet) {
        let nc: usize = self.n_components;
        if params.contains(Param::Start) {
            self.startprob_posterior = sum_vecs(&self.startprob_prior, &stats.start);
        }
        if params.contains(Param::Trans) {
            let prior = &self.transmat_prior;
            let f = |i: usize, j: usize| -> (x: T)
                requires
                    prior.has_dims(nc as int, nc as int),
                    stats.trans.has_dims(nc as int, nc as int),
                    i < nc,
                    j < nc,
                ensures
                    x == prior.at(i as int, j as int).s_plus(stats.trans.at(i as int, j as int)),
            {
                prior.get(i, j).plus(stats.trans.get(i, j))
            };
            let tm = Matrix::tabulate(nc, nc, f);
            self.transmat_posterior = tm;
        }
        self.update_normalized();
    }

    fn lower_bound(&self, curr_logprob: T) -> (r: T) {
        let nc: usize = self.n_components;
        let mut lb = curr_logprob.minus(
            kl_dirichlet(&self.startprob_posterior, &self.startprob_prior),
        );
        let mut i: usize = 0;
        while i < nc
            invariant
                i <= nc,
                nc == self.n_components,
                self.shaped(),
                lb == bound_upto(self, curr_logprob, i as int),
            decreases nc - i,
        {
            lb = lb.minus(
                kl_dirichlet(&self.transmat_posterior.rows[i], &self.transmat_prior.rows[i]),
            );
            i += 1;
        }
        lb
    }

    fn check(&self) -> (r: Result<(), HmmError>) {
        let nc: usize = self.n_components;
        if self.startprob_prior.len() != nc || self.startprob_posterior.len() != nc {
            return Err(
                HmmError::DimensionMismatch(
                    "startprob prior/posterior must have length n_components".to_owned(),
                ),
            );
        }
        if self.transmat_prior.rows.len() != nc || self.transmat_prior.ncols != nc
            || self.transmat_posterior.rows.len() != nc || self.transmat_posterior.ncols != nc {
            return Err(
                HmmError::DimensionMismatch(
                    "transmat prior/posterior must have shape (n_components, n_components)".to_owned(),
                ),
            );
        }
        Ok(())
    }
}

/// The bound after the start distribution and the first `n` transition rows.
pub open spec fn bound_upto<T: Scalar>(v: &Variational<T>, log_prob: T, n: int) -> T
    decreases n,
{
    if n <= 0 {
        log_prob.s_minus(dirichlet_divergence(v.startprob_posterior@, v.startprob_prior@))
    } else {
        bound_upto(v, log_prob, n - 1).s_minus(
            dirichlet_divergence(
                v.transmat_posterior.rows@[n - 1]@,
                v.transmat_prior.rows@[n - 1]@,
            ),
        )
    }
}

} // verus!
