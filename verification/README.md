# hmmlearn

Hidden Markov models whose behaviour is stated in contracts and proved by Verus:
categorical, multinomial, Poisson, Gaussian and Gaussian-mixture emissions trained
by expectation-maximisation, and categorical and Gaussian emissions trained by
mean-field variational inference.

## Layout

- `src/scalar.rs`, `src/linalg.rs`: the numbers that everything else is written
  over. `Scalar` is a type of numbers with its elementary functions, `Dense` one
  with matrix factorisations. The library never looks inside a number, so every
  contract says which operations are applied, in which order.
- `src/matrix.rs`, `src/util.rs`, `src/special.rs`, `src/kl.rs`, `src/stats/`,
  `src/covariance/`, `src/cluster.rs`: arrays and numerics.
- `src/rng/`: NumPy's legacy `RandomState`, with every draw a function of the
  generator's state.
- `src/engine/`: the forward, backward and Viterbi recursions, the convergence
  monitor, inference of start and transition parameters, fitting and fitted models.
- `src/models/`: the seven models and their builders.
- `src/exact.rs`, `src/divergence.rs`, `src/engine/agreement.rs`,
  `src/engine/scaled.rs`, `src/engine/optimality.rs`, `src/engine/expected.rs`,
  `src/engine/joined.rs`, `src/engine/unique.rs`, `src/engine/laws.rs`,
  `src/models/mixture.rs`: what holds of the library as a whole. Laws that rounding
  would break are stated over numbers that do not round.
- `src/reals.rs`, `src/engine/ascent.rs`, `src/engine/tables.rs`,
  `src/engine/counts.rs`, `src/engine/powers.rs`, `src/engine/raising.rs`,
  `src/engine/history.rs`, `src/engine/rising.rs`, `src/models/weighing.rs`,
  `src/models/rising.rs`, `src/models/rising_multinomial.rs`,
  `src/models/rising_poisson.rs`: expectation-maximisation with flat priors never
  lowers the likelihood of a categorical, multinomial or Poisson model, from one
  iteration to the next and to the score of the fitted model. The laws are stated
  over numbers that do not round and for models that give every sequence a
  probability, that of the Poisson model also for rates that stay positive. Nothing
  of the kind is stated of the Gaussian, mixture and variational models.
- `app/`: double-precision numbers for the library, conversions from and to
  `ndarray`, and two example programs.
- `tests/`: the library at work on double-precision numbers.

Draws that reject candidates try a bounded, very large number of them; a draw that
finds none is `None`, and fitting then reports an error. What fitting has to report
is kept in the model's notes.
