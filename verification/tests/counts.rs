use hmmlearn::engine::{DecoderAlgorithm, EmissionModel, Hmm, Implementation, ParamSet};
use hmmlearn::linalg::Dense;
use hmmlearn::matrix::Matrix;
use hmmlearn::models::{CategoricalHmm, MultinomialEm, MultinomialHmm, PoissonHmm};
use hmmlearn::rng::NumpyRandomState;
use hmmlearn::scalar::Scalar;
use nalgebra::{DMatrix, DVector, SymmetricEigen};
use std::collections::HashSet;

#[derive(Clone, Copy, Debug, PartialEq)]
struct F(f64);

impl Scalar for F {
    fn of_int(n: i128) -> F {
        F(n as f64)
    }
    fn decimal(digits: i64, exponent: i32) -> F {
        F(format!("{}e{}", digits, exponent).parse().unwrap())
    }
    fn pos_inf() -> F {
        F(f64::INFINITY)
    }
    fn neg_inf() -> F {
        F(f64::NEG_INFINITY)
    }
    fn nan() -> F {
        F(f64::NAN)
    }
    fn pi() -> F {
        F(std::f64::consts::PI)
    }
    fn plus(self, o: F) -> F {
        F(self.0 + o.0)
    }
    fn minus(self, o: F) -> F {
        F(self.0 - o.0)
    }
    fn times(self, o: F) -> F {
        F(self.0 * o.0)
    }
    fn over(self, o: F) -> F {
        F(self.0 / o.0)
    }
    fn below(self, o: F) -> bool {
        self.0 < o.0
    }
    fn same(self, o: F) -> bool {
        self.0 == o.0
    }
    fn signum(self) -> F {
        F(self.0.signum())
    }
    fn ln(self) -> F {
        F(self.0.ln())
    }
    fn ln_1p(self) -> F {
        F(self.0.ln_1p())
    }
    fn exp(self) -> F {
        F(self.0.exp())
    }
    fn sqrt(self) -> F {
        F(self.0.sqrt())
    }
    fn mul_add(self, a: F, b: F) -> F {
        F(self.0.mul_add(a.0, b.0))
    }
    fn pow(self, e: F) -> F {
        F(self.0.powf(e.0))
    }
    fn floor(self) -> F {
        F(self.0.floor())
    }
    fn fract(self) -> F {
        F(self.0.fract())
    }
    fn to_int(self) -> i64 {
        self.0 as i64
    }
    fn ln_gamma(self) -> F {
        F(libm::lgamma(self.0))
    }
    fn text(self, places: Option<usize>, plus: bool) -> String {
        match (places, plus) {
            (Some(p), true) => format!("{:+.*}", p, self.0),
            (Some(p), false) => format!("{:.*}", p, self.0),
            (None, true) => format!("{:+}", self.0),
            (None, false) => format!("{}", self.0),
        }
    }
}

fn to_na(a: &Matrix<F>) -> DMatrix<f64> {
    DMatrix::from_fn(a.rows.len(), a.ncols, |i, j| a.rows[i][j].0)
}

fn from_na(m: &DMatrix<f64>) -> Matrix<F> {
    let rows: Vec<Vec<F>> = (0..m.nrows())
        .map(|i| (0..m.ncols()).map(|j| F(m[(i, j)])).collect())
        .collect();
    Matrix {
        rows,
        ncols: m.ncols(),
    }
}

impl Dense for F {
    fn cholesky(a: &Matrix<F>) -> Option<Matrix<F>> {
        nalgebra::Cholesky::new(to_na(a)).map(|c| from_na(&c.l()))
    }
    fn eigenvalues(a: &Matrix<F>) -> Vec<F> {
        SymmetricEigen::new(to_na(a))
            .eigenvalues
            .iter()
            .map(|v| F(*v))
            .collect()
    }
    fn determinant(a: &Matrix<F>) -> F {
        F(to_na(a).determinant())
    }
    fn inverse(a: &Matrix<F>) -> Option<Matrix<F>> {
        to_na(a).try_inverse().map(|m| from_na(&m))
    }
    fn solve(a: &Matrix<F>, b: &Vec<F>) -> Option<Vec<F>> {
        let rhs = DVector::from_iterator(b.len(), b.iter().map(|v| v.0));
        to_na(a)
            .lu()
            .solve(&rhs)
            .map(|v| v.iter().map(|x| F(*x)).collect())
    }
}

fn vf(v: &[f64]) -> Vec<F> {
    v.iter().map(|x| F(*x)).collect()
}

fn mat(rows: &[&[f64]]) -> Matrix<F> {
    Matrix {
        rows: rows.iter().map(|r| vf(r)).collect(),
        ncols: rows[0].len(),
    }
}

fn assert_close(a: &Matrix<F>, b: &Matrix<F>, eps: f64) {
    assert_eq!(a.rows.len(), b.rows.len());
    assert_eq!(a.ncols, b.ncols);
    for i in 0..a.rows.len() {
        for j in 0..a.ncols {
            let (x, y) = (a.rows[i][j].0, b.rows[i][j].0);
            assert!((x - y).abs() <= eps, "({}, {}): {} vs {}", i, j, x, y);
        }
    }
}

fn assert_rows_sum_to_one(post: &Matrix<F>, eps: f64) {
    for row in post.rows.iter() {
        let s: f64 = row.iter().map(|v| v.0).sum();
        assert!((s - 1.0).abs() < eps, "{}", s);
    }
}

/// Fit one iteration at a time, without initialising again, and require at least
/// one improvement of the log-likelihood above rounding.
fn assert_ll_increasing<E: EmissionModel<F>>(
    mut model: Hmm<F, E>,
    x: &Matrix<F>,
    lengths: Option<&[usize]>,
    n_iter: usize,
) {
    model.n_iter = 1;
    model.init_params = ParamSet::empty();
    let mut lls: Vec<f64> = Vec::new();
    let mut fitted = model.fit(x, lengths).ok().unwrap();
    lls.push(fitted.score(x, lengths).unwrap().0);
    for _ in 1..n_iter {
        fitted = fitted.into_inner().fit(x, lengths).ok().unwrap();
        lls.push(fitted.score(x, lengths).unwrap().0);
    }
    let eps_sqrt = f64::EPSILON.sqrt();
    let diff_max = lls
        .windows(2)
        .map(|w| w[1] - w[0])
        .fold(f64::NEG_INFINITY, f64::max);
    assert!(diff_max > eps_sqrt, "{:?}", lls);
}

const IMPLS: [Implementation; 2] = [Implementation::Log, Implementation::Scaling];

fn empty(ncols: usize) -> Matrix<F> {
    Matrix {
        rows: Vec::new(),
        ncols,
    }
}

fn multinomial(imp: Implementation) -> MultinomialHmm<F> {
    MultinomialHmm::new(2)
        .n_trials(5)
        .implementation(imp)
        .start_prob(vf(&[0.6, 0.4]))
        .trans_mat(mat(&[&[0.8, 0.2], &[0.2, 0.8]]))
        .emissionprob(mat(&[&[0.5, 0.3, 0.1, 0.1], &[0.1, 0.1, 0.4, 0.4]]))
}

fn poisson(imp: Implementation) -> PoissonHmm<F> {
    PoissonHmm::new(2)
        .implementation(imp)
        .random_state(0)
        .start_prob(vf(&[0.6, 0.4]))
        .trans_mat(mat(&[&[0.7, 0.3], &[0.4, 0.6]]))
        .lambdas(mat(&[&[3.1, 1.4, 4.5], &[1.6, 5.3, 0.1]]))
}

fn emission(n_features: Option<usize>, n_trials: Option<i64>) -> MultinomialEm<F> {
    MultinomialEm {
        n_components: 2,
        n_features,
        emissionprob: None,
        emissionprob_preset: false,
        n_trials,
        n_trials_inferred: false,
    }
}

#[test]
fn multinomial_attributes_validation() {
    assert!(MultinomialHmm::new(2)
        .n_trials(5)
        .n_features(4)
        .start_prob(vf(&[0.6, 0.4]))
        .trans_mat(mat(&[&[0.8, 0.2], &[0.2, 0.8]]))
        .emissionprob(empty(4))
        .into_fitted()
        .is_err());
    assert!(MultinomialHmm::new(2)
        .n_features(4)
        .start_prob(vf(&[0.6, 0.4]))
        .trans_mat(mat(&[&[0.8, 0.2], &[0.2, 0.8]]))
        .emissionprob(mat(&[&[0.5, 0.3, 0.1, 0.1], &[0.1, 0.1, 0.4, 0.4]]))
        .into_fitted()
        .is_err());
}

#[test]
fn multinomial_score_samples_shape_and_normalization() {
    let x = mat(&[
        &[1.0, 1.0, 3.0, 0.0],
        &[3.0, 1.0, 1.0, 0.0],
        &[3.0, 0.0, 2.0, 0.0],
        &[2.0, 2.0, 0.0, 1.0],
        &[2.0, 2.0, 0.0, 1.0],
        &[0.0, 1.0, 1.0, 3.0],
        &[1.0, 0.0, 3.0, 1.0],
        &[2.0, 0.0, 1.0, 2.0],
        &[0.0, 2.0, 1.0, 2.0],
        &[1.0, 0.0, 1.0, 3.0],
    ]);
    for imp in IMPLS {
        let h = multinomial(imp).into_fitted().ok().unwrap();
        let (_ll, post) = h.score_samples(&x, None).unwrap();
        assert_eq!((post.rows.len(), post.ncols), (10, 2));
        assert_rows_sum_to_one(&post, 1e-9);
    }
}

#[test]
fn sample_respects_n_trials() {
    for imp in IMPLS {
        let h = multinomial(imp).into_fitted().ok().unwrap();
        let (x, states) = h.sample(1000, Some(0), None).unwrap();
        assert_eq!(x.rows.len(), 1000);
        assert_eq!(states.len(), 1000);
        let unique: HashSet<i64> = x.rows.iter().flatten().map(|v| v.0 as i64).collect();
        assert_eq!(unique.len(), 6);
        for r in x.rows.iter() {
            assert_eq!(r.iter().map(|v| v.0).sum::<f64>() as i64, 5);
        }
    }
}

#[test]
fn check_and_set_n_trials() {
    let mut em = emission(None, None);
    assert!(em
        .check_and_set_n_features(&mat(&[&[0.0, 2.0, 3.0, 0.0], &[1.0, 0.0, 2.0, 2.0]]))
        .is_ok());
    assert_eq!(em.n_trials, Some(5));
    assert_eq!(em.n_features, Some(4));
    assert!(em.n_trials_inferred);
    assert!(em
        .check_and_set_n_features(&mat(&[&[0.0, 0.0, 2.0, 1.0, 3.0, 1.0, 1.0]]))
        .is_err());
    let mut em2 = emission(Some(4), Some(5));
    assert!(em2
        .check_and_set_n_features(&mat(&[&[0.0, 2.0, 0.0, 3.0], &[0.0, 2.5, 2.5, 0.0]]))
        .is_err());
    let mut em3 = emission(Some(4), Some(5));
    assert!(em3
        .check_and_set_n_features(&mat(&[&[0.0, 0.0, 1.0, 1.0], &[3.0, 1.0, 1.0, 0.0]]))
        .is_err());
}

#[test]
fn multinomial_fit_increases_log_likelihood() {
    for imp in IMPLS {
        let (x, _) = multinomial(imp)
            .into_fitted()
            .ok()
            .unwrap()
            .sample(100, Some(1), None)
            .unwrap();
        let lengths = vec![10usize; 10];
        let model = MultinomialHmm::new(2)
            .n_trials(5)
            .implementation(imp)
            .random_state(2)
            .build();
        assert_ll_increasing(model, &x, Some(&lengths), 5);
    }
}

#[test]
fn compare_with_categorical_hmm() {
    let transmat: &[&[f64]] = &[&[0.7, 0.3], &[0.4, 0.6]];
    let emissionprob: &[&[f64]] = &[&[0.1, 0.4, 0.5], &[0.6, 0.3, 0.1]];
    let x1 = mat(&[&[1.0, 0.0, 0.0], &[0.0, 1.0, 0.0], &[0.0, 0.0, 1.0]]);
    let x2 = mat(&[&[0.0], &[1.0], &[2.0]]);
    let expected = mat(&[
        &[0.23170303, 0.76829697],
        &[0.62406281, 0.37593719],
        &[0.86397706, 0.13602294],
    ]);
    for imp in IMPLS {
        let h1 = MultinomialHmm::new(2)
            .n_trials(1)
            .implementation(imp)
            .start_prob(vf(&[0.6, 0.4]))
            .trans_mat(mat(transmat))
            .emissionprob(mat(emissionprob))
            .into_fitted()
            .ok()
            .unwrap();
        let h2 = CategoricalHmm::new(2)
            .n_features(3)
            .implementation(imp)
            .start_prob(vf(&[0.6, 0.4]))
            .trans_mat(mat(transmat))
            .emissionprob(mat(emissionprob))
            .into_fitted()
            .ok()
            .unwrap();
        let (lp1, seq1) = h1
            .decode(&x1, None, Some(DecoderAlgorithm::Viterbi))
            .unwrap();
        let (lp2, seq2) = h2
            .decode(&x2, None, Some(DecoderAlgorithm::Viterbi))
            .unwrap();
        assert!((lp1.0.exp() - 0.01344).abs() < 5e-6);
        assert!((lp2.0.exp() - 0.01344).abs() < 5e-6);
        assert_eq!(seq1, vec![1, 0, 0]);
        assert_eq!(seq2, vec![1, 0, 0]);
        assert_close(&h1.predict_proba(&x1, None).unwrap(), &expected, 1e-6);
        assert_close(&h2.predict_proba(&x2, None).unwrap(), &expected, 1e-6);
    }
}

#[test]
fn multinomial_probability_of_a_row() {
    // 5!/(2!2!1!) * 0.5^2 * 0.3^2 * 0.1 in the first state.
    let h = MultinomialHmm::new(1)
        .n_trials(5)
        .start_prob(vf(&[1.0]))
        .trans_mat(mat(&[&[1.0]]))
        .emissionprob(mat(&[&[0.5, 0.3, 0.1, 0.1]]))
        .into_fitted()
        .ok()
        .unwrap();
    let x = mat(&[&[2.0, 2.0, 1.0, 0.0]]);
    let expected: f64 = 30.0 * 0.25 * 0.09 * 0.1;
    assert!((h.score(&x, None).unwrap().0 - expected.ln()).abs() < 1e-12);
}

#[test]
fn poisson_attributes_validation() {
    assert!(PoissonHmm::new(2)
        .start_prob(vf(&[0.6, 0.4]))
        .trans_mat(mat(&[&[0.7, 0.3], &[0.4, 0.6]]))
        .lambdas(empty(3))
        .into_fitted()
        .is_err());
}

#[test]
fn poisson_score_samples_shape_and_normalization() {
    for imp in IMPLS {
        let h = poisson(imp).into_fitted().ok().unwrap();
        let (x, states) = h.sample(1000, Some(0), None).unwrap();
        assert_eq!(x.rows.len(), 1000);
        assert_eq!(x.ncols, 3);
        assert_eq!(states.len(), 1000);
        let (_ll, post) = h.score_samples(&x, None).unwrap();
        assert_eq!((post.rows.len(), post.ncols), (1000, 2));
        assert_rows_sum_to_one(&post, 1e-9);
    }
}

#[test]
fn poisson_fit_increases_log_likelihood() {
    for imp in IMPLS {
        let (x, _) = poisson(imp)
            .into_fitted()
            .ok()
            .unwrap()
            .sample(100, Some(1), None)
            .unwrap();
        let lengths = vec![10usize; 10];
        let model = PoissonHmm::new(2)
            .implementation(imp)
            .random_state(2)
            .build();
        assert_ll_increasing(model, &x, Some(&lengths), 5);
        let model_l = PoissonHmm::new(2)
            .implementation(imp)
            .params("l")
            .random_state(2)
            .build();
        assert_ll_increasing(model_l, &x, Some(&lengths), 5);
    }
}

#[test]
fn poisson_criterion_aic_bic_finite() {
    for imp in IMPLS {
        let (x, _) = poisson(imp)
            .into_fitted()
            .ok()
            .unwrap()
            .sample(500, Some(412), None)
            .unwrap();
        for n in [2usize, 3, 4] {
            let h = PoissonHmm::new(n)
                .implementation(imp)
                .n_iter(20)
                .random_state(412)
                .fit(&x, None)
                .ok()
                .unwrap();
            assert!(h.aic(&x, None).unwrap().0.is_finite());
            assert!(h.bic(&x, None).unwrap().0.is_finite());
        }
    }
}

#[test]
fn poisson_log_probability_of_a_row() {
    let h = PoissonHmm::new(1)
        .start_prob(vf(&[1.0]))
        .trans_mat(mat(&[&[1.0]]))
        .lambdas(mat(&[&[2.0, 0.5]]))
        .into_fitted()
        .ok()
        .unwrap();
    // exp(-2) 2^3 / 3! * exp(-0.5)
    let expected = -2.0 + 3.0 * 2.0_f64.ln() - 6.0_f64.ln() - 0.5;
    let x = mat(&[&[3.0, 0.0]]);
    assert!((h.score(&x, None).unwrap().0 - expected).abs() < 1e-12);
}

#[test]
fn trials_are_inferred_anew() {
    let mut em = emission(None, None);
    assert!(em.check_and_set_n_features(&mat(&[&[1.0, 2.0]])).is_ok());
    assert_eq!(em.n_trials, Some(3));
    assert!(em.check_and_set_n_features(&mat(&[&[4.0, 2.0]])).is_ok());
    assert_eq!(em.n_trials, Some(6));
    // Rows that add up differently share no number.
    assert!(em
        .check_and_set_n_features(&mat(&[&[4.0, 2.0], &[1.0, 0.0]]))
        .is_ok());
    assert_eq!(em.n_trials, None);
    assert!(em.n_trials_inferred);
    // Counts that are refused leave the number of categories behind.
    let mut em = emission(None, None);
    assert!(em.check_and_set_n_features(&mat(&[&[0.5, 2.0]])).is_err());
    assert_eq!(em.n_features, Some(2));
    assert_eq!(em.n_trials, None);
}

#[test]
fn inferred_trials_allow_sampling() {
    let x = mat(&[&[3.0, 2.0], &[1.0, 4.0], &[5.0, 0.0]]);
    let f = MultinomialHmm::new(2)
        .random_state(1)
        .n_iter(1)
        .fit(&x, None)
        .ok()
        .unwrap();
    let (drawn, _) = f.sample(4, Some(3), None).unwrap();
    for row in drawn.rows.iter() {
        assert_eq!(row.iter().map(|v| v.0).sum::<f64>(), 5.0);
    }
}

#[test]
fn rates_start_from_the_moments() {
    // Mean 2.5 and population variance 1.25: shape 5 and scale 0.5.
    let x = mat(&[&[1.0], &[2.0], &[3.0], &[4.0]]);
    let f = PoissonHmm::new(2)
        .random_state(7)
        .n_iter(0)
        .fit(&x, None)
        .ok()
        .unwrap();
    let mut rng = NumpyRandomState::<F>::new(7);
    for c in 0..2 {
        let g = rng.gamma(F(5.0), F(0.5)).unwrap();
        assert!((f.emission().lambdas().rows[c][0].0 - g.0).abs() < 1e-12);
    }
    let f = PoissonHmm::new(2)
        .lambdas(mat(&[&[9.0], &[8.0]]))
        .n_iter(0)
        .fit(&x, None)
        .ok()
        .unwrap();
    assert_eq!(f.emission().lambdas().rows, mat(&[&[9.0], &[8.0]]).rows);
}

/// Require that the history never falls, up to rounding, and that the score of the
/// fitted model is not below its last entry.
fn assert_history_rises<E: EmissionModel<F>>(
    model: Hmm<F, E>,
    x: &Matrix<F>,
    lengths: Option<&[usize]>,
) {
    let fitted = model.fit(x, lengths).ok().unwrap();
    let history: Vec<f64> = fitted.monitor().history.iter().map(|v| v.0).collect();
    assert!(history.len() >= 3);
    for w in history.windows(2) {
        assert!(w[1] - w[0] > -1e-9, "{:?}", history);
    }
    let score = fitted.score(x, lengths).unwrap().0;
    assert!(score - history[history.len() - 1] > -1e-9);
}

#[test]
fn multinomial_history_never_falls() {
    for imp in IMPLS {
        let (x, _) = multinomial(imp)
            .into_fitted()
            .ok()
            .unwrap()
            .sample(100, Some(1), None)
            .unwrap();
        let lengths = vec![10usize; 10];
        let model = MultinomialHmm::new(2)
            .n_trials(5)
            .implementation(imp)
            .random_state(2)
            .n_iter(6)
            .tol(F(0.0))
            .build();
        assert_history_rises(model, &x, Some(&lengths));
    }
}

#[test]
fn poisson_history_never_falls() {
    for imp in IMPLS {
        let (x, _) = poisson(imp)
            .into_fitted()
            .ok()
            .unwrap()
            .sample(100, Some(1), None)
            .unwrap();
        let lengths = vec![10usize; 10];
        let model = PoissonHmm::new(2)
            .implementation(imp)
            .random_state(2)
            .n_iter(6)
            .tol(F(0.0))
            .build();
        assert_history_rises(model, &x, Some(&lengths));
    }
}
