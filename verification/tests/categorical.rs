use hmmlearn::engine::fitted::{argmax_row, cumsum, cumsum_axis, first_gt};
use hmmlearn::engine::{
    DecoderAlgorithm, EmissionModel, Fitted, Hmm, Implementation, ParamSet,
};
use hmmlearn::linalg::Dense;
use hmmlearn::matrix::Matrix;
use hmmlearn::models::{CategoricalEm, CategoricalHmm};
use hmmlearn::rng::NumpyRandomState;
use hmmlearn::scalar::Scalar;
use hmmlearn::HmmError;
use nalgebra::{DMatrix, DVector, SymmetricEigen};
use std::collections::HashSet;

#[derive(Clone, Copy, Debug, PartialEq)]
struct F(f64);

impl Scalar for F {
    fn of_int(n: i128) -> F {
        F(n as f64)
    }
    fn decimal(digits: i64, exponent: i32) -> F {
        F(format!("{}e{}", digits, exponent).parse().unwrap())
    }
    fn pos_inf() -> F {
        F(f64::INFINITY)
    }
    fn neg_inf() -> F {
        F(f64::NEG_INFINITY)
    }
    fn nan() -> F {
        F(f64::NAN)
    }
    fn pi() -> F {
        F(std::f64::consts::PI)
    }
    fn plus(self, o: F) -> F {
        F(self.0 + o.0)
    }
    fn minus(self, o: F) -> F {
        F(self.0 - o.0)
    }
    fn times(self, o: F) -> F {
        F(self.0 * o.0)
    }
    fn over(self, o: F) -> F {
        F(self.0 / o.0)
    }
    fn below(self, o: F) -> bool {
        self.0 < o.0
    }
    fn same(self, o: F) -> bool {
        self.0 == o.0
    }
    fn signum(self) -> F {
        F(self.0.signum())
    }
    fn ln(self) -> F {
        F(self.0.ln())
    }
    fn ln_1p(self) -> F {
        F(self.0.ln_1p())
    }
    fn exp(self) -> F {
        F(self.0.exp())
    }
    fn sqrt(self) -> F {
        F(self.0.sqrt())
    }
    fn mul_add(self, a: F, b: F) -> F {
        F(self.0.mul_add(a.0, b.0))
    }
    fn pow(self, e: F) -> F {
        F(self.0.powf(e.0))
    }
    fn floor(self) -> F {
        F(self.0.floor())
    }
    fn fract(self) -> F {
        F(self.0.fract())
    }
    fn to_int(self) -> i64 {
        self.0 as i64
    }
    fn ln_gamma(self) -> F {
        F(libm::lgamma(self.0))
    }
    fn text(self, places: Option<usize>, plus: bool) -> String {
        match (places, plus) {
            (Some(p), true) => format!("{:+.*}", p, self.0),
            (Some(p), false) => format!("{:.*}", p, self.0),
            (None, true) => format!("{:+}", self.0),
            (None, false) => format!("{}", self.0),
        }
    }
}

fn to_na(a: &Matrix<F>) -> DMatrix<f64> {
    DMatrix::from_fn(a.rows.len(), a.ncols, |i, j| a.rows[i][j].0)
}

fn from_na(m: &DMatrix<f64>) -> Matrix<F> {
    let rows: Vec<Vec<F>> = (0..m.nrows())
        .map(|i| (0..m.ncols()).map(|j| F(m[(i, j)])).collect())
        .collect();
    Matrix {
        rows,
        ncols: m.ncols(),
    }
}

impl Dense for F {
    fn cholesky(a: &Matrix<F>) -> Option<Matrix<F>> {
        nalgebra::Cholesky::new(to_na(a)).map(|c| from_na(&c.l()))
    }
    fn eigenvalues(a: &Matrix<F>) -> Vec<F> {
        SymmetricEigen::new(to_na(a))
            .eigenvalues
            .iter()
            .map(|v| F(*v))
            .collect()
    }
    fn determinant(a: &Matrix<F>) -> F {
        F(to_na(a).determinant())
    }
    fn inverse(a: &Matrix<F>) -> Option<Matrix<F>> {
        to_na(a).try_inverse().map(|m| from_na(&m))
    }
    fn solve(a: &Matrix<F>, b: &Vec<F>) -> Option<Vec<F>> {
        let rhs = DVector::from_iterator(b.len(), b.iter().map(|v| v.0));
        to_na(a)
            .lu()
            .solve(&rhs)
            .map(|v| v.iter().map(|x| F(*x)).collect())
    }
}

fn vf(v: &[f64]) -> Vec<F> {
    v.iter().map(|x| F(*x)).collect()
}

fn mat(rows: &[&[f64]]) -> Matrix<F> {
    Matrix {
        rows: rows.iter().map(|r| vf(r)).collect(),
        ncols: rows[0].len(),
    }
}

fn assert_close(a: &Matrix<F>, b: &Matrix<F>, eps: f64) {
    assert_eq!(a.rows.len(), b.rows.len());
    assert_eq!(a.ncols, b.ncols);
    for i in 0..a.rows.len() {
        for j in 0..a.ncols {
            let (x, y) = (a.rows[i][j].0, b.rows[i][j].0);
            assert!((x - y).abs() <= eps, "({}, {}): {} vs {}", i, j, x, y);
        }
    }
}

fn assert_rows_sum_to_one(post: &Matrix<F>, eps: f64) {
    for row in post.rows.iter() {
        let s: f64 = row.iter().map(|v| v.0).sum();
        assert!((s - 1.0).abs() < eps, "{}", s);
    }
}

/// Fit one iteration at a time, without initialising again, and require at least
/// one improvement of the log-likelihood above rounding.
fn assert_ll_increasing<E: EmissionModel<F>>(
    mut model: Hmm<F, E>,
    x: &Matrix<F>,
    lengths: Option<&[usize]>,
    n_iter: usize,
) {
    model.n_iter = 1;
    model.init_params = ParamSet::empty();
    let mut lls: Vec<f64> = Vec::new();
    let mut fitted = model.fit(x, lengths).ok().unwrap();
    lls.push(fitted.score(x, lengths).unwrap().0);
    for _ in 1..n_iter {
        fitted = fitted.into_inner().fit(x, lengths).ok().unwrap();
        lls.push(fitted.score(x, lengths).unwrap().0);
    }
    let eps_sqrt = f64::EPSILON.sqrt();
    let diff_max = lls
        .windows(2)
        .map(|w| w[1] - w[0])
        .fold(f64::NEG_INFINITY, f64::max);
    assert!(diff_max > eps_sqrt, "{:?}", lls);
}

const IMPLS: [Implementation; 2] = [Implementation::Log, Implementation::Scaling];

fn empty(ncols: usize) -> Matrix<F> {
    Matrix {
        rows: Vec::new(),
        ncols,
    }
}

fn wiki(imp: Implementation) -> Fitted<F, CategoricalEm<F>> {
    CategoricalHmm::new(2)
        .n_features(3)
        .implementation(imp)
        .start_prob(vf(&[0.6, 0.4]))
        .trans_mat(mat(&[&[0.7, 0.3], &[0.4, 0.6]]))
        .emissionprob(mat(&[&[0.1, 0.4, 0.5], &[0.6, 0.3, 0.1]]))
        .into_fitted()
        .ok()
        .unwrap()
}

#[test]
fn wikipedia_decode_viterbi() {
    let x = mat(&[&[0.0], &[1.0], &[2.0]]);
    for imp in IMPLS {
        let (log_prob, seq) = wiki(imp)
            .decode(&x, None, Some(DecoderAlgorithm::Viterbi))
            .unwrap();
        assert!((log_prob.0.exp() - 0.01344).abs() < 5e-6);
        assert_eq!(seq, vec![1, 0, 0]);
    }
}

#[test]
fn wikipedia_decode_map() {
    let x = mat(&[&[0.0], &[1.0], &[2.0]]);
    for imp in IMPLS {
        let (lp, seq) = wiki(imp)
            .decode(&x, None, Some(DecoderAlgorithm::Posterior))
            .unwrap();
        assert_eq!(seq, vec![1, 0, 0]);
        assert!((lp.0.exp() - 0.01344).abs() < 5e-6);
    }
}

#[test]
fn wikipedia_predict_and_proba() {
    let x = mat(&[&[0.0], &[1.0], &[2.0]]);
    let expected = mat(&[
        &[0.23170303, 0.76829697],
        &[0.62406281, 0.37593719],
        &[0.86397706, 0.13602294],
    ]);
    for imp in IMPLS {
        let h = wiki(imp);
        assert_eq!(h.predict(&x, None).unwrap(), vec![1, 0, 0]);
        assert_close(&h.predict_proba(&x, None).unwrap(), &expected, 1e-6);
    }
}

#[test]
fn n_features_inferred_and_respected() {
    for imp in IMPLS {
        let (seqs, _) = wiki(imp).sample(500, Some(42), None).unwrap();
        let fitted = CategoricalHmm::new(2)
            .implementation(imp)
            .random_state(1)
            .n_iter(5)
            .fit(&seqs, Some(&[500]))
            .ok()
            .unwrap();
        assert_eq!(fitted.emission().n_symbols(), 3);

        let fitted5 = CategoricalHmm::new(2)
            .implementation(imp)
            .n_features(5)
            .random_state(1)
            .n_iter(5)
            .fit(&seqs, Some(&[500]))
            .ok()
            .unwrap();
        assert_eq!(fitted5.emission().n_symbols(), 5);

        let model = CategoricalHmm::new(2)
            .implementation(imp)
            .random_state(1)
            .build();
        assert_ll_increasing(model, &seqs, Some(&[500]), 10);
    }
}

#[test]
fn bad_emissionprob_rejected() {
    let built = CategoricalHmm::new(2)
        .n_features(3)
        .start_prob(vf(&[0.6, 0.4]))
        .trans_mat(mat(&[&[0.7, 0.3], &[0.4, 0.6]]))
        .emissionprob(empty(3))
        .into_fitted();
    assert!(matches!(built, Err(HmmError::DimensionMismatch(_))));
}

#[test]
fn categorical_score_samples_shape_and_normalization() {
    let mut rng: NumpyRandomState<F> = NumpyRandomState::new(7);
    let x = Matrix {
        rows: rng
            .randint(0, 3, 20)
            .unwrap()
            .iter()
            .map(|v| vec![F(*v as f64)])
            .collect(),
        ncols: 1,
    };
    for imp in IMPLS {
        let (_ll, post) = wiki(imp).score_samples(&x, None).unwrap();
        assert_eq!((post.rows.len(), post.ncols), (20, 2));
        assert_rows_sum_to_one(&post, 1e-12);
    }
}

#[test]
fn sample_shape_and_symbol_coverage() {
    for imp in IMPLS {
        let (x, states) = wiki(imp).sample(1000, Some(42), None).unwrap();
        assert_eq!(x.rows.len(), 1000);
        assert_eq!(x.ncols, 1);
        assert_eq!(states.len(), 1000);
        let unique: HashSet<i64> = x.rows.iter().flatten().map(|v| v.0 as i64).collect();
        assert_eq!(unique.len(), 3);
    }
}

#[test]
fn categorical_fit_increases_log_likelihood() {
    for imp in IMPLS {
        let (x, _) = wiki(imp).sample(100, Some(13), None).unwrap();
        let lengths = vec![10usize; 10];
        let model = CategoricalHmm::new(2)
            .implementation(imp)
            .random_state(2)
            .build();
        assert_ll_increasing(model, &x, Some(&lengths), 5);
        let model_e = CategoricalHmm::new(2)
            .implementation(imp)
            .params("e")
            .random_state(2)
            .build();
        assert_ll_increasing(model_e, &x, Some(&lengths), 5);
    }
}

#[test]
fn base_attributes_validation() {
    assert!(matches!(
        CategoricalHmm::new(2)
            .n_features(2)
            .start_prob(vf(&[1.2, 0.8]))
            .trans_mat(mat(&[&[0.5, 0.5], &[0.5, 0.5]]))
            .emissionprob(mat(&[&[0.5, 0.5], &[0.5, 0.5]]))
            .into_fitted(),
        Err(HmmError::InvalidParameter(_))
    ));
    assert!(matches!(
        CategoricalHmm::new(2)
            .n_features(2)
            .start_prob(vf(&[0.5, 0.5]))
            .trans_mat(empty(2))
            .emissionprob(mat(&[&[0.5, 0.5], &[0.5, 0.5]]))
            .into_fitted(),
        Err(HmmError::DimensionMismatch(_))
    ));
}

#[test]
fn sample_continuation_matches_currstate() {
    let h = wiki(Implementation::Log);
    let (_x0, z0) = h.sample(10, Some(5), None).unwrap();
    let last = z0[z0.len() - 1];
    let (_x, z) = h.sample(10, Some(5), Some(last)).unwrap();
    assert_eq!(z0.len(), 10);
    assert_eq!(z.len(), 10);
    assert_eq!(z[0], last);
}

#[test]
fn uniform_transmat_map_decode_is_per_row_argmax() {
    let h = CategoricalHmm::new(2)
        .n_features(3)
        .start_prob(vf(&[0.5, 0.5]))
        .trans_mat(mat(&[&[0.5, 0.5], &[0.5, 0.5]]))
        .emissionprob(mat(&[&[0.1, 0.4, 0.5], &[0.6, 0.3, 0.1]]))
        .into_fitted()
        .ok()
        .unwrap();
    let x = mat(&[&[0.0], &[1.0], &[2.0]]);
    let (_lp, seq) = h
        .decode(&x, None, Some(DecoderAlgorithm::Posterior))
        .unwrap();
    assert_eq!(seq, vec![1, 0, 0]);
}

#[test]
fn check_and_set_n_features_validation() {
    let mut em = CategoricalEm::new(2, None, None, F(1.0));
    assert!(em
        .check_and_set_n_features(&mat(&[
            &[0.0],
            &[0.0],
            &[2.0],
            &[1.0],
            &[3.0],
            &[1.0],
            &[1.0]
        ]))
        .is_ok());
    assert_eq!(em.n_symbols(), 4);
    let mut em2 = CategoricalEm::new(2, None, None, F(1.0));
    assert_eq!(
        em2.check_and_set_n_features(&mat(&[&[0.0], &[2.0], &[1.0], &[3.5]])),
        Err(HmmError::InvalidParameter(
            "Symbols should be integers".to_string()
        ))
    );
    let mut em3 = CategoricalEm::new(2, None, None, F(1.0));
    assert_eq!(
        em3.check_and_set_n_features(&mat(&[&[0.0], &[-2.0], &[1.0]])),
        Err(HmmError::InvalidParameter(
            "Symbols should be nonnegative".to_string()
        ))
    );
    let mut em4 = CategoricalEm::new(2, Some(2), None, F(1.0));
    assert_eq!(
        em4.check_and_set_n_features(&mat(&[&[0.0], &[4.0]])),
        Err(HmmError::InvalidParameter(
            "Largest symbol is 4 but the model only emits symbols up to 1".to_string()
        ))
    );
}

#[test]
fn unfitted_parameters_are_reported() {
    let built = CategoricalHmm::new(2)
        .n_features(2)
        .start_prob(vf(&[0.5, 0.5]))
        .trans_mat(mat(&[&[0.5, 0.5], &[0.5, 0.5]]))
        .into_fitted();
    assert!(matches!(built, Err(HmmError::NotFitted)));
    let no_start = CategoricalHmm::new(2)
        .trans_mat(mat(&[&[0.5, 0.5], &[0.5, 0.5]]))
        .emissionprob(mat(&[&[0.5, 0.5], &[0.5, 0.5]]))
        .into_fitted();
    assert!(matches!(no_start, Err(HmmError::NotFitted)));
    let no_transitions = CategoricalHmm::new(2)
        .start_prob(vf(&[0.5, 0.5]))
        .emissionprob(mat(&[&[0.5, 0.5], &[0.5, 0.5]]))
        .into_fitted();
    assert!(matches!(no_transitions, Err(HmmError::NotFitted)));
}

#[test]
fn lengths_must_cover_the_samples() {
    let x = mat(&[&[0.0], &[1.0], &[2.0]]);
    let h = wiki(Implementation::Log);
    assert_eq!(
        h.score(&x, Some(&[1, 1])),
        Err(HmmError::LengthsMismatch {
            total: 2,
            n_samples: 3
        })
    );
}

#[test]
fn scores_of_sequences_add_up() {
    let x = mat(&[&[0.0], &[1.0], &[2.0], &[2.0], &[1.0]]);
    let a = mat(&[&[0.0], &[1.0]]);
    let b = mat(&[&[2.0], &[2.0], &[1.0]]);
    for imp in IMPLS {
        let h = wiki(imp);
        let whole = h.score(&x, Some(&[2, 3])).unwrap().0;
        let parts = h.score(&a, None).unwrap().0 + h.score(&b, None).unwrap().0;
        assert!((whole - parts).abs() < 1e-12);
    }
}

#[test]
fn both_paths_score_alike() {
    let x = mat(&[&[0.0], &[1.0], &[2.0], &[2.0], &[1.0]]);
    let log = wiki(Implementation::Log).score(&x, None).unwrap().0;
    let scaling = wiki(Implementation::Scaling).score(&x, None).unwrap().0;
    assert!((log - scaling).abs() < 1e-12);
}

#[test]
fn criteria_of_the_preset_model() {
    let x = mat(&[&[0.0], &[1.0], &[2.0]]);
    let h = wiki(Implementation::Log);
    let ll = h.score(&x, None).unwrap().0;
    // One start, two transition and four emission scalars.
    assert!((h.aic(&x, None).unwrap().0 - (-2.0 * ll + 14.0)).abs() < 1e-12);
    assert!((h.bic(&x, None).unwrap().0 - (-2.0 * ll + 7.0 * 3.0_f64.ln())).abs() < 1e-12);
}

#[test]
fn stationary_distribution_of_the_model() {
    let pi = wiki(Implementation::Log).stationary_distribution().unwrap();
    assert!((pi[0].0 - 4.0 / 7.0).abs() < 1e-12);
    assert!((pi[1].0 - 3.0 / 7.0).abs() < 1e-12);
}

#[test]
fn fitting_reports_its_history() {
    let (x, _) = wiki(Implementation::Log).sample(60, Some(3), None).unwrap();
    let fitted = CategoricalHmm::new(2)
        .random_state(2)
        .n_iter(4)
        .tol(F(0.0))
        .verbose(true)
        .fit(&x, None)
        .ok()
        .unwrap();
    assert_eq!(fitted.monitor().history.len(), fitted.monitor().iter);
    assert!(fitted.monitor().iter <= 4);
    let inner = fitted.into_inner();
    assert!(inner.notes.len() >= inner.monitor.iter);
}

#[test]
fn running_sums_and_first_above() {
    let cdf = cumsum(&vf(&[0.25, 0.25, 0.5]));
    assert_eq!(cdf, vf(&[0.25, 0.5, 1.0]));
    assert_eq!(first_gt(&cdf, F(0.25)), 1);
    assert_eq!(first_gt(&cdf, F(0.9)), 2);
    // Where none is above, the last index is taken.
    assert_eq!(first_gt(&cdf, F(1.0)), 2);
    assert_eq!(argmax_row(&vf(&[0.1, 0.7, 0.7])), (1, F(0.7)));
}

#[test]
fn running_sums_along_both_axes() {
    let a = mat(&[&[1.0, 2.0], &[3.0, 4.0]]);
    assert_close(&cumsum_axis(&a, 0), &mat(&[&[1.0, 2.0], &[4.0, 6.0]]), 0.0);
    assert_close(&cumsum_axis(&a, 1), &mat(&[&[1.0, 3.0], &[3.0, 7.0]]), 0.0);
}

#[test]
fn every_row_gets_a_state_and_a_posterior() {
    let x = mat(&[&[0.0], &[1.0], &[2.0], &[2.0], &[1.0], &[0.0]]);
    let h = wiki(Implementation::Log);
    for lengths in [vec![6usize], vec![1, 2, 3], vec![5, 1]] {
        for a in [DecoderAlgorithm::Viterbi, DecoderAlgorithm::Posterior] {
            let (_, states) = h.decode(&x, Some(&lengths), Some(a)).unwrap();
            assert_eq!(states.len(), 6);
        }
        assert_eq!(h.predict_proba(&x, Some(&lengths)).unwrap().rows.len(), 6);
    }
}

#[test]
fn what_is_preset_is_not_initialised() {
    let x = mat(&[&[0.0], &[1.0]]);
    let emit = mat(&[&[0.3, 0.7], &[0.8, 0.2]]);
    let trans = mat(&[&[0.6, 0.4], &[0.1, 0.9]]);
    let f = CategoricalHmm::new(2)
        .start_prob(vf(&[0.9, 0.1]))
        .n_iter(0)
        .fit(&x, None)
        .ok()
        .unwrap();
    assert_eq!(f.start_prob(), &vf(&[0.9, 0.1]));
    let f = CategoricalHmm::new(2)
        .trans_mat(trans.duplicate())
        .emissionprob(emit.duplicate())
        .n_iter(0)
        .fit(&x, None)
        .ok()
        .unwrap();
    assert_eq!(f.trans_mat().rows, trans.rows);
    assert_eq!(f.emission().emissionprob().rows, emit.rows);
}

#[test]
fn lengths_are_looked_at_before_the_observations() {
    let mismatch = HmmError::LengthsMismatch {
        total: 0,
        n_samples: 2,
    };
    let bad = mat(&[&[0.5], &[-1.0]]);
    let r = CategoricalHmm::new(2).fit(&bad, Some(&[0, 0]));
    assert!(matches!(r, Err(e) if e == mismatch));
    let no_columns = Matrix {
        rows: vec![Vec::new(), Vec::new()],
        ncols: 0,
    };
    let r = CategoricalHmm::<F>::new(2).fit(&no_columns, Some(&[0]));
    assert!(matches!(r, Err(e) if e == mismatch));
    let h = wiki(Implementation::Log);
    assert_eq!(h.score(&bad, Some(&[0])).err(), Some(mismatch));
}

#[test]
fn the_first_bad_row_is_named() {
    let r = CategoricalHmm::new(3)
        .start_prob(vf(&[0.5, 0.5, 0.0]))
        .trans_mat(mat(&[&[0.5, 0.5, 0.0], &[0.5, 0.4, 0.0], &[0.1, 0.1, 0.1]]))
        .emissionprob(mat(&[&[0.5, 0.5], &[0.5, 0.5], &[0.5, 0.5]]))
        .into_fitted();
    assert_eq!(
        r.err(),
        Some(HmmError::InvalidParameter(
            "transmat_ row 1 must sum to 1 (got 0.9000)".to_string()
        ))
    );
    let r = CategoricalHmm::new(2)
        .start_prob(vf(&[0.5, 0.5]))
        .trans_mat(mat(&[&[0.5, 0.5], &[0.5, 0.5]]))
        .emissionprob(mat(&[&[0.5, 0.3], &[0.5, 0.1]]))
        .into_fitted();
    assert_eq!(
        r.err(),
        Some(HmmError::InvalidParameter(
            "emissionprob_ row 0 must sum to 1 (got 0.8000)".to_string()
        ))
    );
}

#[test]
fn joined_sequences_decode_as_single_ones() {
    let x = mat(&[&[0.0], &[1.0], &[2.0], &[2.0], &[1.0]]);
    let a = mat(&[&[0.0], &[1.0]]);
    let b = mat(&[&[2.0], &[2.0], &[1.0]]);
    for imp in IMPLS {
        let h = wiki(imp);
        for algorithm in [DecoderAlgorithm::Viterbi, DecoderAlgorithm::Posterior] {
            let (whole, states) = h.decode(&x, Some(&[2, 3]), Some(algorithm)).unwrap();
            let (la, mut sa) = h.decode(&a, None, Some(algorithm)).unwrap();
            let (lb, mut sb) = h.decode(&b, None, Some(algorithm)).unwrap();
            sa.append(&mut sb);
            assert_eq!(states, sa);
            assert!((whole.0 - (la.0 + lb.0)).abs() < 1e-12);
        }
    }
}

/// Require that the history never falls, up to rounding, and that the score of the
/// fitted model is not below its last entry.
fn assert_history_rises<E: EmissionModel<F>>(
    model: Hmm<F, E>,
    x: &Matrix<F>,
    lengths: Option<&[usize]>,
) {
    let fitted = model.fit(x, lengths).ok().unwrap();
    let history: Vec<f64> = fitted.monitor().history.iter().map(|v| v.0).collect();
    assert!(history.len() >= 3);
    for w in history.windows(2) {
        assert!(w[1] - w[0] > -1e-9, "{:?}", history);
    }
    let score = fitted.score(x, lengths).unwrap().0;
    assert!(score - history[history.len() - 1] > -1e-9);
}

#[test]
fn categorical_history_never_falls() {
    for imp in [Implementation::Log, Implementation::Scaling] {
        let (x, _) = wiki(imp).sample(60, Some(3), None).unwrap();
        let model = CategoricalHmm::new(2)
            .implementation(imp)
            .random_state(2)
            .n_iter(6)
            .tol(F(0.0))
            .build();
        assert_history_rises(model, &x, Some(&[20, 40]));
    }
}

#[test]
fn both_passes_find_the_same_posteriors() {
    let (x, _) = wiki(Implementation::Log).sample(25, Some(3), None).unwrap();
    let (log_score, log_post) = wiki(Implementation::Log).score_samples(&x, None).unwrap();
    let (score, post) = wiki(Implementation::Scaling).score_samples(&x, None).unwrap();
    assert!((log_score.0 - score.0).abs() < 1e-10);
    assert_close(&log_post, &post, 1e-12);
}
