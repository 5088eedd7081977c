use hmmlearn::covariance::{CovarStore, CovarianceType};
use hmmlearn::engine::{
    DecoderAlgorithm, EmissionModel, Fitted, Hmm, Implementation, ParamSet,
};
use hmmlearn::linalg::Dense;
use hmmlearn::matrix::{Cube, Matrix};
use hmmlearn::models::{
    CategoricalHmm, Dof, GaussianHmm, VariationalCategoricalHmm, VariationalGaussianHmm,
};
use hmmlearn::scalar::Scalar;
use hmmlearn::HmmError;
use nalgebra::{DMatrix, DVector, SymmetricEigen};

#[derive(Clone, Copy, Debug, PartialEq)]
struct F(f64);

impl Scalar for F {
    fn of_int(n: i128) -> F {
        F(n as f64)
    }
    fn decimal(digits: i64, exponent: i32) -> F {
        F(format!("{}e{}", digits, exponent).parse().unwrap())
    }
    fn pos_inf() -> F {
        F(f64::INFINITY)
    }
    fn neg_inf() -> F {
        F(f64::NEG_INFINITY)
    }
    fn nan() -> F {
        F(f64::NAN)
    }
    fn pi() -> F {
        F(std::f64::consts::PI)
    }
    fn plus(self, o: F) -> F {
        F(self.0 + o.0)
    }
    fn minus(self, o: F) -> F {
        F(self.0 - o.0)
    }
    fn times(self, o: F) -> F {
        F(self.0 * o.0)
    }
    fn over(self, o: F) -> F {
        F(self.0 / o.0)
    }
    fn below(self, o: F) -> bool {
        self.0 < o.0
    }
    fn same(self, o: F) -> bool {
        self.0 == o.0
    }
    fn signum(self) -> F {
        F(self.0.signum())
    }
    fn ln(self) -> F {
        F(self.0.ln())
    }
    fn ln_1p(self) -> F {
        F(self.0.ln_1p())
    }
    fn exp(self) -> F {
        F(self.0.exp())
    }
    fn sqrt(self) -> F {
        F(self.0.sqrt())
    }
    fn mul_add(self, a: F, b: F) -> F {
        F(self.0.mul_add(a.0, b.0))
    }
    fn pow(self, e: F) -> F {
        F(self.0.powf(e.0))
    }
    fn floor(self) -> F {
        F(self.0.floor())
    }
    fn fract(self) -> F {
        F(self.0.fract())
    }
    fn to_int(self) -> i64 {
        self.0 as i64
    }
    fn ln_gamma(self) -> F {
        F(libm::lgamma(self.0))
    }
    fn text(self, places: Option<usize>, plus: bool) -> String {
        match (places, plus) {
            (Some(p), true) => format!("{:+.*}", p, self.0),
            (Some(p), false) => format!("{:.*}", p, self.0),
            (None, true) => format!("{:+}", self.0),
            (None, false) => format!("{}", self.0),
        }
    }
}

fn to_na(a: &Matrix<F>) -> DMatrix<f64> {
    DMatrix::from_fn(a.rows.len(), a.ncols, |i, j| a.rows[i][j].0)
}

fn from_na(m: &DMatrix<f64>) -> Matrix<F> {
    let rows: Vec<Vec<F>> = (0..m.nrows())
        .map(|i| (0..m.ncols()).map(|j| F(m[(i, j)])).collect())
        .collect();
    Matrix {
        rows,
        ncols: m.ncols(),
    }
}

impl Dense for F {
    fn cholesky(a: &Matrix<F>) -> Option<Matrix<F>> {
        nalgebra::Cholesky::new(to_na(a)).map(|c| from_na(&c.l()))
    }
    fn eigenvalues(a: &Matrix<F>) -> Vec<F> {
        SymmetricEigen::new(to_na(a))
            .eigenvalues
            .iter()
            .map(|v| F(*v))
            .collect()
    }
    fn determinant(a: &Matrix<F>) -> F {
        F(to_na(a).determinant())
    }
    fn inverse(a: &Matrix<F>) -> Option<Matrix<F>> {
        to_na(a).try_inverse().map(|m| from_na(&m))
    }
    fn solve(a: &Matrix<F>, b: &Vec<F>) -> Option<Vec<F>> {
        let rhs = DVector::from_iterator(b.len(), b.iter().map(|v| v.0));
        to_na(a)
            .lu()
            .solve(&rhs)
            .map(|v| v.iter().map(|x| F(*x)).collect())
    }
}

fn vf(v: &[f64]) -> Vec<F> {
    v.iter().map(|x| F(*x)).collect()
}

fn mat(rows: &[&[f64]]) -> Matrix<F> {
    Matrix {
        rows: rows.iter().map(|r| vf(r)).collect(),
        ncols: rows[0].len(),
    }
}

fn assert_close(a: &Matrix<F>, b: &Matrix<F>, eps: f64) {
    assert_eq!(a.rows.len(), b.rows.len());
    assert_eq!(a.ncols, b.ncols);
    for i in 0..a.rows.len() {
        for j in 0..a.ncols {
            let (x, y) = (a.rows[i][j].0, b.rows[i][j].0);
            assert!((x - y).abs() <= eps, "({}, {}): {} vs {}", i, j, x, y);
        }
    }
}

/// Fit one iteration at a time, without initialising again, and require at least
/// one improvement of the log-likelihood above rounding.
fn assert_ll_increasing<E: EmissionModel<F>>(
    mut model: Hmm<F, E>,
    x: &Matrix<F>,
    lengths: Option<&[usize]>,
    n_iter: usize,
) {
    model.n_iter = 1;
    model.init_params = ParamSet::empty();
    let mut lls: Vec<f64> = Vec::new();
    let mut fitted = model.fit(x, lengths).ok().unwrap();
    lls.push(fitted.score(x, lengths).unwrap().0);
    for _ in 1..n_iter {
        fitted = fitted.into_inner().fit(x, lengths).ok().unwrap();
        lls.push(fitted.score(x, lengths).unwrap().0);
    }
    let eps_sqrt = f64::EPSILON.sqrt();
    let diff_max = lls
        .windows(2)
        .map(|w| w[1] - w[0])
        .fold(f64::NEG_INFINITY, f64::max);
    assert!(diff_max > eps_sqrt, "{:?}", lls);
}

const IMPLS: [Implementation; 2] = [Implementation::Log, Implementation::Scaling];
const TYPES: [CovarianceType; 4] = [
    CovarianceType::Spherical,
    CovarianceType::Diag,
    CovarianceType::Tied,
    CovarianceType::Full,
];
const ALGORITHMS: [DecoderAlgorithm; 2] =
    [DecoderAlgorithm::Viterbi, DecoderAlgorithm::Posterior];

fn square(n: usize, v: f64) -> Matrix<F> {
    Matrix {
        rows: vec![vec![F(v); n]; n],
        ncols: n,
    }
}

fn beal_data(seed: u32, n_seq: usize, length: usize) -> (Matrix<F>, Vec<usize>) {
    let third = 1.0 / 3.0;
    let gen = CategoricalHmm::new(3)
        .n_features(3)
        .start_prob(vf(&[third, third, third]))
        .trans_mat(mat(&[&[0.0, 1.0, 0.0], &[0.0, 0.0, 1.0], &[1.0, 0.0, 0.0]]))
        .emissionprob(mat(&[&[1.0, 0.0, 0.0], &[0.0, 1.0, 0.0], &[0.0, 0.0, 1.0]]))
        .into_fitted()
        .ok()
        .unwrap();
    let mut rows: Vec<Vec<F>> = Vec::new();
    let mut lengths: Vec<usize> = Vec::new();
    for i in 0..n_seq {
        let (x, _) = gen.sample(length, Some(seed + i as u32), None).unwrap();
        rows.extend(x.rows);
        lengths.push(length);
    }
    (Matrix { rows, ncols: 1 }, lengths)
}

fn sample_data(ct: CovarianceType, n: usize, seed: u32) -> Matrix<F> {
    let m: &[&[f64]] = &[&[1.2, 0.2, 0.0], &[0.2, 1.0, 0.1], &[0.0, 0.1, 0.9]];
    let covars = match ct {
        CovarianceType::Spherical => CovarStore::Spherical(vf(&[1.0, 1.5, 0.8])),
        CovarianceType::Diag => CovarStore::Diag(mat(&[
            &[1.0, 1.2, 0.9],
            &[0.8, 1.1, 1.3],
            &[1.4, 0.7, 1.0],
        ])),
        CovarianceType::Tied => CovarStore::Tied(mat(m)),
        CovarianceType::Full => CovarStore::Full(Cube {
            items: vec![mat(m), mat(m), mat(m)],
            nrows: 3,
            ncols: 3,
        }),
    };
    let third = 1.0 / 3.0;
    GaussianHmm::new(3)
        .covariance_type(ct)
        .start_prob(vf(&[third, third, third]))
        .trans_mat(mat(&[&[0.7, 0.2, 0.1], &[0.1, 0.7, 0.2], &[0.2, 0.1, 0.7]]))
        .means(mat(&[
            &[0.0, 0.0, 0.0],
            &[12.0, 12.0, 12.0],
            &[24.0, 0.0, 12.0],
        ]))
        .covars(covars)
        .into_fitted()
        .ok()
        .unwrap()
        .sample(n, Some(seed), None)
        .unwrap()
        .0
}

fn assert_same_decisions<E: EmissionModel<F>, G: EmissionModel<F>>(
    a: &Fitted<F, E>,
    b: &Fitted<F, G>,
    x: &Matrix<F>,
    lengths: &[usize],
) {
    let sa = a.score(x, Some(lengths)).unwrap().0;
    let sb = b.score(x, Some(lengths)).unwrap().0;
    assert!((sa - sb).abs() < 1e-9, "{} vs {}", sa, sb);
    for algo in ALGORITHMS {
        let (la, pa) = a.decode(x, Some(lengths), Some(algo)).unwrap();
        let (lb, pb) = b.decode(x, Some(lengths), Some(algo)).unwrap();
        assert!((la.0 - lb.0).abs() < 1e-9);
        assert_eq!(pa, pb);
    }
}

fn assert_same_samples<E: EmissionModel<F>, G: EmissionModel<F>>(
    a: &Fitted<F, E>,
    b: &Fitted<F, G>,
) {
    let (xa, za) = a.sample(100, Some(42), None).unwrap();
    let (xb, zb) = b.sample(100, Some(42), None).unwrap();
    assert_eq!(za, zb);
    assert_close(&xa, &xb, 0.0);
}

#[test]
fn fit_increases_lower_bound() {
    for imp in IMPLS {
        let (x, lengths) = beal_data(1984, 7, 100);
        let model = VariationalCategoricalHmm::new(4)
            .implementation(imp)
            .random_state(1984)
            .build();
        assert_ll_increasing(model, &x, Some(&lengths), 10);
    }
}

#[test]
fn n_features_inferred() {
    let (x, lengths) = beal_data(7, 5, 50);
    let fitted = VariationalCategoricalHmm::new(3)
        .random_state(1)
        .n_iter(20)
        .fit(&x, Some(&lengths))
        .ok()
        .unwrap();
    assert_eq!(fitted.emission().emissionprob().ncols, 3);
}

#[test]
fn categorical_log_and_scaling_agree() {
    let (x, lengths) = beal_data(2024, 5, 60);
    let score = |imp| {
        VariationalCategoricalHmm::new(3)
            .implementation(imp)
            .random_state(11)
            .n_iter(30)
            .fit(&x, Some(&lengths))
            .ok()
            .unwrap()
            .score(&x, Some(&lengths))
            .unwrap()
            .0
    };
    let log: f64 = score(Implementation::Log);
    let scaling: f64 = score(Implementation::Scaling);
    assert!((log - scaling).abs() < 1e-6, "{} vs {}", log, scaling);
}

#[test]
fn fit_length_one_sequences() {
    let (x, _) = beal_data(3, 1, 30);
    let lengths = vec![1usize; 30];
    assert!(VariationalCategoricalHmm::new(2)
        .random_state(1)
        .n_iter(10)
        .fit(&x, Some(&lengths))
        .is_ok());
}

#[test]
fn categorical_matches_em_model_at_posterior() {
    for imp in IMPLS {
        let (x, lengths) = beal_data(1984, 7, 100);
        let total: usize = lengths.iter().sum();
        let nc = 4;
        let uniform = 1.0 / nc as f64;
        let vi = VariationalCategoricalHmm::new(nc)
            .n_features(3)
            .implementation(imp)
            .init_params("e")
            .random_state(1984)
            .n_iter(500)
            .startprob_prior(vec![F(uniform); nc])
            .startprob_posterior(vec![F(uniform * lengths.len() as f64); nc])
            .transmat_prior(square(nc, uniform))
            .transmat_posterior(square(nc, uniform * total as f64))
            .fit(&x, Some(&lengths))
            .ok()
            .unwrap();
        let unused = vi
            .emission()
            .emissionprob()
            .rows
            .iter()
            .any(|r| r.iter().all(|p| (p.0 - 1.0 / 3.0).abs() < 1e-2));
        assert!(unused);
        let em = CategoricalHmm::new(nc)
            .n_features(3)
            .start_prob(vi.start_prob().clone())
            .trans_mat(vi.trans_mat().duplicate())
            .emissionprob(vi.emission().emissionprob().duplicate())
            .into_fitted()
            .ok()
            .unwrap();
        assert_same_decisions(&vi, &em, &x, &lengths);
        assert_close(
            &vi.predict_proba(&x, Some(&lengths)).unwrap(),
            &em.predict_proba(&x, Some(&lengths)).unwrap(),
            1e-9,
        );
        assert_same_samples(&vi, &em);
    }
}

#[test]
fn random_fit_increases_log_likelihood() {
    for ct in TYPES {
        for imp in IMPLS {
            let x = sample_data(ct, 500, 7);
            let model = VariationalGaussianHmm::new(3)
                .covariance_type(ct)
                .implementation(imp)
                .random_state(1)
                .n_iter(50)
                .tol(F(1e-9))
                .build();
            assert_ll_increasing(model, &x, Some(&[100; 5]), 10);
        }
    }
}

#[test]
fn gaussian_log_and_scaling_agree() {
    for ct in TYPES {
        let x = sample_data(ct, 400, 13);
        let lengths = [80usize; 5];
        let score = |imp| {
            VariationalGaussianHmm::new(3)
                .covariance_type(ct)
                .implementation(imp)
                .random_state(5)
                .n_iter(40)
                .tol(F(1e-9))
                .fit(&x, Some(&lengths))
                .ok()
                .unwrap()
                .score(&x, Some(&lengths))
                .unwrap()
                .0
        };
        let log: f64 = score(Implementation::Log);
        let scaling: f64 = score(Implementation::Scaling);
        assert!((log - scaling).abs() < 1e-6, "{} vs {}", log, scaling);
    }
}

#[test]
fn gaussian_matches_em_model_at_posterior() {
    for ct in TYPES {
        for imp in IMPLS {
            let x = sample_data(ct, 300, 21);
            let lengths = [60usize; 5];
            let vi = VariationalGaussianHmm::new(3)
                .covariance_type(ct)
                .implementation(imp)
                .random_state(3)
                .n_iter(30)
                .tol(F(1e-9))
                .fit(&x, Some(&lengths))
                .ok()
                .unwrap();
            let em = GaussianHmm::new(3)
                .covariance_type(ct)
                .implementation(imp)
                .start_prob(vi.start_prob().clone())
                .trans_mat(vi.trans_mat().duplicate())
                .means(vi.emission().means_posterior().duplicate())
                .covars(vi.emission().covars().duplicate())
                .into_fitted()
                .ok()
                .unwrap();
            assert_same_decisions(&vi, &em, &x, &lengths);
            assert_same_samples(&vi, &em);
        }
    }
}

#[test]
fn variational_gaussian_fit_sequences_of_different_length() {
    for ct in TYPES {
        let x = sample_data(ct, 60, 4);
        assert!(VariationalGaussianHmm::new(3)
            .covariance_type(ct)
            .random_state(1)
            .n_iter(5)
            .fit(&x, Some(&[15, 20, 25]))
            .is_ok());
    }
}

#[test]
fn mcgrory_titterington_matches_em() {
    let gen = GaussianHmm::new(4)
        .covariance_type(CovarianceType::Diag)
        .start_prob(vf(&[0.25, 0.25, 0.25, 0.25]))
        .trans_mat(mat(&[
            &[0.2, 0.2, 0.3, 0.3],
            &[0.3, 0.2, 0.2, 0.3],
            &[0.2, 0.3, 0.3, 0.2],
            &[0.3, 0.3, 0.2, 0.2],
        ]))
        .means(mat(&[&[-1.5], &[0.0], &[1.5], &[3.0]]))
        .covars(CovarStore::Diag(mat(&[&[0.25], &[0.25], &[0.25], &[0.25]])))
        .into_fitted()
        .ok()
        .unwrap();
    let x = gen.sample(500, Some(234234), None).unwrap().0;
    let lengths = [500usize];
    for ct in [CovarianceType::Full, CovarianceType::Diag] {
        for imp in IMPLS {
            let nc = 5;
            let uniform = 1.0 / nc as f64;
            let vi = VariationalGaussianHmm::new(nc)
                .covariance_type(ct)
                .implementation(imp)
                .init_params("mc")
                .random_state(234234)
                .n_iter(60)
                .tol(F(1e-9))
                .startprob_prior(vec![F(uniform); nc])
                .startprob_posterior(vec![F(uniform * lengths.len() as f64); nc])
                .transmat_prior(square(nc, uniform))
                .transmat_posterior(square(nc, uniform * 500.0))
                .fit(&x, Some(&lengths))
                .ok()
                .unwrap();
            let em = GaussianHmm::new(nc)
                .covariance_type(ct)
                .implementation(imp)
                .start_prob(vi.start_prob().clone())
                .trans_mat(vi.trans_mat().duplicate())
                .means(vi.emission().means_posterior().duplicate())
                .covars(vi.emission().covars().duplicate())
                .into_fitted()
                .ok()
                .unwrap();
            assert_same_decisions(&vi, &em, &x, &lengths);
        }
    }
}

#[test]
fn degrees_of_freedom_must_fit_the_type() {
    let x = sample_data(CovarianceType::Diag, 30, 4);
    let r = VariationalGaussianHmm::new(3)
        .covariance_type(CovarianceType::Diag)
        .random_state(1)
        .dof_prior(Dof::Tied(F(3.0)))
        .fit(&x, None);
    assert_eq!(
        r.err().unwrap(),
        HmmError::DimensionMismatch("dof has the wrong shape for covariance_type".to_string())
    );
    let r = VariationalGaussianHmm::new(3)
        .covariance_type(CovarianceType::Diag)
        .random_state(1)
        .scale_prior(CovarStore::Spherical(vf(&[1.0, 1.0, 1.0])))
        .fit(&x, None);
    assert_eq!(
        r.err().unwrap(),
        HmmError::DimensionMismatch("scale has the wrong shape for covariance_type".to_string())
    );
    let r = VariationalGaussianHmm::new(3)
        .random_state(1)
        .beta_prior(vf(&[1.0]))
        .fit(&x, None);
    assert_eq!(
        r.err().unwrap(),
        HmmError::DimensionMismatch(
            "beta prior/posterior must have length n_components".to_string()
        )
    );
    let r = VariationalGaussianHmm::new(3)
        .random_state(1)
        .means_prior(mat(&[&[0.0, 0.0, 0.0]]))
        .fit(&x, None);
    assert_eq!(
        r.err().unwrap(),
        HmmError::DimensionMismatch(
            "means prior/posterior must have shape (n_components, n_features)".to_string()
        )
    );
}

#[test]
fn one_variational_step_by_hand() {
    // One state sees everything, so the posteriors follow from the priors.
    let x = mat(&[&[1.0], &[3.0], &[8.0]]);
    let fitted = VariationalGaussianHmm::new(1)
        .covariance_type(CovarianceType::Diag)
        .random_state(1)
        .n_iter(1)
        .means_prior(mat(&[&[2.0]]))
        .beta_prior(vf(&[2.0]))
        .dof_prior(Dof::PerComponent(vf(&[4.0])))
        .scale_prior(CovarStore::Diag(mat(&[&[0.5]])))
        .fit(&x, None)
        .ok()
        .unwrap();
    let mean = (2.0 * 2.0 + 12.0) / 5.0;
    assert!((fitted.emission().means_posterior().rows[0][0].0 - mean).abs() < 1e-12);
    let scale = 0.5 + 74.0 + 2.0 * 4.0 - 5.0 * mean * mean;
    let var = fitted.emission().covars().covariance_of(0, 1).rows[0][0].0;
    assert!((var - scale / 7.0).abs() < 1e-12);
}

#[test]
fn largest_symbol_is_limited() {
    let r = VariationalCategoricalHmm::new(2)
        .n_features(2)
        .random_state(1)
        .fit(&mat(&[&[0.0], &[3.0]]), None);
    assert_eq!(
        r.err().unwrap(),
        HmmError::InvalidParameter(
            "Largest symbol is 3 but the model only emits up to 1".to_string()
        )
    );
}

#[test]
fn given_priors_and_posteriors_are_kept() {
    let x = mat(&[&[0.0], &[1.0], &[0.0]]);
    let f = VariationalCategoricalHmm::new(2)
        .startprob_prior(vf(&[3.0, 4.0]))
        .transmat_prior(mat(&[&[1.0, 2.0], &[3.0, 4.0]]))
        .startprob_posterior(vf(&[6.0, 2.0]))
        .n_iter(0)
        .fit(&x, None)
        .ok()
        .unwrap();
    let v = f.into_inner().inference;
    assert_eq!(v.startprob_prior, vf(&[3.0, 4.0]));
    assert_eq!(v.transmat_prior.rows, mat(&[&[1.0, 2.0], &[3.0, 4.0]]).rows);
    assert_eq!(v.startprob_posterior, vf(&[6.0, 2.0]));
    assert_eq!(v.startprob, vf(&[0.75, 0.25]));
    // Three samples over two states: every drawn row adds up to 1.5.
    for row in v.transmat_posterior.rows.iter() {
        assert!((row[0].0 + row[1].0 - 1.5).abs() < 1e-12);
    }
}

#[test]
fn scale_priors_of_the_wrong_shape_are_reported() {
    let x = mat(&[&[0.0, 1.0], &[1.0, 0.0], &[4.0, 4.0]]);
    let r = VariationalGaussianHmm::new(2)
        .covariance_type(CovarianceType::Diag)
        .scale_prior(CovarStore::Diag(mat(&[&[1.0]])))
        .fit(&x, None);
    assert_eq!(
        r.err(),
        Some(HmmError::DimensionMismatch(
            "scale has the wrong shape for covariance_type".to_string()
        ))
    );
}

#[test]
fn preset_posterior_means_are_kept() {
    let x = mat(&[&[0.0], &[1.0], &[5.0]]);
    let f = VariationalGaussianHmm::new(2)
        .means_posterior(mat(&[&[7.0], &[8.0]]))
        .beta_posterior(vf(&[2.0, 3.0]))
        .n_iter(0)
        .fit(&x, None)
        .ok()
        .unwrap();
    assert_eq!(
        f.emission().means_posterior().rows,
        mat(&[&[7.0], &[8.0]]).rows
    );
    let again = f.clone();
    assert_eq!(again.into_inner().emission.beta_posterior, Some(vf(&[2.0, 3.0])));
    assert_eq!(f.into_inner().emission.beta_prior, Some(vf(&[1.0, 1.0])));
}

#[test]
fn scale_priors_may_cover_more_states() {
    let x = mat(&[&[0.0], &[1.0], &[5.0], &[6.0]]);
    let fit = |s: Vec<F>| {
        VariationalGaussianHmm::new(2)
            .covariance_type(CovarianceType::Spherical)
            .scale_prior(CovarStore::Spherical(s))
            .random_state(1)
            .n_iter(2)
            .fit(&x, None)
            .ok()
            .unwrap()
    };
    let snug = fit(vf(&[0.5, 0.25]));
    let spare = fit(vf(&[0.5, 0.25, 9.0]));
    assert_eq!(*snug.emission().covars(), *spare.emission().covars());
}
