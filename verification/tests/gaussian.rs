use hmmlearn::covariance::{CovarStore, CovarianceType};
use hmmlearn::engine::{Fitted, Implementation};
use hmmlearn::linalg::Dense;
use hmmlearn::matrix::{Cube, Matrix};
use hmmlearn::models::{GaussianEm, GaussianHmm};
use hmmlearn::rng::NumpyRandomState;
use hmmlearn::scalar::Scalar;
use hmmlearn::util::{normalize1, normalize_axis};
use hmmlearn::HmmError;
use nalgebra::{DMatrix, DVector, SymmetricEigen};

#[derive(Clone, Copy, Debug, PartialEq)]
struct F(f64);

impl Scalar for F {
    fn of_int(n: i128) -> F {
        F(n as f64)
    }
    fn decimal(digits: i64, exponent: i32) -> F {
        F(format!("{}e{}", digits, exponent).parse().unwrap())
    }
    fn pos_inf() -> F {
        F(f64::INFINITY)
    }
    fn neg_inf() -> F {
        F(f64::NEG_INFINITY)
    }
    fn nan() -> F {
        F(f64::NAN)
    }
    fn pi() -> F {
        F(std::f64::consts::PI)
    }
    fn plus(self, o: F) -> F {
        F(self.0 + o.0)
    }
    fn minus(self, o: F) -> F {
        F(self.0 - o.0)
    }
    fn times(self, o: F) -> F {
        F(self.0 * o.0)
    }
    fn over(self, o: F) -> F {
        F(self.0 / o.0)
    }
    fn below(self, o: F) -> bool {
        self.0 < o.0
    }
    fn same(self, o: F) -> bool {
        self.0 == o.0
    }
    fn signum(self) -> F {
        F(self.0.signum())
    }
    fn ln(self) -> F {
        F(self.0.ln())
    }
    fn ln_1p(self) -> F {
        F(self.0.ln_1p())
    }
    fn exp(self) -> F {
        F(self.0.exp())
    }
    fn sqrt(self) -> F {
        F(self.0.sqrt())
    }
    fn mul_add(self, a: F, b: F) -> F {
        F(self.0.mul_add(a.0, b.0))
    }
    fn pow(self, e: F) -> F {
        F(self.0.powf(e.0))
    }
    fn floor(self) -> F {
        F(self.0.floor())
    }
    fn fract(self) -> F {
        F(self.0.fract())
    }
    fn to_int(self) -> i64 {
        self.0 as i64
    }
    fn ln_gamma(self) -> F {
        F(libm::lgamma(self.0))
    }
    fn text(self, places: Option<usize>, plus: bool) -> String {
        match (places, plus) {
            (Some(p), true) => format!("{:+.*}", p, self.0),
            (Some(p), false) => format!("{:.*}", p, self.0),
            (None, true) => format!("{:+}", self.0),
            (None, false) => format!("{}", self.0),
        }
    }
}

fn to_na(a: &Matrix<F>) -> DMatrix<f64> {
    DMatrix::from_fn(a.rows.len(), a.ncols, |i, j| a.rows[i][j].0)
}

fn from_na(m: &DMatrix<f64>) -> Matrix<F> {
    let rows: Vec<Vec<F>> = (0..m.nrows())
        .map(|i| (0..m.ncols()).map(|j| F(m[(i, j)])).collect())
        .collect();
    Matrix {
        rows,
        ncols: m.ncols(),
    }
}

impl Dense for F {
    fn cholesky(a: &Matrix<F>) -> Option<Matrix<F>> {
        nalgebra::Cholesky::new(to_na(a)).map(|c| from_na(&c.l()))
    }
    fn eigenvalues(a: &Matrix<F>) -> Vec<F> {
        SymmetricEigen::new(to_na(a))
            .eigenvalues
            .iter()
            .map(|v| F(*v))
            .collect()
    }
    fn determinant(a: &Matrix<F>) -> F {
        F(to_na(a).determinant())
    }
    fn inverse(a: &Matrix<F>) -> Option<Matrix<F>> {
        to_na(a).try_inverse().map(|m| from_na(&m))
    }
    fn solve(a: &Matrix<F>, b: &Vec<F>) -> Option<Vec<F>> {
        let rhs = DVector::from_iterator(b.len(), b.iter().map(|v| v.0));
        to_na(a)
            .lu()
            .solve(&rhs)
            .map(|v| v.iter().map(|x| F(*x)).collect())
    }
}

fn vf(v: &[f64]) -> Vec<F> {
    v.iter().map(|x| F(*x)).collect()
}

fn mat(rows: &[&[f64]]) -> Matrix<F> {
    Matrix {
        rows: rows.iter().map(|r| vf(r)).collect(),
        ncols: rows[0].len(),
    }
}

fn flat(n: usize, m: usize, v: Vec<F>) -> Matrix<F> {
    Matrix {
        rows: v.chunks(m).take(n).map(|r| r.to_vec()).collect(),
        ncols: m,
    }
}

fn assert_rows_sum_to_one(post: &Matrix<F>, eps: f64) {
    for row in post.rows.iter() {
        let s: f64 = row.iter().map(|v| v.0).sum();
        assert!((s - 1.0).abs() < eps, "{}", s);
    }
}

const IMPLS: [Implementation; 2] = [Implementation::Log, Implementation::Scaling];
const TYPES: [CovarianceType; 4] = [
    CovarianceType::Spherical,
    CovarianceType::Diag,
    CovarianceType::Tied,
    CovarianceType::Full,
];

struct Fixture {
    startprob: Vec<F>,
    transmat: Matrix<F>,
    means: Matrix<F>,
    covars: CovarStore<F>,
}

fn times(m: &Matrix<F>, k: f64) -> Matrix<F> {
    Matrix {
        rows: m
            .rows
            .iter()
            .map(|r| r.iter().map(|v| F(v.0 * k)).collect())
            .collect(),
        ncols: m.ncols,
    }
}

fn spd(nf: usize, rng: &mut NumpyRandomState<F>) -> Matrix<F> {
    let a = flat(nf, nf, rng.random_sample_n(nf * nf));
    let mut rows: Vec<Vec<F>> = Vec::new();
    for i in 0..nf {
        let mut row: Vec<F> = Vec::new();
        for j in 0..nf {
            let mut s: f64 = (0..nf).map(|k| a.rows[i][k].0 * a.rows[j][k].0).sum();
            if i == j {
                s += nf as f64;
            }
            row.push(F(s));
        }
        rows.push(row);
    }
    Matrix { rows, ncols: nf }
}

fn make_covar_matrix(
    ct: CovarianceType,
    nc: usize,
    nf: usize,
    rng: &mut NumpyRandomState<F>,
) -> CovarStore<F> {
    let mincv = 0.1;
    let square = |u: &F| {
        let v = mincv + mincv * u.0;
        F(v * v)
    };
    let floored = |mut m: Matrix<F>| {
        for d in 0..nf {
            m.rows[d][d] = F(m.rows[d][d].0 + mincv);
        }
        m
    };
    match ct {
        CovarianceType::Spherical => {
            CovarStore::Spherical(rng.random_sample_n(nc).iter().map(square).collect())
        }
        CovarianceType::Diag => CovarStore::Diag(flat(
            nc,
            nf,
            rng.random_sample_n(nc * nf).iter().map(square).collect(),
        )),
        CovarianceType::Tied => CovarStore::Tied(floored(spd(nf, rng))),
        CovarianceType::Full => {
            let mut items: Vec<Matrix<F>> = Vec::new();
            for _ in 0..nc {
                items.push(floored(spd(nf, rng)));
            }
            CovarStore::Full(Cube {
                items,
                nrows: nf,
                ncols: nf,
            })
        }
    }
}

fn fixture(ct: CovarianceType) -> Fixture {
    let nc = 3;
    let nf = 3;
    let mut rng: NumpyRandomState<F> = NumpyRandomState::new(10);
    let mut startprob = rng.random_sample_n(nc);
    normalize1(&mut startprob);
    let mut transmat = flat(nc, nc, rng.random_sample_n(nc * nc));
    normalize_axis(&mut transmat, 1);
    let means_i = rng.randint(-20, 20, nc * nf).unwrap();
    let means = flat(nc, nf, means_i.iter().map(|v| F(*v as f64)).collect());
    let covars = make_covar_matrix(ct, nc, nf, &mut rng);
    Fixture {
        startprob,
        transmat,
        means,
        covars,
    }
}

fn preset(ct: CovarianceType, imp: Implementation, factor: f64) -> Fitted<F, GaussianEm<F>> {
    let fx = fixture(ct);
    GaussianHmm::new(3)
        .covariance_type(ct)
        .implementation(imp)
        .start_prob(fx.startprob)
        .trans_mat(fx.transmat)
        .means(times(&fx.means, factor))
        .covars(fx.covars)
        .into_fitted()
        .ok()
        .unwrap()
}

fn identity_covars(ct: CovarianceType, nc: usize, nf: usize) -> CovarStore<F> {
    let eye = Matrix {
        rows: (0..nf)
            .map(|i| (0..nf).map(|j| F(if i == j { 1.0 } else { 0.0 })).collect())
            .collect(),
        ncols: nf,
    };
    match ct {
        CovarianceType::Spherical => CovarStore::Spherical(vec![F(1.0); nc]),
        CovarianceType::Diag => CovarStore::Diag(flat(nc, nf, vec![F(1.0); nc * nf])),
        CovarianceType::Tied => CovarStore::Tied(eye),
        CovarianceType::Full => CovarStore::Full(Cube {
            items: (0..nc).map(|_| eye.duplicate()).collect(),
            nrows: nf,
            ncols: nf,
        }),
    }
}

fn clustered_data(means: &Matrix<F>, per_state: usize, seed: u32) -> Matrix<F> {
    let mut rng: NumpyRandomState<F> = NumpyRandomState::new(seed);
    let mut rows: Vec<Vec<F>> = Vec::new();
    for mean in means.rows.iter() {
        for _ in 0..per_state {
            rows.push(
                mean.iter()
                    .map(|m| F(m.0 + rng.standard_normal().unwrap().0))
                    .collect(),
            );
        }
    }
    Matrix {
        rows,
        ncols: means.ncols,
    }
}

#[test]
fn score_samples_and_decode_recovers_states() {
    for ct in TYPES {
        for imp in IMPLS {
            let means20 = times(&fixture(ct).means, 20.0);
            let per_state = 5;
            let x = clustered_data(&means20, per_state, 99);
            let gaussidx: Vec<usize> = (0..3 * per_state).map(|i| i / per_state).collect();
            let h = preset(ct, imp, 20.0);
            let (_ll, post) = h.score_samples(&x, None).unwrap();
            assert_eq!((post.rows.len(), post.ncols), (15, 3));
            assert_rows_sum_to_one(&post, 1e-9);
            let (_vll, seq) = h.decode(&x, None, None).unwrap();
            assert_eq!(seq, gaussidx);
        }
    }
}

#[test]
fn sample_has_correct_shape() {
    for ct in TYPES {
        let fx = fixture(ct);
        let covars = match fx.covars {
            CovarStore::Spherical(s) => {
                CovarStore::Spherical(s.iter().map(|v| F(v.0.max(0.1))).collect())
            }
            other => other,
        };
        let h = GaussianHmm::new(3)
            .covariance_type(ct)
            .start_prob(fx.startprob)
            .trans_mat(fx.transmat)
            .means(times(&fx.means, 20.0))
            .covars(covars)
            .into_fitted()
            .ok()
            .unwrap();
        let (x, states) = h.sample(1000, Some(7), None).unwrap();
        assert_eq!((x.rows.len(), x.ncols), (1000, 3));
        assert_eq!(states.len(), 1000);
    }
}

#[test]
fn fit_runs() {
    for ct in TYPES {
        for imp in IMPLS {
            let (x, _) = preset(ct, imp, 20.0).sample(100, Some(3), None).unwrap();
            let fitted = GaussianHmm::new(3)
                .covariance_type(ct)
                .implementation(imp)
                .random_state(2)
                .fit(&x, Some(&[10; 10]));
            assert!(fitted.is_ok());
        }
    }
}

#[test]
fn criterion_aic_bic_positive() {
    for ct in TYPES {
        let gen = preset(ct, Implementation::Log, 10.0);
        let (x, _) = gen.sample(500, Some(42), None).unwrap();
        for n in [2usize, 3, 4] {
            let h = GaussianHmm::new(n)
                .covariance_type(ct)
                .n_iter(20)
                .random_state(42)
                .fit(&x, None)
                .ok()
                .unwrap();
            assert!(h.aic(&x, None).unwrap().0.is_finite());
            assert!(h.bic(&x, None).unwrap().0.is_finite());
        }
    }
}

#[test]
fn fit_with_priors_recovers_means() {
    for ct in TYPES {
        for imp in IMPLS {
            let fx = fixture(ct);
            let means20 = times(&fx.means, 20.0);
            let mut covars_weight = 2.0;
            if matches!(ct, CovarianceType::Full | CovarianceType::Tied) {
                covars_weight += 3.0;
            }
            let x = clustered_data(&means20, 200, 1);
            let fitted = GaussianHmm::new(3)
                .covariance_type(ct)
                .implementation(imp)
                .init_params("stm")
                .covars(identity_covars(ct, 3, 3))
                .means_prior_array(fx.means)
                .means_weight(F(2.0))
                .covars_weight(F(covars_weight))
                .n_iter(20)
                .tol(F(f64::NEG_INFINITY))
                .random_state(1)
                .fit(&x, Some(&[600]))
                .ok()
                .unwrap();
            let mut got: Vec<f64> = fitted
                .emission()
                .means()
                .rows
                .iter()
                .flatten()
                .map(|v| v.0)
                .collect();
            let mut want: Vec<f64> = means20.rows.iter().flatten().map(|v| v.0).collect();
            got.sort_by(|a, b| a.partial_cmp(b).unwrap());
            want.sort_by(|a, b| a.partial_cmp(b).unwrap());
            for (g, w) in got.iter().zip(&want) {
                assert!(
                    (g - w).abs() <= 0.05 * w.abs().max(1.0) + 1.0,
                    "{} vs {}",
                    g,
                    w
                );
            }
        }
    }
}

#[test]
fn gaussian_fit_sequences_of_different_length() {
    for ct in TYPES {
        let mut rng: NumpyRandomState<F> = NumpyRandomState::new(3);
        let x = flat(12, 3, rng.random_sample_n(36));
        assert!(GaussianHmm::new(3)
            .covariance_type(ct)
            .random_state(1)
            .fit(&x, Some(&[3, 4, 5]))
            .is_ok());
    }
}

#[test]
fn fit_with_length_one_signal() {
    for ct in TYPES {
        let mut rng: NumpyRandomState<F> = NumpyRandomState::new(4);
        let x = flat(19, 3, rng.random_sample_n(57));
        assert!(GaussianHmm::new(3)
            .covariance_type(ct)
            .random_state(1)
            .fit(&x, Some(&[10, 8, 1]))
            .is_ok());
    }
}

#[test]
fn fit_zero_variance() {
    let data = mat(&[
        &[715.0, 585.0, 0.0, 0.0],
        &[715.0, 520.0, 1.04705811, -60.3696289],
        &[715.0, 455.0, 0.72088623, -52.7055664],
        &[715.0, 390.0, -0.45794678, -78.0605469],
        &[715.0, 325.0, -6.43127441, -55.9954834],
        &[715.0, 260.0, -2.90063477, -78.0220947],
        &[715.0, 195.0, 8.45532227, -70.3294373],
        &[715.0, 130.0, 4.09387207, -58.3621216],
        &[715.0, 65.0, -1.2166748, -44.8131409],
    ]);
    for ct in TYPES {
        assert!(GaussianHmm::new(3)
            .covariance_type(ct)
            .random_state(1)
            .fit(&data, None)
            .is_ok());
    }
}

#[test]
fn issue_385_spherical_sample() {
    let h = GaussianHmm::new(2)
        .covariance_type(CovarianceType::Spherical)
        .start_prob(vf(&[0.6, 0.4]))
        .trans_mat(mat(&[&[0.4, 0.6], &[0.9, 0.1]]))
        .means(mat(&[&[3.0], &[5.0]]))
        .covars(CovarStore::Spherical(vf(&[4.0, 3.0])))
        .into_fitted()
        .ok()
        .unwrap();
    let (x, _) = h.sample(1000, Some(0), None).unwrap();
    assert_eq!((x.rows.len(), x.ncols), (1000, 1));
}

#[test]
fn underflow_from_scaling_errors() {
    let mut rng: NumpyRandomState<F> = NumpyRandomState::new(1234);
    let mut rows: Vec<Vec<F>> = Vec::new();
    for (mean, n) in [(0.0, 100), (5.0, 100), (0.0, 100), (5.0, 100)] {
        for _ in 0..n {
            rows.push(vec![F(mean + rng.standard_normal().unwrap().0)]);
        }
    }
    rows[40] = vec![F(10000.0)];
    let n = rows.len();
    let x = Matrix { rows, ncols: 1 };
    let build = |imp| {
        GaussianHmm::new(2)
            .covariance_type(CovarianceType::Spherical)
            .implementation(imp)
            .init_params("")
            .n_iter(100)
            .start_prob(vf(&[0.0, 1.0]))
            .trans_mat(mat(&[&[0.4, 0.6], &[0.6, 0.4]]))
            .means(mat(&[&[0.0], &[5.0]]))
            .covars(CovarStore::Spherical(vf(&[1.0, 1.0])))
    };
    assert!(matches!(
        build(Implementation::Scaling).fit(&x, Some(&[n])),
        Err(HmmError::ScalingUnderflow)
    ));
    assert!(build(Implementation::Log).fit(&x, Some(&[n])).is_ok());
}

#[test]
fn fit_left_right_preserves_zeros() {
    let transmat: &[&[f64]] = &[&[0.5, 0.5, 0.0], &[0.0, 0.5, 0.5], &[0.0, 0.0, 1.0]];
    let startprob = [1.0, 0.0, 0.0];
    let mut rng: NumpyRandomState<F> = NumpyRandomState::new(5);
    let x = flat(19, 3, rng.random_sample_n(57));
    for imp in IMPLS {
        let fitted = GaussianHmm::new(3)
            .covariance_type(CovarianceType::Diag)
            .implementation(imp)
            .params("mct")
            .init_params("cm")
            .random_state(1)
            .start_prob(vf(&startprob))
            .trans_mat(mat(transmat))
            .fit(&x, Some(&[10, 8, 1]))
            .ok()
            .unwrap();
        for i in 0..3 {
            if startprob[i] == 0.0 {
                assert_eq!(fitted.start_prob()[i], F(0.0));
            }
            for j in 0..3 {
                if transmat[i][j] == 0.0 {
                    assert_eq!(fitted.trans_mat().rows[i][j], F(0.0));
                }
            }
        }
        let post = fitted.predict_proba(&x, Some(&[10, 8, 1])).unwrap();
        assert!(post.rows.iter().flatten().all(|p| p.0.is_finite()));
        let (score, _seq) = fitted.decode(&x, Some(&[10, 8, 1]), None).unwrap();
        assert!(score.0.is_finite());
    }
}

#[test]
fn wrong_number_of_columns_is_reported() {
    let x = mat(&[&[0.0, 1.0], &[1.0, 0.0]]);
    let r = GaussianHmm::new(1).means(mat(&[&[0.0]])).fit(&x, None);
    match r {
        Err(e) => assert_eq!(
            e,
            HmmError::DimensionMismatch(
                "Unexpected number of dimensions, got 2 but expected 1".to_string()
            )
        ),
        Ok(_) => panic!("fitted"),
    }
}

#[test]
fn one_step_with_priors() {
    // One state sees everything: the update can be followed by hand.
    let x = mat(&[&[1.0], &[3.0]]);
    let fitted = GaussianHmm::new(1)
        .init_params("")
        .params("mc")
        .n_iter(1)
        .start_prob(vf(&[1.0]))
        .trans_mat(mat(&[&[1.0]]))
        .means(mat(&[&[0.0]]))
        .covars(CovarStore::Diag(mat(&[&[1.0]])))
        .means_prior(F(6.0))
        .means_weight(F(1.0))
        .fit(&x, None)
        .ok()
        .unwrap();
    let mean = fitted.emission().means().rows[0][0].0;
    assert!((mean - 10.0 / 3.0).abs() < 1e-12);
    let d = mean - 6.0;
    let numer = d * d + 10.0 - 2.0 * mean * 4.0 + mean * mean * 2.0;
    let var = fitted.emission().covars().covariance_of(0, 1).rows[0][0].0;
    assert!((var - (1e-2 + numer) / 2.0).abs() < 1e-12);
    let full = fitted.emission().covars_full();
    assert_eq!(full.items[0].rows[0][0].0, var);
}

#[test]
fn quick_start() {
    let x = mat(&[&[0.0], &[0.2], &[-0.1], &[5.0], &[5.2], &[4.8]]);
    let model = GaussianHmm::new(2)
        .n_iter(20)
        .random_state(42)
        .fit(&x, None)
        .ok()
        .unwrap();
    let states = model.predict(&x, None).unwrap();
    assert_eq!(states.len(), 6);
    let mut means: Vec<f64> = model
        .emission()
        .means()
        .rows
        .iter()
        .map(|r| r[0].0)
        .collect();
    means.sort_by(|a, b| a.partial_cmp(b).unwrap());
    assert!((means[0] + 0.0497017).abs() < 1e-5);
    assert!((means[1] - 3.78847).abs() < 1e-5);
    assert!(model.score(&x, None).unwrap().0.is_finite());
}

#[test]
fn fitting_too_many_parameters_is_noted() {
    let x = mat(&[&[0.0], &[1.0], &[2.0]]);
    let fitted = GaussianHmm::new(2)
        .random_state(1)
        .n_iter(0)
        .fit(&x, None)
        .ok()
        .unwrap();
    assert_eq!(
        fitted.into_inner().notes,
        vec!["Fitting a model with 7 free scalar parameters with only 3 data points will result in a degenerate solution.".to_string()]
    );
}

#[test]
fn arrays_of_the_wrong_shape_are_reported() {
    let half: &[&[f64]] = &[&[0.5, 0.5], &[0.5, 0.5]];
    let base = || {
        GaussianHmm::new(2)
            .start_prob(vf(&[0.5, 0.5]))
            .trans_mat(mat(half))
            .means(mat(&[&[0.0], &[1.0]]))
    };
    let r = base()
        .covars(CovarStore::Diag(mat(&[&[1.0], &[1.0], &[1.0]])))
        .into_fitted();
    assert_eq!(
        r.err(),
        Some(HmmError::DimensionMismatch(
            "'diag' covars must have shape (n_components, n_dim)".to_string()
        ))
    );
    let r = base()
        .covars(CovarStore::Tied(mat(&[&[1.0, 0.0], &[0.0, 1.0]])))
        .into_fitted();
    assert!(matches!(r, Err(HmmError::DimensionMismatch(_))));
    let r = base()
        .covars(CovarStore::Diag(mat(&[&[1.0], &[1.0]])))
        .means_prior_array(mat(&[&[0.0]]))
        .into_fitted();
    assert!(r.is_ok());
    let r = base()
        .covars(CovarStore::Diag(mat(&[&[1.0], &[-1.0]])))
        .into_fitted();
    assert!(matches!(r, Err(HmmError::InvalidParameter(_))));
}

#[test]
fn preset_means_and_covariances_are_kept() {
    let x = mat(&[&[0.0], &[1.0], &[5.0]]);
    let f = GaussianHmm::new(2)
        .means(mat(&[&[7.0], &[8.0]]))
        .covars(CovarStore::Diag(mat(&[&[2.0], &[3.0]])))
        .n_iter(0)
        .fit(&x, None)
        .ok()
        .unwrap();
    assert_eq!(f.emission().means().rows, mat(&[&[7.0], &[8.0]]).rows);
    assert_eq!(f.emission().covars_full().items[1].rows, vec![vec![F(3.0)]]);
}

#[test]
fn prior_means_may_cover_more_states() {
    let x = mat(&[&[0.0], &[1.0], &[5.0], &[6.0]]);
    let fit = |prior: Matrix<F>| {
        GaussianHmm::new(2)
            .means(mat(&[&[0.0], &[5.0]]))
            .means_prior_array(prior)
            .means_weight(F(1.0))
            .n_iter(1)
            .fit(&x, None)
    };
    let snug = fit(mat(&[&[0.0], &[5.0]])).ok().unwrap();
    let spare = fit(mat(&[&[0.0], &[5.0], &[9.0]])).ok().unwrap();
    assert_eq!(snug.emission().means().rows, spare.emission().means().rows);
    assert_eq!(
        fit(mat(&[&[0.0]])).err(),
        Some(HmmError::DimensionMismatch(
            "means_prior must cover (n_components, n_features)".to_string()
        ))
    );
}

#[test]
fn failed_fit_hands_out_its_notes() {
    let x = mat(&[&[0.0], &[1.0]]);
    let model = GaussianHmm::new(2)
        .means(mat(&[&[0.0], &[1.0]]))
        .means_prior_array(mat(&[&[0.0]]))
        .build();
    let (e, notes) = model.fit_telling(&x, None).err().unwrap();
    assert!(matches!(e, HmmError::DimensionMismatch(_)));
    assert_eq!(notes.len(), 1);
    assert!(notes[0].starts_with("Fitting a model with 7 free scalar parameters"));
}
