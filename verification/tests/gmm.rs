use hmmlearn::covariance::{CovarStore, CovarianceType};
use hmmlearn::engine::{EmissionModel, Fitted, Hmm, Implementation, ParamSet};
use hmmlearn::linalg::Dense;
use hmmlearn::matrix::{Cube, Matrix};
use hmmlearn::models::{GaussianHmm, GmmCovars, GmmEm, GmmHmm};
use hmmlearn::rng::NumpyRandomState;
use hmmlearn::scalar::Scalar;
use hmmlearn::util::normalize_axis;
use hmmlearn::HmmError;
use nalgebra::{DMatrix, DVector, SymmetricEigen};

#[derive(Clone, Copy, Debug, PartialEq)]
struct F(f64);

impl Scalar for F {
    fn of_int(n: i128) -> F {
        F(n as f64)
    }
    fn decimal(digits: i64, exponent: i32) -> F {
        F(format!("{}e{}", digits, exponent).parse().unwrap())
    }
    fn pos_inf() -> F {
        F(f64::INFINITY)
    }
    fn neg_inf() -> F {
        F(f64::NEG_INFINITY)
    }
    fn nan() -> F {
        F(f64::NAN)
    }
    fn pi() -> F {
        F(std::f64::consts::PI)
    }
    fn plus(self, o: F) -> F {
        F(self.0 + o.0)
    }
    fn minus(self, o: F) -> F {
        F(self.0 - o.0)
    }
    fn times(self, o: F) -> F {
        F(self.0 * o.0)
    }
    fn over(self, o: F) -> F {
        F(self.0 / o.0)
    }
    fn below(self, o: F) -> bool {
        self.0 < o.0
    }
    fn same(self, o: F) -> bool {
        self.0 == o.0
    }
    fn signum(self) -> F {
        F(self.0.signum())
    }
    fn ln(self) -> F {
        F(self.0.ln())
    }
    fn ln_1p(self) -> F {
        F(self.0.ln_1p())
    }
    fn exp(self) -> F {
        F(self.0.exp())
    }
    fn sqrt(self) -> F {
        F(self.0.sqrt())
    }
    fn mul_add(self, a: F, b: F) -> F {
        F(self.0.mul_add(a.0, b.0))
    }
    fn pow(self, e: F) -> F {
        F(self.0.powf(e.0))
    }
    fn floor(self) -> F {
        F(self.0.floor())
    }
    fn fract(self) -> F {
        F(self.0.fract())
    }
    fn to_int(self) -> i64 {
        self.0 as i64
    }
    fn ln_gamma(self) -> F {
        F(libm::lgamma(self.0))
    }
    fn text(self, places: Option<usize>, plus: bool) -> String {
        match (places, plus) {
            (Some(p), true) => format!("{:+.*}", p, self.0),
            (Some(p), false) => format!("{:.*}", p, self.0),
            (None, true) => format!("{:+}", self.0),
            (None, false) => format!("{}", self.0),
        }
    }
}

fn to_na(a: &Matrix<F>) -> DMatrix<f64> {
    DMatrix::from_fn(a.rows.len(), a.ncols, |i, j| a.rows[i][j].0)
}

fn from_na(m: &DMatrix<f64>) -> Matrix<F> {
    let rows: Vec<Vec<F>> = (0..m.nrows())
        .map(|i| (0..m.ncols()).map(|j| F(m[(i, j)])).collect())
        .collect();
    Matrix {
        rows,
        ncols: m.ncols(),
    }
}

impl Dense for F {
    fn cholesky(a: &Matrix<F>) -> Option<Matrix<F>> {
        nalgebra::Cholesky::new(to_na(a)).map(|c| from_na(&c.l()))
    }
    fn eigenvalues(a: &Matrix<F>) -> Vec<F> {
        SymmetricEigen::new(to_na(a))
            .eigenvalues
            .iter()
            .map(|v| F(*v))
            .collect()
    }
    fn determinant(a: &Matrix<F>) -> F {
        F(to_na(a).determinant())
    }
    fn inverse(a: &Matrix<F>) -> Option<Matrix<F>> {
        to_na(a).try_inverse().map(|m| from_na(&m))
    }
    fn solve(a: &Matrix<F>, b: &Vec<F>) -> Option<Vec<F>> {
        let rhs = DVector::from_iterator(b.len(), b.iter().map(|v| v.0));
        to_na(a)
            .lu()
            .solve(&rhs)
            .map(|v| v.iter().map(|x| F(*x)).collect())
    }
}

fn vf(v: &[f64]) -> Vec<F> {
    v.iter().map(|x| F(*x)).collect()
}

fn mat(rows: &[&[f64]]) -> Matrix<F> {
    Matrix {
        rows: rows.iter().map(|r| vf(r)).collect(),
        ncols: rows[0].len(),
    }
}

fn assert_close(a: &Matrix<F>, b: &Matrix<F>, eps: f64) {
    assert_eq!(a.rows.len(), b.rows.len());
    assert_eq!(a.ncols, b.ncols);
    for i in 0..a.rows.len() {
        for j in 0..a.ncols {
            let (x, y) = (a.rows[i][j].0, b.rows[i][j].0);
            assert!((x - y).abs() <= eps, "({}, {}): {} vs {}", i, j, x, y);
        }
    }
}

fn assert_rows_sum_to_one(post: &Matrix<F>, eps: f64) {
    for row in post.rows.iter() {
        let s: f64 = row.iter().map(|v| v.0).sum();
        assert!((s - 1.0).abs() < eps, "{}", s);
    }
}

/// Fit one iteration at a time, without initialising again, and require at least
/// one improvement of the log-likelihood above rounding.
fn assert_ll_increasing<E: EmissionModel<F>>(
    mut model: Hmm<F, E>,
    x: &Matrix<F>,
    lengths: Option<&[usize]>,
    n_iter: usize,
) {
    model.n_iter = 1;
    model.init_params = ParamSet::empty();
    let mut lls: Vec<f64> = Vec::new();
    let mut fitted = model.fit(x, lengths).ok().unwrap();
    lls.push(fitted.score(x, lengths).unwrap().0);
    for _ in 1..n_iter {
        fitted = fitted.into_inner().fit(x, lengths).ok().unwrap();
        lls.push(fitted.score(x, lengths).unwrap().0);
    }
    let eps_sqrt = f64::EPSILON.sqrt();
    let diff_max = lls
        .windows(2)
        .map(|w| w[1] - w[0])
        .fold(f64::NEG_INFINITY, f64::max);
    assert!(diff_max > eps_sqrt, "{:?}", lls);
}

const IMPLS: [Implementation; 2] = [Implementation::Log, Implementation::Scaling];
const TYPES: [CovarianceType; 4] = [
    CovarianceType::Spherical,
    CovarianceType::Diag,
    CovarianceType::Tied,
    CovarianceType::Full,
];

struct Fixture {
    startprob: Vec<F>,
    transmat: Matrix<F>,
    means: Cube<F>,
    weights: Matrix<F>,
    covars: GmmCovars<F>,
}

fn uniform(rng: &mut NumpyRandomState<F>, lo: f64, hi: f64) -> F {
    F(lo + (hi - lo) * rng.random_sample().0)
}

fn drawn(n: usize, m: usize, rng: &mut NumpyRandomState<F>, lo: f64, hi: f64) -> Matrix<F> {
    let mut rows: Vec<Vec<F>> = Vec::new();
    for _ in 0..n {
        rows.push((0..m).map(|_| uniform(rng, lo, hi)).collect());
    }
    Matrix { rows, ncols: m }
}

fn spd(nf: usize, rng: &mut NumpyRandomState<F>) -> Matrix<F> {
    let a = drawn(nf, nf, rng, -2.0, 2.0);
    let mut rows: Vec<Vec<F>> = Vec::new();
    for i in 0..nf {
        let mut row: Vec<F> = Vec::new();
        for j in 0..nf {
            let mut s: f64 = (0..nf).map(|k| a.rows[k][i].0 * a.rows[k][j].0).sum();
            if i == j {
                s += 0.5;
            }
            row.push(F(s));
        }
        rows.push(row);
    }
    Matrix { rows, ncols: nf }
}

fn stack(items: Vec<Matrix<F>>) -> Cube<F> {
    let (nrows, ncols) = (items[0].rows.len(), items[0].ncols);
    Cube {
        items,
        nrows,
        ncols,
    }
}

fn fixture(ct: CovarianceType) -> Fixture {
    let (nc, nm, nf) = (3, 2, 2);
    let mut rng: NumpyRandomState<F> = NumpyRandomState::new(14);
    let mut dim_lims = vec![vec![0.0f64; nf]; nc + 1];
    for i in 0..nc {
        for f in 0..nf {
            dim_lims[i + 1][f] = dim_lims[i][f] + uniform(&mut rng, 10.0, 15.0).0;
        }
    }
    let mut items: Vec<Matrix<F>> = Vec::new();
    for i in 0..nc {
        let mut rows = vec![vec![F(0.0); nf]; nm];
        for f in 0..nf {
            for row in rows.iter_mut() {
                row[f] = uniform(&mut rng, dim_lims[i][f], dim_lims[i + 1][f]);
            }
        }
        items.push(Matrix { rows, ncols: nf });
    }
    let means = stack(items);
    let startprob = vf(&[1.0, 0.0, 0.0]);
    let mut transmat = drawn(nc, nc, &mut rng, 0.0, 1.0);
    normalize_axis(&mut transmat, 1);
    let covars = match ct {
        CovarianceType::Spherical => GmmCovars::Spherical(drawn(nc, nm, &mut rng, 0.1, 5.0)),
        CovarianceType::Diag => {
            let mut items: Vec<Matrix<F>> = Vec::new();
            for _ in 0..nc {
                items.push(drawn(nm, nf, &mut rng, 0.1, 5.0));
            }
            GmmCovars::Diag(stack(items))
        }
        CovarianceType::Tied => {
            let mut items: Vec<Matrix<F>> = Vec::new();
            for _ in 0..nc {
                items.push(spd(nf, &mut rng));
            }
            GmmCovars::Tied(stack(items))
        }
        CovarianceType::Full => {
            let mut stacks: Vec<Cube<F>> = Vec::new();
            for _ in 0..nc {
                let mut items: Vec<Matrix<F>> = Vec::new();
                for _ in 0..nm {
                    items.push(spd(nf, &mut rng));
                }
                stacks.push(stack(items));
            }
            GmmCovars::Full(stacks)
        }
    };
    let mut weights = drawn(nc, nm, &mut rng, 0.0, 1.0);
    normalize_axis(&mut weights, 1);
    Fixture {
        startprob,
        transmat,
        means,
        weights,
        covars,
    }
}

fn scaled(means: &Cube<F>, k: f64) -> Cube<F> {
    stack(
        means
            .items
            .iter()
            .map(|m| Matrix {
                rows: m
                    .rows
                    .iter()
                    .map(|r| r.iter().map(|v| F(v.0 * k)).collect())
                    .collect(),
                ncols: m.ncols,
            })
            .collect(),
    )
}

fn model(ct: CovarianceType, imp: Implementation, spread: f64) -> Fitted<F, GmmEm<F>> {
    let fx = fixture(ct);
    GmmHmm::new(3, 2)
        .covariance_type(ct)
        .implementation(imp)
        .start_prob(fx.startprob)
        .trans_mat(fx.transmat)
        .means(scaled(&fx.means, spread))
        .weights(fx.weights)
        .covars(fx.covars)
        .into_fitted()
        .ok()
        .unwrap()
}

#[test]
fn good_covariance_type_checks() {
    for ct in TYPES {
        assert!(model(ct, Implementation::Log, 1.0).n_components() == 3);
    }
}

#[test]
fn sample_shape() {
    for ct in TYPES {
        let (x, states) = model(ct, Implementation::Log, 1.0)
            .sample(1000, Some(0), None)
            .unwrap();
        assert_eq!((x.rows.len(), x.ncols), (1000, 2));
        assert_eq!(states.len(), 1000);
    }
}

#[test]
fn init_then_check_ok() {
    for ct in TYPES {
        let (x, _) = model(ct, Implementation::Log, 1.0)
            .sample(1000, Some(0), None)
            .unwrap();
        assert!(GmmHmm::new(3, 2)
            .covariance_type(ct)
            .n_iter(0)
            .random_state(1)
            .fit(&x, Some(&[1000]))
            .is_ok());
    }
}

#[test]
fn score_samples_and_decode() {
    for ct in TYPES {
        for imp in IMPLS {
            let h = model(ct, imp, 1.0);
            let (x, states) = h.sample(1000, Some(0), None).unwrap();
            let (_ll, post) = h.score_samples(&x, None).unwrap();
            assert_rows_sum_to_one(&post, 1e-9);
            let (_vll, decoded) = h.decode(&x, None, None).unwrap();
            let mism = decoded
                .iter()
                .zip(states.iter())
                .filter(|(a, b)| a != b)
                .count();
            assert!(mism <= 3, "{}", mism);
        }
    }
}

#[test]
fn gmm_fit_increases_log_likelihood() {
    for ct in TYPES {
        for imp in IMPLS {
            let (x, _) = model(ct, imp, 1.0).sample(500, Some(0), None).unwrap();
            let m = GmmHmm::new(3, 2)
                .covariance_type(ct)
                .implementation(imp)
                .random_state(1)
                .build();
            assert_ll_increasing(m, &x, None, 5);
        }
    }
}

#[test]
fn fit_sparse_data() {
    for ct in TYPES {
        let (x, _) = model(ct, Implementation::Log, 1000.0)
            .sample(1000, Some(0), None)
            .unwrap();
        assert!(GmmHmm::new(3, 2)
            .covariance_type(ct)
            .random_state(1)
            .fit(&x, None)
            .is_ok());
    }
}

#[test]
fn gmm_criterion_aic_bic_finite() {
    for ct in TYPES {
        let (x, _) = model(ct, Implementation::Log, 10.0)
            .sample(1000, Some(2013), None)
            .unwrap();
        for n in [2usize, 3] {
            let h = GmmHmm::new(n, 2)
                .covariance_type(ct)
                .n_iter(10)
                .random_state(2013)
                .fit(&x, None)
                .ok()
                .unwrap();
            assert!(h.aic(&x, None).unwrap().0.is_finite());
            assert!(h.bic(&x, None).unwrap().0.is_finite());
        }
    }
}

#[test]
fn kmeans_init_bounds_means() {
    let mut rng: NumpyRandomState<F> = NumpyRandomState::new(0);
    let mut rows = drawn(100, 2, &mut rng, 0.0, 1.0).rows;
    rows.extend(drawn(5, 2, &mut rng, 5.0, 6.0).rows);
    let data = Matrix { rows, ncols: 2 };
    let h = GmmHmm::new(2, 10)
        .n_iter(5)
        .random_state(1)
        .fit(&data, None)
        .ok()
        .unwrap();
    for m in h.emission().means().items.iter() {
        for v in m.rows.iter().flatten() {
            assert!(v.0 > 0.0 && v.0 < 6.0, "{}", v.0);
        }
    }
}

#[test]
fn chunked_matches_continuous() {
    let third = 1.0 / 3.0;
    for ct in TYPES {
        let (x, _) = model(ct, Implementation::Log, 1.0)
            .sample(1000, Some(0), None)
            .unwrap();
        let build = || {
            GmmHmm::new(3, 2)
                .covariance_type(ct)
                .init_params("mcw")
                .n_iter(100)
                .tol(F(1e-8))
                .random_state(1)
                .start_prob(vf(&[third; 3]))
                .trans_mat(mat(&[&[third; 3], &[third; 3], &[third; 3]]))
        };
        let m1 = build().fit(&x, None).ok().unwrap();
        let m2 = build().fit(&x, Some(&[200; 5])).ok().unwrap();
        for i in 0..3 {
            assert_close(
                &m1.emission().means().items[i],
                &m2.emission().means().items[i],
                1e-2,
            );
        }
        assert_close(m1.emission().weights(), m2.emission().weights(), 1e-2);
    }
}

#[test]
fn mixture_weights_are_validated() {
    let fx = fixture(CovarianceType::Diag);
    let build = |weights: Matrix<F>| {
        let fx = fixture(CovarianceType::Diag);
        GmmHmm::new(3, 2)
            .start_prob(fx.startprob)
            .trans_mat(fx.transmat)
            .means(fx.means)
            .weights(weights)
            .covars(fx.covars)
            .into_fitted()
            .err()
            .unwrap()
    };
    assert_eq!(
        build(mat(&[&[0.5, 0.6], &[0.5, 0.5], &[0.5, 0.5]])),
        HmmError::InvalidParameter("weights_ rows must sum to 1".to_string())
    );
    assert_eq!(
        build(mat(&[&[0.5, 0.5]])),
        HmmError::DimensionMismatch("weights_ must have shape (n_components, n_mix)".to_string())
    );
    let bad_covars = GmmHmm::new(3, 2)
        .start_prob(fx.startprob)
        .trans_mat(fx.transmat)
        .means(fx.means)
        .weights(fx.weights)
        .covars(GmmCovars::Spherical(mat(&[&[1.0, 1.0]])))
        .into_fitted();
    assert_eq!(
        bad_covars.err().unwrap(),
        HmmError::DimensionMismatch(
            "GMM covars have the wrong shape for the covariance type".to_string()
        )
    );
}

#[test]
fn one_mixture_is_a_gaussian() {
    let means: &[&[f64]] = &[&[0.0, 1.0], &[4.0, 3.0]];
    let x = mat(&[&[0.1, 0.9], &[3.9, 3.2], &[0.3, 1.4]]);
    let gmm = GmmHmm::new(2, 1)
        .start_prob(vf(&[0.5, 0.5]))
        .trans_mat(mat(&[&[0.7, 0.3], &[0.4, 0.6]]))
        .means(stack(vec![mat(&[means[0]]), mat(&[means[1]])]))
        .weights(mat(&[&[1.0], &[1.0]]))
        .covars(GmmCovars::Diag(stack(vec![
            mat(&[&[1.0, 2.0]]),
            mat(&[&[0.5, 1.5]]),
        ])))
        .into_fitted()
        .ok()
        .unwrap();
    let gaussian = GaussianHmm::new(2)
        .start_prob(vf(&[0.5, 0.5]))
        .trans_mat(mat(&[&[0.7, 0.3], &[0.4, 0.6]]))
        .means(mat(means))
        .covars(CovarStore::Diag(mat(&[&[1.0, 2.0], &[0.5, 1.5]])))
        .into_fitted()
        .ok()
        .unwrap();
    let a = gmm.score(&x, None).unwrap().0;
    let b = gaussian.score(&x, None).unwrap().0;
    assert!((a - b).abs() < 1e-12);
}

#[test]
fn weights_count_for_every_state() {
    let em = model(CovarianceType::Diag, Implementation::Log, 1.0);
    let em = em.emission();
    let nc = em.n_components;
    let nm = em.n_mix;
    let count = em.n_fit_scalars(nc, ParamSet::from_codes("w"));
    assert_eq!(count, nc * (nm - 1));
}

#[test]
fn fitted_mixture_weights_sum_to_one() {
    for ct in TYPES {
        let (x, _) = model(ct, Implementation::Log, 20.0)
            .sample(60, Some(4), None)
            .unwrap();
        let f = GmmHmm::new(2, 2)
            .covariance_type(ct)
            .random_state(3)
            .n_iter(2)
            .fit(&x, Some(&[20, 40]))
            .ok()
            .unwrap();
        assert_rows_sum_to_one(f.emission().weights(), 1e-9);
    }
}
