use hmmlearn::cluster::{cluster_counts, kmeans};
use hmmlearn::covariance::{distribute_covar, validate_covars, CovarStore, CovarianceType};
use hmmlearn::kl::{kl_dirichlet, kl_gamma, kl_multivariate_normal, kl_normal, kl_wishart};
use hmmlearn::linalg::{
    cholesky_lower, eigvalsh, inv, is_symmetric, logdet, logdet_spd, slogdet,
    solve_lower_triangular, sort_ascending, stationary_distribution, Dense,
};
use hmmlearn::matrix::{Cube, Matrix};
use hmmlearn::scalar::{negate, sum, Scalar};
use hmmlearn::special::{digamma, ln_gamma, logaddexp, logsumexp};
use hmmlearn::stats::{log_multivariate_normal_density, sample_covariance};
use hmmlearn::HmmError;
use nalgebra::{DMatrix, DVector, SymmetricEigen};

#[derive(Clone, Copy, Debug, PartialEq)]
struct F(f64);

impl Scalar for F {
    fn of_int(n: i128) -> F {
        F(n as f64)
    }
    fn decimal(digits: i64, exponent: i32) -> F {
        F(format!("{}e{}", digits, exponent).parse().unwrap())
    }
    fn pos_inf() -> F {
        F(f64::INFINITY)
    }
    fn neg_inf() -> F {
        F(f64::NEG_INFINITY)
    }
    fn nan() -> F {
        F(f64::NAN)
    }
    fn pi() -> F {
        F(std::f64::consts::PI)
    }
    fn plus(self, o: F) -> F {
        F(self.0 + o.0)
    }
    fn minus(self, o: F) -> F {
        F(self.0 - o.0)
    }
    fn times(self, o: F) -> F {
        F(self.0 * o.0)
    }
    fn over(self, o: F) -> F {
        F(self.0 / o.0)
    }
    fn below(self, o: F) -> bool {
        self.0 < o.0
    }
    fn same(self, o: F) -> bool {
        self.0 == o.0
    }
    fn signum(self) -> F {
        F(self.0.signum())
    }
    fn ln(self) -> F {
        F(self.0.ln())
    }
    fn ln_1p(self) -> F {
        F(self.0.ln_1p())
    }
    fn exp(self) -> F {
        F(self.0.exp())
    }
    fn sqrt(self) -> F {
        F(self.0.sqrt())
    }
    fn mul_add(self, a: F, b: F) -> F {
        F(self.0.mul_add(a.0, b.0))
    }
    fn pow(self, e: F) -> F {
        F(self.0.powf(e.0))
    }
    fn floor(self) -> F {
        F(self.0.floor())
    }
    fn fract(self) -> F {
        F(self.0.fract())
    }
    fn to_int(self) -> i64 {
        self.0 as i64
    }
    fn ln_gamma(self) -> F {
        F(libm::lgamma(self.0))
    }
    fn text(self, places: Option<usize>, plus: bool) -> String {
        match (places, plus) {
            (Some(p), true) => format!("{:+.*}", p, self.0),
            (Some(p), false) => format!("{:.*}", p, self.0),
            (None, true) => format!("{:+}", self.0),
            (None, false) => format!("{}", self.0),
        }
    }
}

fn to_na(a: &Matrix<F>) -> DMatrix<f64> {
    DMatrix::from_fn(a.rows.len(), a.ncols, |i, j| a.rows[i][j].0)
}

fn from_na(m: &DMatrix<f64>) -> Matrix<F> {
    let rows: Vec<Vec<F>> = (0..m.nrows())
        .map(|i| (0..m.ncols()).map(|j| F(m[(i, j)])).collect())
        .collect();
    Matrix {
        rows,
        ncols: m.ncols(),
    }
}

impl Dense for F {
    fn cholesky(a: &Matrix<F>) -> Option<Matrix<F>> {
        nalgebra::Cholesky::new(to_na(a)).map(|c| from_na(&c.l()))
    }
    fn eigenvalues(a: &Matrix<F>) -> Vec<F> {
        SymmetricEigen::new(to_na(a))
            .eigenvalues
            .iter()
            .map(|v| F(*v))
            .collect()
    }
    fn determinant(a: &Matrix<F>) -> F {
        F(to_na(a).determinant())
    }
    fn inverse(a: &Matrix<F>) -> Option<Matrix<F>> {
        to_na(a).try_inverse().map(|m| from_na(&m))
    }
    fn solve(a: &Matrix<F>, b: &Vec<F>) -> Option<Vec<F>> {
        let rhs = DVector::from_iterator(b.len(), b.iter().map(|v| v.0));
        to_na(a)
            .lu()
            .solve(&rhs)
            .map(|v| v.iter().map(|x| F(*x)).collect())
    }
}

fn vf(v: &[f64]) -> Vec<F> {
    v.iter().map(|x| F(*x)).collect()
}

fn mat(rows: &[&[f64]]) -> Matrix<F> {
    Matrix {
        rows: rows.iter().map(|r| vf(r)).collect(),
        ncols: rows[0].len(),
    }
}

fn assert_close(a: &Matrix<F>, b: &Matrix<F>, eps: f64) {
    assert_eq!(a.rows.len(), b.rows.len());
    assert_eq!(a.ncols, b.ncols);
    for i in 0..a.rows.len() {
        for j in 0..a.ncols {
            let (x, y) = (a.rows[i][j].0, b.rows[i][j].0);
            assert!((x - y).abs() <= eps, "({}, {}): {} vs {}", i, j, x, y);
        }
    }
}

fn cube(items: &[&[&[f64]]]) -> Cube<F> {
    Cube {
        items: items.iter().map(|m| mat(m)).collect(),
        nrows: items[0].len(),
        ncols: items[0][0].len(),
    }
}

fn assert_cube_eq(a: &Cube<F>, b: &Cube<F>) {
    assert_eq!(a.items.len(), b.items.len());
    for i in 0..a.items.len() {
        assert_close(&a.items[i], &b.items[i], 0.0);
    }
}

fn near(a: F, b: f64, eps: f64) {
    assert!((a.0 - b).abs() <= eps, "{} vs {}", a.0, b);
}

#[test]
fn digamma_known_values() {
    near(digamma(F(1.0)), -0.5772156649015329, 1e-10);
    near(digamma(F(2.0)), 0.42278433509846713, 1e-10);
    near(digamma(F(0.5)), -1.9635100260214235, 1e-10);
    near(digamma(F(10.0)), 2.251752589066721, 1e-10);
}

#[test]
fn ln_gamma_known_values() {
    near(ln_gamma(F(1.0)), 0.0, 1e-12);
    near(ln_gamma(F(2.0)), 0.0, 1e-12);
    near(ln_gamma(F(5.0)), 24.0_f64.ln(), 1e-12);
    near(ln_gamma(F(0.5)), std::f64::consts::PI.sqrt().ln(), 1e-12);
}

#[test]
fn logaddexp_basics() {
    near(logaddexp(F(0.0), F(0.0)), 2.0_f64.ln(), 1e-15);
    assert_eq!(logaddexp(F(f64::NEG_INFINITY), F(3.0)), F(3.0));
    assert_eq!(logaddexp(F(3.0), F(f64::NEG_INFINITY)), F(3.0));
    assert_eq!(
        logaddexp(F(f64::NEG_INFINITY), F(f64::NEG_INFINITY)),
        F(f64::NEG_INFINITY)
    );
    near(
        logaddexp(F(1000.0), F(1000.0)),
        1000.0 + 2.0_f64.ln(),
        1e-9,
    );
}

#[test]
fn logsumexp_basics() {
    near(logsumexp(&vf(&[0.0, 0.0, 0.0])), 3.0_f64.ln(), 1e-15);
    assert_eq!(
        logsumexp(&vf(&[f64::NEG_INFINITY, f64::NEG_INFINITY])),
        F(f64::NEG_INFINITY)
    );
    near(
        logsumexp(&vf(&[1.5, -2.3])),
        logaddexp(F(1.5), F(-2.3)).0,
        1e-15,
    );
}

#[test]
fn dirichlet_zero_and_positive() {
    let v1 = vf(&[1.0, 2.0, 3.0, 4.0]);
    let v2 = vf(&[4.0, 3.0, 2.0, 1.0]);
    assert_eq!(kl_dirichlet(&v1, &v1), F(0.0));
    assert_eq!(kl_dirichlet(&v2, &v2), F(0.0));
    assert!(kl_dirichlet(&v1, &v2).0 > 0.0);
    assert!(kl_dirichlet(&v2, &v1).0 > 0.0);
}

#[test]
fn normal_zero_and_positive() {
    assert_eq!(kl_normal(F(0.0), F(1.0), F(0.0), F(1.0)), F(0.0));
    assert!(kl_normal(F(0.0), F(1.0), F(1.0), F(1.0)).0 > 0.0);
    near(kl_normal(F(0.0), F(1.0), F(1.0), F(1.0)), 0.5, 1e-15);
}

#[test]
fn multivariate_matches_univariate() {
    let mp = vf(&[0.0]);
    let vp = mat(&[&[1.0]]);
    let eq = kl_multivariate_normal(&mp, &vp, &mp, &vp).unwrap();
    assert_eq!(eq, F(0.0));
    assert_eq!(eq, kl_normal(F(0.0), F(1.0), F(0.0), F(1.0)));

    let mq = vf(&[1.0]);
    let vq = mat(&[&[1.0]]);
    let ne = kl_multivariate_normal(&mp, &vp, &mq, &vq).unwrap();
    assert_eq!(ne, kl_normal(F(0.0), F(1.0), F(1.0), F(1.0)));
}

#[test]
fn multivariate_divergence_needs_an_invertible_prior() {
    let m = vf(&[0.0, 0.0]);
    let one = mat(&[&[1.0, 0.0], &[0.0, 1.0]]);
    let flat = mat(&[&[1.0, 1.0], &[1.0, 1.0]]);
    assert!(kl_multivariate_normal(&m, &one, &m, &flat).is_none());
    assert!(kl_wishart(F(3.0), &flat, F(3.0), &one).is_none());
}

#[test]
fn gamma_zero_and_positive() {
    assert_eq!(kl_gamma(F(1.0), F(0.01), F(1.0), F(0.01)), F(0.0));
    assert!(kl_gamma(F(1.0), F(0.01), F(2.0), F(0.01)).0 > 0.0);
    assert!(kl_gamma(F(1.0), F(0.01), F(1.0), F(0.02)).0 > 0.0);
    let scales = kl_gamma(F(1.0), F(1.0), F(1.0), F(2.0)).0;
    assert!((scales - (2.0f64.ln() - 0.5)).abs() < 1e-12);
}

#[test]
fn wishart_zero_and_positive() {
    let scale1 = mat(&[&[339.8474024737109]]);
    let scale2 = mat(&[&[0.001]]);
    let eq = kl_wishart(F(952.0), &scale1, F(952.0), &scale1).unwrap();
    assert!(eq.0.abs() < 1e-9, "{}", eq.0);
    let ne = kl_wishart(F(952.0), &scale1, F(1.0), &scale2).unwrap();
    assert!(ne.0 > 0.0);
}

#[test]
fn cholesky_diagonal() {
    let l = cholesky_lower(&mat(&[&[4.0, 0.0], &[0.0, 9.0]])).unwrap();
    assert_close(&l, &mat(&[&[2.0, 0.0], &[0.0, 3.0]]), 1e-12);
}

#[test]
fn cholesky_reconstructs() {
    let a = mat(&[&[2.0, 1.0], &[1.0, 2.0]]);
    let l = cholesky_lower(&a).unwrap();
    let recon = Matrix {
        rows: (0..2)
            .map(|i| {
                (0..2)
                    .map(|j| F((0..2).map(|k| l.rows[i][k].0 * l.rows[j][k].0).sum()))
                    .collect()
            })
            .collect(),
        ncols: 2,
    };
    assert_close(&recon, &a, 1e-12);
}

#[test]
fn cholesky_rejects_non_pd() {
    assert!(cholesky_lower(&mat(&[&[1.0, 2.0], &[2.0, 1.0]])).is_none());
    assert!(cholesky_lower(&mat(&[&[1.0, 5.0], &[0.0, 1.0]])).is_none());
    assert!(logdet_spd(&mat(&[&[1.0, 5.0], &[0.0, 1.0]])).is_none());
}

#[test]
fn solve_lower_triangular_works() {
    let l = mat(&[&[2.0, 0.0], &[1.0, 3.0]]);
    let b = mat(&[&[2.0], &[7.0]]);
    let x = solve_lower_triangular(&l, &b);
    assert_close(&x, &mat(&[&[1.0], &[2.0]]), 1e-12);
}

#[test]
fn eigvalsh_sorted_ascending() {
    let vals = eigvalsh(&mat(&[&[3.0, 0.0], &[0.0, 2.0]]));
    assert_eq!(vals.len(), 2);
    near(vals[0], 2.0, 1e-12);
    near(vals[1], 3.0, 1e-12);
}

#[test]
fn slogdet_and_logdet_spd_agree() {
    let a = mat(&[&[2.0, 0.0], &[0.0, 3.0]]);
    let (sign, logabs) = slogdet(&a);
    assert_eq!(sign, F(1.0));
    near(logabs, 6.0_f64.ln(), 1e-12);
    near(logdet_spd(&a).unwrap(), 6.0_f64.ln(), 1e-12);
}

#[test]
fn logdet_of_a_negative_determinant_is_no_number() {
    assert!(logdet(&mat(&[&[0.0, 1.0], &[1.0, 0.0]])).0.is_nan());
    near(logdet(&mat(&[&[2.0, 0.0], &[0.0, 3.0]])), 6.0_f64.ln(), 1e-12);
}

#[test]
fn inv_diagonal() {
    let ai = inv(&mat(&[&[2.0, 0.0], &[0.0, 4.0]])).unwrap();
    assert_close(&ai, &mat(&[&[0.5, 0.0], &[0.0, 0.25]]), 1e-12);
}

#[test]
fn symmetry_check() {
    assert!(is_symmetric(&mat(&[&[1.0, 2.0], &[2.0, 5.0]]), F(1e-12)));
    assert!(!is_symmetric(&mat(&[&[1.0, 2.0], &[3.0, 5.0]]), F(1e-12)));
    assert!(!is_symmetric(&mat(&[&[1.0, 2.0]]), F(1e-12)));
}

#[test]
fn stationary_distribution_is_fixed_point() {
    let p = mat(&[&[0.7, 0.2, 0.1], &[0.3, 0.5, 0.2], &[0.2, 0.3, 0.5]]);
    let pi = stationary_distribution(&p).unwrap();
    near(F(pi.iter().map(|v| v.0).sum()), 1.0, 1e-12);
    for j in 0..3 {
        let pushed: f64 = (0..3).map(|i| pi[i].0 * p.rows[i][j].0).sum();
        near(pi[j], pushed, 1e-12);
    }
}

#[test]
fn stationary_distribution_of_two_closed_states_is_none() {
    assert!(stationary_distribution(&mat(&[&[1.0, 0.0], &[0.0, 1.0]])).is_none());
}

#[test]
fn ascending_order() {
    assert_eq!(
        sort_ascending(&vf(&[3.0, -1.0, 2.0, -1.0])),
        vf(&[-1.0, -1.0, 2.0, 3.0])
    );
}

#[test]
fn fill_full_is_identity() {
    let full = cube(&[
        &[&[1.0, 2.0], &[3.0, 4.0]],
        &[&[5.0, 6.0], &[7.0, 8.0]],
        &[&[9.0, 10.0], &[11.0, 12.0]],
    ]);
    let store = CovarStore::Full(full.duplicate());
    assert_cube_eq(&store.full(3, 2), &full);
}

#[test]
fn fill_diag_builds_diagonals() {
    let expected = cube(&[
        &[&[1.0, 0.0], &[0.0, 2.0]],
        &[&[3.0, 0.0], &[0.0, 4.0]],
        &[&[5.0, 0.0], &[0.0, 6.0]],
    ]);
    let store = CovarStore::Diag(mat(&[&[1.0, 2.0], &[3.0, 4.0], &[5.0, 6.0]]));
    assert_cube_eq(&store.full(3, 2), &expected);
}

#[test]
fn fill_tied_tiles() {
    let one: &[&[f64]] = &[&[1.0, 2.0], &[3.0, 4.0]];
    let store = CovarStore::Tied(mat(one));
    assert_cube_eq(&store.full(3, 2), &cube(&[one, one, one]));
}

#[test]
fn fill_spherical_scales_identity() {
    let expected = cube(&[
        &[&[1.0, 0.0], &[0.0, 1.0]],
        &[&[2.0, 0.0], &[0.0, 2.0]],
        &[&[3.0, 0.0], &[0.0, 3.0]],
    ]);
    let store = CovarStore::Spherical(vf(&[1.0, 2.0, 3.0]));
    assert_cube_eq(&store.full(3, 2), &expected);
}

#[test]
fn covariance_of_one_state() {
    let store = CovarStore::Diag(mat(&[&[1.0, 2.0], &[3.0, 4.0]]));
    assert_close(
        &store.covariance_of(1, 2),
        &mat(&[&[3.0, 0.0], &[0.0, 4.0]]),
        0.0,
    );
}

#[test]
fn distribute_covar_to_every_type() {
    let cv = mat(&[&[4.0, 1.0], &[1.0, 2.0]]);
    let sph = distribute_covar(&cv, CovarianceType::Spherical, 2);
    assert_close(
        &sph.covariance_of(1, 2),
        &mat(&[&[2.0, 0.0], &[0.0, 2.0]]),
        0.0,
    );
    let diag = distribute_covar(&cv, CovarianceType::Diag, 2);
    assert_close(
        &diag.covariance_of(0, 2),
        &mat(&[&[4.0, 0.0], &[0.0, 2.0]]),
        0.0,
    );
    let tied = distribute_covar(&cv, CovarianceType::Tied, 2);
    assert_close(&tied.covariance_of(0, 2), &cv, 0.0);
    let full = distribute_covar(&cv, CovarianceType::Full, 2);
    assert_close(&full.covariance_of(1, 2), &cv, 0.0);
}

#[test]
fn spherical_ok_and_errors() {
    assert!(validate_covars(&CovarStore::Spherical(vf(&[1.0, 2.0, 3.0])), 3).is_ok());
    assert!(validate_covars(&CovarStore::Spherical(vf(&[1.0, 2.0])), 3).is_err());
    assert!(validate_covars(&CovarStore::Spherical(vf(&[1.0, -2.0, 3.0])), 3).is_err());
}

#[test]
fn diag_ok_and_errors() {
    assert!(validate_covars(&CovarStore::Diag(mat(&[&[1.0, 2.0], &[3.0, 4.0]])), 2).is_ok());
    assert!(validate_covars(&CovarStore::Diag(mat(&[&[1.0, 0.0], &[3.0, 4.0]])), 2).is_err());
}

#[test]
fn tied_pd_check() {
    assert!(validate_covars(&CovarStore::Tied(mat(&[&[2.0, 1.0], &[1.0, 2.0]])), 3).is_ok());
    assert!(validate_covars(&CovarStore::Tied(mat(&[&[1.0, 2.0], &[2.0, 1.0]])), 3).is_err());
}

#[test]
fn full_pd_per_component() {
    let good = cube(&[&[&[2.0, 0.0], &[0.0, 3.0]], &[&[1.0, 0.0], &[0.0, 1.0]]]);
    assert!(validate_covars(&CovarStore::Full(good), 2).is_ok());
    let bad = cube(&[&[&[2.0, 0.0], &[0.0, 3.0]], &[&[1.0, 2.0], &[2.0, 1.0]]]);
    assert!(matches!(
        validate_covars(&CovarStore::Full(bad), 2),
        Err(HmmError::NotPositiveDefinite(_))
    ));
}

#[test]
fn diag_matches_scalar_gaussian() {
    let covars = CovarStore::Diag(mat(&[&[1.0]]));
    let got = log_multivariate_normal_density(&mat(&[&[0.0]]), &mat(&[&[0.0]]), &covars);
    let pi = std::f64::consts::PI;
    assert_close(&got, &mat(&[&[-0.5 * (2.0 * pi).ln()]]), 1e-12);
}

#[test]
fn spherical_equals_diag_with_equal_variances() {
    let x = mat(&[&[0.5, -1.0], &[2.0, 0.3]]);
    let means = mat(&[&[0.0, 0.0], &[1.0, 1.0]]);
    let sph = CovarStore::Spherical(vf(&[2.0, 0.5]));
    let diag = CovarStore::Diag(mat(&[&[2.0, 2.0], &[0.5, 0.5]]));
    let a = log_multivariate_normal_density(&x, &means, &sph);
    let b = log_multivariate_normal_density(&x, &means, &diag);
    assert_close(&a, &b, 1e-12);
}

#[test]
fn full_diagonal_matches_diag() {
    let x = mat(&[&[0.5, -1.0], &[2.0, 0.3]]);
    let means = mat(&[&[0.0, 0.0], &[1.0, 1.0]]);
    let diag = CovarStore::Diag(mat(&[&[2.0, 3.0], &[0.5, 1.5]]));
    let full = CovarStore::Full(cube(&[
        &[&[2.0, 0.0], &[0.0, 3.0]],
        &[&[0.5, 0.0], &[0.0, 1.5]],
    ]));
    let a = log_multivariate_normal_density(&x, &means, &diag);
    let b = log_multivariate_normal_density(&x, &means, &full);
    assert_close(&a, &b, 1e-10);
}

#[test]
fn tied_equals_full_with_shared_matrix() {
    let x = mat(&[&[0.5, -1.0]]);
    let means = mat(&[&[0.0, 0.0], &[1.0, 1.0]]);
    let shared: &[&[f64]] = &[&[2.0, 0.3], &[0.3, 1.0]];
    let tied = CovarStore::Tied(mat(shared));
    let full = CovarStore::Full(cube(&[shared, shared]));
    let a = log_multivariate_normal_density(&x, &means, &tied);
    let b = log_multivariate_normal_density(&x, &means, &full);
    assert_close(&a, &b, 1e-12);
}

#[test]
fn full_correlated_matches_closed_form() {
    let x = mat(&[&[1.0, 2.0]]);
    let det: f64 = 2.0 * 1.0 - 0.5 * 0.5;
    let full = CovarStore::Full(cube(&[&[&[2.0, 0.5], &[0.5, 1.0]]]));
    let got = log_multivariate_normal_density(&x, &x, &full);
    let pi = std::f64::consts::PI;
    let expected = -(2.0 * pi).ln() - 0.5 * det.ln();
    assert_close(&got, &mat(&[&[expected]]), 1e-12);
}

#[test]
fn sample_covariance_of_three_rows() {
    let x = mat(&[&[1.0, 2.0], &[2.0, 4.0], &[3.0, 9.0]]);
    assert_close(
        &sample_covariance(&x),
        &mat(&[&[1.0, 3.5], &[3.5, 13.0]]),
        1e-12,
    );
    // One row: the divisor is 1.
    assert_close(&sample_covariance(&mat(&[&[5.0]])), &mat(&[&[0.0]]), 0.0);
}

#[test]
fn kmeans_separates_two_groups() {
    let x = mat(&[&[0.0], &[0.2], &[10.0], &[10.2], &[10.4]]);
    let centers = kmeans(&x, 2, 10, 300, Some(3));
    let mut c = vec![centers.rows[0][0].0, centers.rows[1][0].0];
    c.sort_by(|a, b| a.partial_cmp(b).unwrap());
    assert!((c[0] - 0.1).abs() < 1e-12);
    assert!((c[1] - 10.2).abs() < 1e-12);
    let counts = cluster_counts(&x, &mat(&[&[0.1], &[10.2]]));
    assert_eq!(counts, vf(&[2.0, 3.0]));
    // A tie goes to the lower index.
    let tie = cluster_counts(&mat(&[&[5.0]]), &mat(&[&[4.0], &[6.0]]));
    assert_eq!(tie, vf(&[1.0, 0.0]));
}

#[test]
fn digamma_shifts_negative_arguments() {
    near(digamma(F(-0.5)), 0.03648997397857652, 1e-10);
    // The reflection formula: cot(7.5 pi) is 0.
    near(digamma(F(-7.5)), digamma(F(8.5)).0, 1e-10);
}

#[test]
fn sums_run_in_eight_lanes() {
    let mut v = vec![F(1.0); 9];
    v[0] = F(1e16);
    v[8] = F(-1e16);
    assert_eq!(sum(&v), F(6.0));
    assert_eq!(sum(&vf(&[1e16, 1.0, -1e16])), F(0.0));
}

#[test]
fn negation_keeps_the_sign_of_zero() {
    assert!(negate(F(0.0)).0.is_sign_negative());
    assert_eq!(negate(F(2.5)), F(-2.5));
}
