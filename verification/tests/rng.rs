use hmmlearn::linalg::Dense;
use hmmlearn::matrix::Matrix;
use hmmlearn::rng::mt19937::Mt19937;
use hmmlearn::rng::NumpyRandomState;
use hmmlearn::scalar::Scalar;
use nalgebra::{DMatrix, DVector, SymmetricEigen};

#[derive(Clone, Copy, Debug, PartialEq)]
struct F(f64);

impl Scalar for F {
    fn of_int(n: i128) -> F {
        F(n as f64)
    }
    fn decimal(digits: i64, exponent: i32) -> F {
        F(format!("{}e{}", digits, exponent).parse().unwrap())
    }
    fn pos_inf() -> F {
        F(f64::INFINITY)
    }
    fn neg_inf() -> F {
        F(f64::NEG_INFINITY)
    }
    fn nan() -> F {
        F(f64::NAN)
    }
    fn pi() -> F {
        F(std::f64::consts::PI)
    }
    fn plus(self, o: F) -> F {
        F(self.0 + o.0)
    }
    fn minus(self, o: F) -> F {
        F(self.0 - o.0)
    }
    fn times(self, o: F) -> F {
        F(self.0 * o.0)
    }
    fn over(self, o: F) -> F {
        F(self.0 / o.0)
    }
    fn below(self, o: F) -> bool {
        self.0 < o.0
    }
    fn same(self, o: F) -> bool {
        self.0 == o.0
    }
    fn signum(self) -> F {
        F(self.0.signum())
    }
    fn ln(self) -> F {
        F(self.0.ln())
    }
    fn ln_1p(self) -> F {
        F(self.0.ln_1p())
    }
    fn exp(self) -> F {
        F(self.0.exp())
    }
    fn sqrt(self) -> F {
        F(self.0.sqrt())
    }
    fn mul_add(self, a: F, b: F) -> F {
        F(self.0.mul_add(a.0, b.0))
    }
    fn pow(self, e: F) -> F {
        F(self.0.powf(e.0))
    }
    fn floor(self) -> F {
        F(self.0.floor())
    }
    fn fract(self) -> F {
        F(self.0.fract())
    }
    fn to_int(self) -> i64 {
        self.0 as i64
    }
    fn ln_gamma(self) -> F {
        F(libm::lgamma(self.0))
    }
    fn text(self, places: Option<usize>, plus: bool) -> String {
        match (places, plus) {
            (Some(p), true) => format!("{:+.*}", p, self.0),
            (Some(p), false) => format!("{:.*}", p, self.0),
            (None, true) => format!("{:+}", self.0),
            (None, false) => format!("{}", self.0),
        }
    }
}

fn to_na(a: &Matrix<F>) -> DMatrix<f64> {
    DMatrix::from_fn(a.rows.len(), a.ncols, |i, j| a.rows[i][j].0)
}

fn from_na(m: &DMatrix<f64>) -> Matrix<F> {
    let rows: Vec<Vec<F>> = (0..m.nrows())
        .map(|i| (0..m.ncols()).map(|j| F(m[(i, j)])).collect())
        .collect();
    Matrix {
        rows,
        ncols: m.ncols(),
    }
}

impl Dense for F {
    fn cholesky(a: &Matrix<F>) -> Option<Matrix<F>> {
        nalgebra::Cholesky::new(to_na(a)).map(|c| from_na(&c.l()))
    }
    fn eigenvalues(a: &Matrix<F>) -> Vec<F> {
        SymmetricEigen::new(to_na(a))
            .eigenvalues
            .iter()
            .map(|v| F(*v))
            .collect()
    }
    fn determinant(a: &Matrix<F>) -> F {
        F(to_na(a).determinant())
    }
    fn inverse(a: &Matrix<F>) -> Option<Matrix<F>> {
        to_na(a).try_inverse().map(|m| from_na(&m))
    }
    fn solve(a: &Matrix<F>, b: &Vec<F>) -> Option<Vec<F>> {
        let rhs = DVector::from_iterator(b.len(), b.iter().map(|v| v.0));
        to_na(a)
            .lu()
            .solve(&rhs)
            .map(|v| v.iter().map(|x| F(*x)).collect())
    }
}

fn vf(v: &[f64]) -> Vec<F> {
    v.iter().map(|x| F(*x)).collect()
}

fn mat(rows: &[&[f64]]) -> Matrix<F> {
    Matrix {
        rows: rows.iter().map(|r| vf(r)).collect(),
        ncols: rows[0].len(),
    }
}

fn state(seed: u32) -> NumpyRandomState<F> {
    NumpyRandomState::new(seed)
}

fn assert_seq_close(actual: &[F], expected: &[f64]) {
    assert_eq!(actual.len(), expected.len());
    for (a, e) in actual.iter().zip(expected) {
        assert!(
            (a.0 - e).abs() <= 1e-12 * e.abs().max(1e-300) + 1e-300,
            "{} vs {}",
            a.0,
            e
        );
    }
}

#[test]
fn first_words_of_the_generator() {
    assert_eq!(Mt19937::new_seed(5489).next_u32(), 3499211612);
    let mut mt = Mt19937::new_by_array(&[0x123, 0x234, 0x345, 0x456]);
    let words: Vec<u32> = (0..5).map(|_| mt.next_u32()).collect();
    assert_eq!(
        words,
        vec![1067595299, 955945823, 477289528, 4107218783, 4228976476]
    );
    let mut wide = Mt19937::new_seed(5489);
    let mut narrow = Mt19937::new_seed(5489);
    let high = narrow.next_u32() as u64;
    let low = narrow.next_u32() as u64;
    assert_eq!(wide.next_u64(), (high << 32) | low);
}

#[test]
fn array_seed_differs_from_scalar_seed() {
    let mut a: NumpyRandomState<F> = NumpyRandomState::from_array_seed(&[42]);
    assert!(a.random_sample() != state(42).random_sample());
}

#[test]
fn random_sample_matches_numpy() {
    let mut rng = state(42);
    for expected in [
        0.3745401188473625,
        0.9507143064099162,
        0.7319939418114051,
        0.5986584841970366,
        0.15601864044243652,
        0.15599452033620265,
    ] {
        assert_eq!(rng.random_sample(), F(expected));
    }
}

#[test]
fn random_sample_far_stream_matches() {
    let s = state(42).random_sample_n(1001);
    assert_eq!(s[1000], F(0.18513292883861965));
}

#[test]
fn randint_matches_numpy() {
    assert_eq!(
        state(42).randint(-20, 20, 12).unwrap(),
        vec![18, 8, -6, -13, 0, 18, -2, 2, -10, -10, 3, 15]
    );
    assert_eq!(
        state(0).randint(0, 3, 16).unwrap(),
        vec![0, 1, 0, 1, 1, 2, 0, 2, 0, 0, 0, 2, 1, 2, 2, 0]
    );
    assert_eq!(
        state(42).randint(0, 256, 12).unwrap(),
        vec![102, 179, 92, 14, 106, 71, 188, 20, 102, 121, 210, 214]
    );
    assert_eq!(
        state(42).randint(0, 1 << 40, 5).unwrap(),
        vec![
            441507790259,
            395924837646,
            458615280711,
            810017303572,
            440001501305
        ]
    );
}

#[test]
fn choice_weighted_matches_numpy() {
    let mut rng = state(6);
    let p = vf(&[0.2, 0.5, 0.3]);
    let got: Vec<usize> = (0..12).map(|_| rng.choice_weighted(&p)).collect();
    assert_eq!(got, vec![2, 1, 2, 0, 0, 1, 1, 1, 1, 1, 1, 2]);
}

#[test]
fn standard_normal_matches_numpy() {
    let mut rng = state(42);
    for expected in [
        0.4967141530112327,
        -0.13826430117118466,
        0.6476885381006925,
        1.5230298564080254,
        -0.23415337472333597,
        -0.23413695694918055,
        1.5792128155073915,
        0.7674347291529088,
    ] {
        assert!((rng.standard_normal().unwrap().0 - expected).abs() <= 1e-15);
    }
}

#[test]
fn multivariate_normal_keeps_stream_aligned() {
    let mut rng = state(42);
    let mean = vf(&[1.0, 2.0]);
    let cov = mat(&[&[2.0, 0.5], &[0.5, 1.0]]);
    assert_eq!(rng.multivariate_normal(&mean, &cov).unwrap().len(), 2);
    assert!((rng.standard_normal().unwrap().0 - 0.6476885381006925).abs() <= 1e-15);
}

#[test]
fn multivariate_normal_is_mean_plus_factor_times_normals() {
    let mean = vf(&[1.0, 2.0]);
    let cov = mat(&[&[4.0, 2.0], &[2.0, 10.0]]);
    let x = state(42).multivariate_normal(&mean, &cov).unwrap();
    let (z0, z1) = (0.4967141530112327, -0.13826430117118466);
    assert!((x[0].0 - (1.0 + 2.0 * z0)).abs() < 1e-12);
    assert!((x[1].0 - (2.0 + 1.0 * z0 + 3.0 * z1)).abs() < 1e-12);
}

#[test]
fn normal_scales_and_shifts() {
    let x = state(42).normal(F(10.0), F(2.0)).unwrap();
    assert!((x.0 - (10.0 + 2.0 * 0.4967141530112327)).abs() < 1e-12);
}

#[test]
fn exponential_matches_numpy() {
    let mut rng = state(7);
    let got: Vec<F> = (0..8).map(|_| rng.standard_exponential()).collect();
    assert_seq_close(
        &got,
        &[
            0.07937690952144451,
            1.5137586745587868,
            0.5769818641565158,
            1.2854185268208107,
            3.816236211795087,
            0.7732642768895222,
            0.6953906225148929,
            0.0747786483172218,
        ],
    );
}

#[test]
fn gamma_both_branches_match_numpy() {
    let mut rng = state(3);
    let big: Vec<F> = (0..8).map(|_| rng.standard_gamma(F(2.5)).unwrap()).collect();
    assert_seq_close(
        &big,
        &[
            6.009833246106926,
            2.8747981597832424,
            1.7834733227529087,
            1.6853034840381327,
            2.1028059620658963,
            1.5373985147685663,
            3.7400630277999447,
            5.783023089613764,
        ],
    );
    let mut rng = state(3);
    let small: Vec<F> = (0..8).map(|_| rng.standard_gamma(F(0.4)).unwrap()).collect();
    assert_seq_close(
        &small,
        &[
            0.2251545327637475,
            0.04564329515624933,
            1.3491381416521717,
            0.005589167292231907,
            0.0006009335121741582,
            0.00015428147793157006,
            0.34383017818497696,
            0.38779067344916013,
        ],
    );
}

#[test]
fn gamma_with_scale_matches_numpy() {
    let mut rng = state(9);
    let got: Vec<F> = (0..6).map(|_| rng.gamma(F(3.0), F(2.0)).unwrap()).collect();
    assert_seq_close(
        &got,
        &[
            5.336954677186659,
            4.442475777297467,
            4.190591245578233,
            3.911227073106449,
            4.585259530332754,
            3.4846967927153383,
        ],
    );
}

#[test]
fn dirichlet_matches_numpy() {
    let got = state(5).dirichlet(&vf(&[2.0, 3.0, 4.0, 1.0])).unwrap();
    assert_seq_close(
        &got,
        &[
            0.1461246729226213,
            0.1371415125840421,
            0.6703854872381662,
            0.04634832725517028,
        ],
    );
    let third = 1.0 / 3.0;
    let got = state(11).dirichlet(&vf(&[third, third, third])).unwrap();
    assert_seq_close(
        &got,
        &[0.03264605516970504, 0.5538859448901982, 0.41346799994009675],
    );
}

#[test]
fn poisson_matches_numpy() {
    let mut rng = state(1);
    let got: Vec<i64> = (0..15).map(|_| rng.poisson(F(3.0)).unwrap()).collect();
    assert_eq!(got, vec![2, 1, 1, 3, 3, 3, 3, 3, 0, 2, 4, 2, 5, 3, 1]);
    let mut rng = state(2);
    let got: Vec<i64> = (0..15).map(|_| rng.poisson(F(15.0)).unwrap()).collect();
    assert_eq!(
        got,
        vec![14, 16, 14, 11, 13, 16, 10, 11, 20, 20, 15, 14, 10, 11, 11]
    );
}

#[test]
fn multinomial_matches_numpy() {
    assert_eq!(
        state(3).multinomial(10, &vf(&[0.2, 0.3, 0.5])).unwrap(),
        vec![2, 4, 4]
    );
    assert_eq!(
        state(8).multinomial(1, &vf(&[0.1, 0.6, 0.3])).unwrap(),
        vec![0, 0, 1]
    );
    assert_eq!(
        state(9).multinomial(20, &vf(&[0.1, 0.2, 0.3, 0.4])).unwrap(),
        vec![0, 4, 7, 9]
    );
}

#[test]
fn multinomial_counts_add_up_to_the_trials() {
    let mut rng = state(17);
    for n in [0i64, 1, 5, 40, 300] {
        let counts = rng.multinomial(n, &vf(&[0.25, 0.5, 0.125, 0.125])).unwrap();
        assert_eq!(counts.iter().sum::<i64>(), n);
        assert!(counts.iter().all(|c| *c >= 0));
    }
}

#[test]
fn gamma_variates_are_never_negative() {
    let mut rng = state(11);
    for shape in [0.0, 0.05, 0.5, 1.0, 1.5, 20.0] {
        for _ in 0..200 {
            assert!(rng.gamma(F(shape), F(2.0)).unwrap().0 >= 0.0);
        }
    }
}
