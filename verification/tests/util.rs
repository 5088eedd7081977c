use hmmlearn::counting::{clamped_product, clamped_sum};
use hmmlearn::matrix::Matrix;
use hmmlearn::scalar::{sum, Scalar};
use hmmlearn::text::{align_right, decimal, joined};
use hmmlearn::util::{log_normalize_axis, normalize1, normalize_axis, split_lengths};
use hmmlearn::HmmError;

#[derive(Clone, Copy, Debug, PartialEq)]
struct F(f64);

impl Scalar for F {
    fn of_int(n: i128) -> F {
        F(n as f64)
    }
    fn decimal(digits: i64, exponent: i32) -> F {
        F(format!("{}e{}", digits, exponent).parse().unwrap())
    }
    fn pos_inf() -> F {
        F(f64::INFINITY)
    }
    fn neg_inf() -> F {
        F(f64::NEG_INFINITY)
    }
    fn nan() -> F {
        F(f64::NAN)
    }
    fn pi() -> F {
        F(std::f64::consts::PI)
    }
    fn plus(self, o: F) -> F {
        F(self.0 + o.0)
    }
    fn minus(self, o: F) -> F {
        F(self.0 - o.0)
    }
    fn times(self, o: F) -> F {
        F(self.0 * o.0)
    }
    fn over(self, o: F) -> F {
        F(self.0 / o.0)
    }
    fn below(self, o: F) -> bool {
        self.0 < o.0
    }
    fn same(self, o: F) -> bool {
        self.0 == o.0
    }
    fn signum(self) -> F {
        F(self.0.signum())
    }
    fn ln(self) -> F {
        F(self.0.ln())
    }
    fn ln_1p(self) -> F {
        F(self.0.ln_1p())
    }
    fn exp(self) -> F {
        F(self.0.exp())
    }
    fn sqrt(self) -> F {
        F(self.0.sqrt())
    }
    fn mul_add(self, a: F, b: F) -> F {
        F(self.0.mul_add(a.0, b.0))
    }
    fn pow(self, e: F) -> F {
        F(self.0.powf(e.0))
    }
    fn floor(self) -> F {
        F(self.0.floor())
    }
    fn fract(self) -> F {
        F(self.0.fract())
    }
    fn to_int(self) -> i64 {
        self.0 as i64
    }
    fn ln_gamma(self) -> F {
        F(libm::lgamma(self.0))
    }
    fn text(self, places: Option<usize>, plus: bool) -> String {
        match (places, plus) {
            (Some(p), true) => format!("{:+.*}", p, self.0),
            (Some(p), false) => format!("{:.*}", p, self.0),
            (None, true) => format!("{:+}", self.0),
            (None, false) => format!("{}", self.0),
        }
    }
}

fn vf(v: &[f64]) -> Vec<F> {
    v.iter().map(|x| F(*x)).collect()
}

fn mat(rows: &[&[f64]]) -> Matrix<F> {
    Matrix {
        rows: rows.iter().map(|r| vf(r)).collect(),
        ncols: rows[0].len(),
    }
}

fn assert_close(a: &Matrix<F>, b: &Matrix<F>, eps: f64) {
    assert_eq!(a.rows.len(), b.rows.len());
    assert_eq!(a.ncols, b.ncols);
    for i in 0..a.rows.len() {
        for j in 0..a.ncols {
            let (x, y) = (a.rows[i][j].0, b.rows[i][j].0);
            assert!((x - y).abs() <= eps, "({}, {}): {} vs {}", i, j, x, y);
        }
    }
}

#[test]
fn sums_from_the_left() {
    assert_eq!(sum(&vec![F(0.5), F(0.25), F(4.0)]), F(4.75));
    assert_eq!(F::decimal(1, -300), F(1e-300));
    // 1e16 swallows each single one: the order is from the left.
    assert_eq!(sum(&vec![F(1e16), F(1.0), F(1.0)]), F(1e16));
    assert_eq!(sum(&vec![F(1.0), F(1.0), F(1e16)]), F(1e16 + 2.0));
}

#[test]
fn normalize1_sums_to_one() {
    let mut a = vf(&[3.0, 0.0, 1.0, 0.0, 6.0]);
    normalize1(&mut a);
    let s: f64 = a.iter().map(|v| v.0).sum();
    assert!((s - 1.0).abs() < 1e-12);
    assert_eq!(a[1], F(0.0));
    assert_eq!(a[0], F(0.3));
}

#[test]
fn normalize1_leaves_zeros() {
    let mut a = vf(&[0.0, 0.0]);
    normalize1(&mut a);
    assert_eq!(a, vf(&[0.0, 0.0]));
}

#[test]
fn normalize_axis_both_axes() {
    let a = mat(&[
        &[1.0, 2.0, 3.0, 4.0],
        &[5.0, 6.0, 7.0, 8.0],
        &[9.0, 10.0, 11.0, 12.0],
    ]);
    let mut by_cols = a.duplicate();
    normalize_axis(&mut by_cols, 0);
    for j in 0..4 {
        let s: f64 = (0..3).map(|i| by_cols.rows[i][j].0).sum();
        assert!((s - 1.0).abs() < 1e-12);
    }
    let mut by_rows = a.duplicate();
    normalize_axis(&mut by_rows, 1);
    for i in 0..3 {
        let s: f64 = by_rows.rows[i].iter().map(|v| v.0).sum();
        assert!((s - 1.0).abs() < 1e-12);
    }
}

#[test]
fn normalize_axis_preserves_zero_rows() {
    let mut a = mat(&[&[0.0, 0.0, 0.0], &[1.0, 1.0, 2.0]]);
    normalize_axis(&mut a, 1);
    assert_eq!(a.rows[0], vf(&[0.0, 0.0, 0.0]));
    assert!((a.rows[1].iter().map(|v| v.0).sum::<f64>() - 1.0).abs() < 1e-12);
}

#[test]
fn log_normalize_axis_matches_exp_sum_one() {
    let mut a = mat(&[&[0.1, 0.5, -0.2], &[2.0, -1.0, 0.3]]);
    log_normalize_axis(&mut a, 1);
    for row in a.rows.iter() {
        let s: f64 = row.iter().map(|x| x.0.exp()).sum();
        assert!((s - 1.0).abs() < 1e-12);
    }
}

#[test]
fn log_normalize_axis_single_column_collapses() {
    let mut a = mat(&[&[f64::NEG_INFINITY], &[1.0]]);
    log_normalize_axis(&mut a, 1);
    assert_eq!(a.rows, vec![vf(&[0.0]), vf(&[0.0])]);
}

#[test]
fn log_normalize_axis_by_columns() {
    let mut a = mat(&[&[0.0, 1.0], &[0.0, 1.0]]);
    log_normalize_axis(&mut a, 0);
    assert_close(&a, &mat(&[&[-(2.0f64.ln()); 2], &[-(2.0f64.ln()); 2]]), 1e-15);
}

#[test]
fn split_lengths_none_is_single_sequence() {
    assert_eq!(split_lengths(10, None).unwrap(), vec![(0, 10)]);
}

#[test]
fn split_lengths_partitions() {
    assert_eq!(
        split_lengths(10, Some(&[3, 5, 2])).unwrap(),
        vec![(0, 3), (3, 8), (8, 10)]
    );
}

#[test]
fn split_lengths_mismatch_errors() {
    assert_eq!(
        split_lengths(10, Some(&[3, 5])),
        Err(HmmError::LengthsMismatch {
            total: 8,
            n_samples: 10
        })
    );
}

#[test]
fn clamped_counting() {
    assert_eq!(clamped_sum(2, 3), 5);
    assert_eq!(clamped_sum(usize::MAX, 1), usize::MAX);
    assert_eq!(clamped_product(6, 7), 42);
    assert_eq!(clamped_product(usize::MAX, 2), usize::MAX);
}

#[test]
fn texts() {
    assert_eq!(decimal(0), "0");
    assert_eq!(decimal(1984), "1984");
    assert_eq!(align_right("7", 3), "  7");
    assert_eq!(align_right("1234", 3), "1234");
    assert_eq!(joined("a", "bc"), "abc");
}
