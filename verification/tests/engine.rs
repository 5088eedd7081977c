use hmmlearn::engine::algorithms::{
    backward_log, backward_scaling, compute_log_xi_sum, compute_posteriors_log,
    compute_posteriors_scaling, compute_scaling_xi_sum, forward_log, forward_scaling, ln_matrix,
    viterbi,
};
use hmmlearn::engine::inference::start_trans_fit_scalars;
use hmmlearn::engine::{ConvergenceMonitor, ParamSet, Variational};
use hmmlearn::matrix::Matrix;
use hmmlearn::scalar::Scalar;
use hmmlearn::util::log_normalize_axis;
use hmmlearn::HmmError;

#[derive(Clone, Copy, Debug, PartialEq)]
struct F(f64);

impl Scalar for F {
    fn of_int(n: i128) -> F {
        F(n as f64)
    }
    fn decimal(digits: i64, exponent: i32) -> F {
        F(format!("{}e{}", digits, exponent).parse().unwrap())
    }
    fn pos_inf() -> F {
        F(f64::INFINITY)
    }
    fn neg_inf() -> F {
        F(f64::NEG_INFINITY)
    }
    fn nan() -> F {
        F(f64::NAN)
    }
    fn pi() -> F {
        F(std::f64::consts::PI)
    }
    fn plus(self, o: F) -> F {
        F(self.0 + o.0)
    }
    fn minus(self, o: F) -> F {
        F(self.0 - o.0)
    }
    fn times(self, o: F) -> F {
        F(self.0 * o.0)
    }
    fn over(self, o: F) -> F {
        F(self.0 / o.0)
    }
    fn below(self, o: F) -> bool {
        self.0 < o.0
    }
    fn same(self, o: F) -> bool {
        self.0 == o.0
    }
    fn signum(self) -> F {
        F(self.0.signum())
    }
    fn ln(self) -> F {
        F(self.0.ln())
    }
    fn ln_1p(self) -> F {
        F(self.0.ln_1p())
    }
    fn exp(self) -> F {
        F(self.0.exp())
    }
    fn sqrt(self) -> F {
        F(self.0.sqrt())
    }
    fn mul_add(self, a: F, b: F) -> F {
        F(self.0.mul_add(a.0, b.0))
    }
    fn pow(self, e: F) -> F {
        F(self.0.powf(e.0))
    }
    fn floor(self) -> F {
        F(self.0.floor())
    }
    fn fract(self) -> F {
        F(self.0.fract())
    }
    fn to_int(self) -> i64 {
        self.0 as i64
    }
    fn ln_gamma(self) -> F {
        F(libm::lgamma(self.0))
    }
    fn text(self, places: Option<usize>, plus: bool) -> String {
        match (places, plus) {
            (Some(p), true) => format!("{:+.*}", p, self.0),
            (Some(p), false) => format!("{:.*}", p, self.0),
            (None, true) => format!("{:+}", self.0),
            (None, false) => format!("{}", self.0),
        }
    }
}

fn vf(v: &[f64]) -> Vec<F> {
    v.iter().map(|x| F(*x)).collect()
}

fn mat(rows: &[&[f64]]) -> Matrix<F> {
    Matrix {
        rows: rows.iter().map(|r| vf(r)).collect(),
        ncols: rows[0].len(),
    }
}

fn assert_close(a: &Matrix<F>, b: &Matrix<F>, eps: f64) {
    assert_eq!(a.rows.len(), b.rows.len());
    assert_eq!(a.ncols, b.ncols);
    for i in 0..a.rows.len() {
        for j in 0..a.ncols {
            let (x, y) = (a.rows[i][j].0, b.rows[i][j].0);
            assert!((x - y).abs() <= eps, "({}, {}): {} vs {}", i, j, x, y);
        }
    }
}

fn assert_rows_sum_to_one(post: &Matrix<F>, eps: f64) {
    for row in post.rows.iter() {
        let s: f64 = row.iter().map(|v| v.0).sum();
        assert!((s - 1.0).abs() < eps, "{}", s);
    }
}

fn wikipedia() -> (Vec<F>, Matrix<F>, Matrix<F>) {
    (
        vf(&[0.5, 0.5]),
        mat(&[&[0.7, 0.3], &[0.3, 0.7]]),
        mat(&[&[0.9, 0.2], &[0.9, 0.2], &[0.1, 0.8], &[0.9, 0.2], &[0.9, 0.2]]),
    )
}

fn ref_bwd() -> Matrix<F> {
    mat(&[
        &[0.0661, 0.0455],
        &[0.0906, 0.1503],
        &[0.4593, 0.2437],
        &[0.6900, 0.4100],
        &[1.0000, 1.0000],
    ])
}

fn exps(a: &Matrix<F>) -> Matrix<F> {
    Matrix {
        rows: a
            .rows
            .iter()
            .map(|r| r.iter().map(|v| F(v.0.exp())).collect())
            .collect(),
        ncols: a.ncols,
    }
}

#[test]
fn forward_log_matches_wikipedia() {
    let (sp, tm, fp) = wikipedia();
    let (log_prob, fwd) = forward_log(&sp, &tm, &ln_matrix(&fp));
    assert!((log_prob.0 - (-3.3725)).abs() < 5e-5);
    let ref_fwd = mat(&[
        &[0.4500, 0.1000],
        &[0.3105, 0.0410],
        &[0.0230, 0.0975],
        &[0.0408, 0.0150],
        &[0.0298, 0.0046],
    ]);
    assert_close(&exps(&fwd), &ref_fwd, 1e-3);
}

#[test]
fn forward_scaling_matches_wikipedia() {
    let (sp, tm, fp) = wikipedia();
    let (log_prob, fwd, _scaling) = forward_scaling(&sp, &tm, &fp).unwrap();
    assert!((log_prob.0 - (-3.3725)).abs() < 5e-5);
    assert_rows_sum_to_one(&fwd, 1e-12);
}

#[test]
fn forward_scaling_underflows() {
    let (sp, tm, _) = wikipedia();
    let fp = mat(&[&[0.9, 0.2], &[0.0, 0.0]]);
    assert!(matches!(
        forward_scaling(&sp, &tm, &fp),
        Err(HmmError::ScalingUnderflow)
    ));
}

#[test]
fn backward_log_matches_wikipedia() {
    let (sp, tm, fp) = wikipedia();
    let bwd = backward_log(&sp, &tm, &ln_matrix(&fp));
    assert_close(&exps(&bwd), &ref_bwd(), 1e-3);
}

#[test]
fn backward_scaling_reconstructs_wikipedia() {
    let (sp, tm, fp) = wikipedia();
    let (_lp, _fwd, scaling) = forward_scaling(&sp, &tm, &fp).unwrap();
    let mut bwd = backward_scaling(&sp, &tm, &fp, &scaling);
    let mut acc = 1.0;
    for t in (0..scaling.len()).rev() {
        acc *= scaling[t].0;
        for c in 0..2 {
            bwd.rows[t][c] = F(bwd.rows[t][c].0 / acc);
        }
    }
    assert_close(&bwd, &ref_bwd(), 1e-3);
}

#[test]
fn viterbi_matches_wikipedia() {
    let (sp, tm, fp) = wikipedia();
    let (log_prob, seq) = viterbi(&sp, &tm, &ln_matrix(&fp));
    assert_eq!(seq, vec![0, 0, 1, 0, 0]);
    assert!((log_prob.0 - (-4.4590)).abs() < 5e-5);
}

#[test]
fn viterbi_beats_every_other_path() {
    let (sp, tm, fp) = wikipedia();
    let (best, _) = viterbi(&sp, &tm, &ln_matrix(&fp));
    for code in 0..32usize {
        let path: Vec<usize> = (0..5).map(|t| (code >> t) & 1).collect();
        let mut lp = sp[path[0]].0.ln() + fp.rows[0][path[0]].0.ln();
        for t in 1..5 {
            lp += tm.rows[path[t - 1]][path[t]].0.ln() + fp.rows[t][path[t]].0.ln();
        }
        assert!(lp <= best.0 + 1e-12);
    }
}

#[test]
fn score_samples_posteriors_match_wikipedia() {
    let (sp, tm, fp) = wikipedia();
    let lfp = ln_matrix(&fp);
    let (log_prob, fwd) = forward_log(&sp, &tm, &lfp);
    let bwd = backward_log(&sp, &tm, &lfp);
    let post = compute_posteriors_log(&fwd, &bwd);
    assert!((log_prob.0 - (-3.3725)).abs() < 5e-5);
    assert_rows_sum_to_one(&post, 1e-12);
    let ref_post = mat(&[
        &[0.8673, 0.1327],
        &[0.8204, 0.1796],
        &[0.3075, 0.6925],
        &[0.8204, 0.1796],
        &[0.8673, 0.1327],
    ]);
    assert_close(&post, &ref_post, 1e-4);
}

#[test]
fn uniform_transmat_reduces_to_softmax_posteriors() {
    let nc = 4;
    let u = 1.0 / nc as f64;
    let sp = vf(&[u; 4]);
    let tm = mat(&[&[u; 4], &[u; 4], &[u; 4], &[u; 4]]);
    let lfp = mat(&[
        &[-0.2, -1.0, -0.5, -2.0],
        &[-1.5, -0.3, -0.7, -0.1],
        &[-0.9, -0.9, -0.2, -1.1],
    ]);
    let (_lp, fwd) = forward_log(&sp, &tm, &lfp);
    let bwd = backward_log(&sp, &tm, &lfp);
    let post = compute_posteriors_log(&fwd, &bwd);
    let mut expected = lfp.duplicate();
    log_normalize_axis(&mut expected, 1);
    assert_close(&post, &exps(&expected), 1e-12);
}

#[test]
fn transition_sums_of_both_paths_agree() {
    let (sp, tm, fp) = wikipedia();
    let lfp = ln_matrix(&fp);
    let (log_prob, fwd) = forward_log(&sp, &tm, &lfp);
    let bwd = backward_log(&sp, &tm, &lfp);
    let by_log = exps(&compute_log_xi_sum(&fwd, &tm, &bwd, &lfp));
    let (log_prob2, fwd2, scaling) = forward_scaling(&sp, &tm, &fp).unwrap();
    let bwd2 = backward_scaling(&sp, &tm, &fp, &scaling);
    let by_scaling = compute_scaling_xi_sum(&fwd2, &tm, &bwd2, &fp);
    assert!((log_prob.0 - log_prob2.0).abs() < 1e-12);
    assert_close(&by_log, &by_scaling, 1e-12);
    let mass: f64 = by_log.rows.iter().flatten().map(|v| v.0).sum();
    assert!((mass - 4.0).abs() < 1e-12);
    let post = compute_posteriors_scaling(&fwd2, &bwd2);
    assert_rows_sum_to_one(&post, 1e-12);
}

#[test]
fn converged_by_iterations() {
    let mut m = ConvergenceMonitor::new(F(1e-3), 2, false);
    assert!(!m.converged());
    m.report(F(-0.01));
    assert!(!m.converged());
    m.report(F(-0.1));
    assert!(m.converged());
}

#[test]
fn converged_by_log_prob() {
    let mut m = ConvergenceMonitor::new(F(1e-3), 10, false);
    for lp in [-0.03, -0.02, -0.01] {
        m.report(F(lp));
        assert!(!m.converged());
    }
    m.report(F(-0.0101));
    assert!(m.converged());
}

#[test]
fn reset_clears_state() {
    let mut m = ConvergenceMonitor::new(F(1e-3), 10, false);
    m.iter = 1;
    m.history.push(F(-0.01));
    m.reset();
    assert_eq!(m.iter, 0);
    assert!(m.history.is_empty());
}

#[test]
fn report_builds_history() {
    let mut m = ConvergenceMonitor::new(F(1e-3), 10, false);
    for i in (0..10).rev() {
        m.report(F(-0.01 * i as f64));
    }
    assert_eq!(m.history.len(), 10);
    assert_eq!(m.iter, 10);
}

#[test]
fn report_format_matches_hmmlearn() {
    assert_eq!(
        ConvergenceMonitor::format_report(1, F(-0.01), F(f64::NAN)),
        "         1      -0.01000000             +nan"
    );
    assert_eq!(
        ConvergenceMonitor::format_report(2, F(-0.1), F(-0.09)),
        "         2      -0.10000000      -0.09000000"
    );
    assert_eq!(
        ConvergenceMonitor::format_report(3, F(1.5), F(0.25)),
        "         3       1.50000000      +0.25000000"
    );
}

#[test]
fn report_lines_and_warnings() {
    let mut m = ConvergenceMonitor::new(F(1e-3), 10, true);
    assert_eq!(
        m.report(F(-0.25)),
        vec!["         1      -0.25000000             +nan".to_string()]
    );
    assert_eq!(
        m.report(F(-0.5)),
        vec![
            "         2      -0.50000000      -0.25000000".to_string(),
            "Model is not converging.  Current: -0.5 is not greater than -0.25. Delta is -0.25"
                .to_string()
        ]
    );
    let mut quiet = ConvergenceMonitor::new(F(1e-3), 10, false);
    assert!(quiet.report(F(-0.5)).is_empty());
}

#[test]
fn em_start_counts_scalars() {
    assert_eq!(start_trans_fit_scalars(3, ParamSet::from_codes("st")), 8);
    assert_eq!(start_trans_fit_scalars(3, ParamSet::from_codes("s")), 2);
    assert_eq!(start_trans_fit_scalars(3, ParamSet::from_codes("e")), 0);
}

#[test]
fn variational_posterior_means() {
    let v = Variational::new(
        2,
        None,
        None,
        None,
        Some(vf(&[1.0, 3.0])),
        None,
        Some(mat(&[&[1.0, 1.0], &[0.0, 0.0]])),
    );
    assert_eq!(v.startprob, vf(&[0.25, 0.75]));
    assert_eq!(v.transmat.rows, vec![vf(&[0.5, 0.5]), vf(&[0.0, 0.0])]);
    assert_eq!(*v.startprob_posterior(), vf(&[1.0, 3.0]));
}

fn paths() -> Vec<Vec<usize>> {
    (0..32usize)
        .map(|code| (0..5).map(|t| (code >> t) & 1).collect())
        .collect()
}

fn weight(sp: &[F], tm: &Matrix<F>, fp: &Matrix<F>, path: &[usize]) -> f64 {
    let mut w = sp[path[0]].0 * fp.rows[0][path[0]].0;
    for t in 1..path.len() {
        w *= tm.rows[path[t - 1]][path[t]].0 * fp.rows[t][path[t]].0;
    }
    w
}

#[test]
fn both_passes_sum_over_all_paths() {
    let (sp, tm, fp) = wikipedia();
    let whole: f64 = paths().iter().map(|p| weight(&sp, &tm, &fp, p)).sum();
    let (by_log, _) = forward_log(&sp, &tm, &ln_matrix(&fp));
    let (by_scaling, _, _) = forward_scaling(&sp, &tm, &fp).unwrap();
    assert!((by_log.0.exp() - whole).abs() < 1e-15);
    assert!((by_scaling.0.exp() - whole).abs() < 1e-15);
}

#[test]
fn posteriors_are_shares_of_the_paths() {
    let (sp, tm, fp) = wikipedia();
    let lfp = ln_matrix(&fp);
    let (_, fwd) = forward_log(&sp, &tm, &lfp);
    let bwd = backward_log(&sp, &tm, &lfp);
    let post = compute_posteriors_log(&fwd, &bwd);
    let whole: f64 = paths().iter().map(|p| weight(&sp, &tm, &fp, p)).sum();
    for t in 0..5 {
        for c in 0..2 {
            let share: f64 = paths()
                .iter()
                .filter(|p| p[t] == c)
                .map(|p| weight(&sp, &tm, &fp, p))
                .sum();
            assert!((post.rows[t][c].0 - share / whole).abs() < 1e-12);
        }
    }
}

#[test]
fn transitions_add_up_to_posteriors() {
    let (sp, tm, fp) = wikipedia();
    let lfp = ln_matrix(&fp);
    let (_, fwd) = forward_log(&sp, &tm, &lfp);
    let bwd = backward_log(&sp, &tm, &lfp);
    let xi = exps(&compute_log_xi_sum(&fwd, &tm, &bwd, &lfp));
    let post = compute_posteriors_log(&fwd, &bwd);
    let n = post.rows.len();
    for k in 0..2 {
        let from: f64 = (0..2).map(|j| xi.rows[k][j].0).sum();
        let into: f64 = (0..2).map(|i| xi.rows[i][k].0).sum();
        let but_last: f64 = (0..n - 1).map(|t| post.rows[t][k].0).sum();
        let but_first: f64 = (1..n).map(|t| post.rows[t][k].0).sum();
        assert!((from - but_last).abs() < 1e-12);
        assert!((into - but_first).abs() < 1e-12);
    }
}

#[test]
fn scaled_rows_are_normalised_log_rows() {
    let (sp, tm, fp) = wikipedia();
    let (_, fwd) = forward_log(&sp, &tm, &ln_matrix(&fp));
    let (_, scaled, _) = forward_scaling(&sp, &tm, &fp).unwrap();
    let plain = exps(&fwd);
    for t in 0..plain.rows.len() {
        let sum: f64 = plain.rows[t].iter().map(|v| v.0).sum();
        for j in 0..2 {
            assert!((scaled.rows[t][j].0 - plain.rows[t][j].0 / sum).abs() < 1e-12);
        }
    }
}
