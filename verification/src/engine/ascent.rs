//! Expectation-maximisation never lowers the likelihood, where arithmetic is exact.
//!
//! The inequality is that of mathematical reals: the logarithm of the likelihood
//! gains at least the expected log-ratios of the new parameters to the old, by the
//! log-sum inequality taken frame by frame from the last to the first; and the
//! expected counts, normalised, make those ratios add up to zero or more.

use crate::reals::{
    is_ln, ln_of_one, log_sum_inequality, rsum, rsum_add, rsum_ext, rsum_le, rsum_member,
    rsum_positive, rsum_scale, rsum_swap, rsum_zero,
};
use vstd::prelude::*;

verus! {

/// A chain over `nc` states and its likelihoods at `n` frames, in reals.
pub struct Trellis {
    /// The number of states.
    pub nc: int,
    /// The number of frames.
    pub n: int,
    /// The probability of starting in a state.
    pub start: spec_fn(int) -> real,
    /// The probability of passing from a state to another.
    pub trans: spec_fn(int, int) -> real,
    /// The likelihood of a frame in a state.
    pub emit: spec_fn(int, int) -> real,
}

impl Trellis {
    /// There is a frame, and nothing is negative.
    pub open spec fn wf(self) -> bool {
        &&& self.n >= 1
        &&& forall|i: int| 0 <= i < self.nc ==> 0real <= #[trigger] (self.start)(i)
        &&& forall|i: int, j: int|
            0 <= i < self.nc && 0 <= j < self.nc ==> 0real <= #[trigger] (self.trans)(i, j)
        &&& forall|t: int, j: int|
            0 <= t < self.n && 0 <= j < self.nc ==> 0real <= #[trigger] (self.emit)(t, j)
    }

    /// The probability of the first `t + 1` frames and of each state at frame `t`.
    pub open spec fn alpha(self, t: int) -> spec_fn(int) -> real
        decreases t,
    {
        if t <= 0 {
            |j: int| (self.start)(j) * (self.emit)(0, j)
        } else {
            let prev = self.alpha(t - 1);
            |j: int| rsum(self.nc, |i: int| prev(i) * (self.trans)(i, j)) * (self.emit)(t, j)
        }
    }

    /// The probability of the frames after `t`, given each state at frame `t`.
    pub open spec fn beta(self, t: int) -> spec_fn(int) -> real
        decreases self.n - t,
    {
        if t >= self.n - 1 {
            |i: int| 1real
        } else {
            let next = self.beta(t + 1);
            |i: int|
                rsum(self.nc, |j: int| (self.trans)(i, j) * (self.emit)(t + 1, j) * next(j))
        }
    }

    /// The probability of all frames.
    pub open spec fn mass(self) -> real {
        rsum(self.nc, self.alpha(self.n - 1))
    }

    /// The probability of all frames and of state `i` at frame `t`.
    pub open spec fn at(self, t: int, i: int) -> real {
        self.alpha(t)(i) * self.beta(t)(i)
    }

    /// The probability of passing from state `i` to state `j` after frame `t` and of
    /// the frames from there on.
    pub open spec fn step(self, t: int, i: int, j: int) -> real {
        (self.trans)(i, j) * (self.emit)(t + 1, j) * self.beta(t + 1)(j)
    }

    /// The probability of all frames, of state `i` at frame `t` and of state `j` at
    /// frame `t + 1`.
    pub open spec fn passing(self, t: int, i: int, j: int) -> real {
        self.alpha(t)(i) * self.step(t, i, j)
    }
}

pub(crate) proof fn product_not_negative(a: real, b: real)
    requires
        0real <= a,
        0real <= b,
    ensures
        0real <= a * b,
        0real < a * b <==> 0real < a && 0real < b,
{
    assert(0real <= a * b && (0real < a * b <==> 0real < a && 0real < b)) by (nonlinear_arith)
        requires
            0real <= a,
            0real <= b,
    ;
}

pub(crate) proof fn alpha_not_negative(c: Trellis, t: int, j: int)
    requires
        c.wf(),
        0 <= t < c.n,
        0 <= j < c.nc,
    ensures
        0real <= c.alpha(t)(j),
    decreases t,
{
    assert(0real <= (c.emit)(t, j));
    if t > 0 {
        let prev = c.alpha(t - 1);
        let f = |i: int| prev(i) * (c.trans)(i, j);
        assert forall|i: int| 0 <= i < c.nc implies 0real <= #[trigger] f(i) by {
            alpha_not_negative(c, t - 1, i);
            assert(0real <= (c.trans)(i, j));
            product_not_negative(prev(i), (c.trans)(i, j));
        }
        rsum_member(c.nc, f, 0);
        product_not_negative(rsum(c.nc, f), (c.emit)(t, j));
    } else {
        assert(0real <= (c.start)(j));
        product_not_negative((c.start)(j), (c.emit)(0, j));
    }
}

proof fn step_not_negative(c: Trellis, t: int, i: int, j: int)
    requires
        c.wf(),
        0 <= t < c.n - 1,
        0 <= i < c.nc,
        0 <= j < c.nc,
        0real <= c.beta(t + 1)(j),
    ensures
        0real <= c.step(t, i, j),
        0real < c.step(t, i, j) <==> 0real < (c.trans)(i, j) && 0real < (c.emit)(t + 1, j) && 0real
            < c.beta(t + 1)(j),
{
    assert(0real <= (c.trans)(i, j));
    assert(0real <= (c.emit)(t + 1, j));
    product_not_negative((c.trans)(i, j), (c.emit)(t + 1, j));
    product_not_negative((c.trans)(i, j) * (c.emit)(t + 1, j), c.beta(t + 1)(j));
}

pub(crate) proof fn beta_not_negative(c: Trellis, t: int, i: int)
    requires
        c.wf(),
        0 <= t < c.n,
        0 <= i < c.nc,
    ensures
        0real <= c.beta(t)(i),
    decreases c.n - t,
{
    if t < c.n - 1 {
        let f = |j: int| c.step(t, i, j);
        assert forall|j: int| 0 <= j < c.nc implies 0real <= #[trigger] f(j) by {
            beta_not_negative(c, t + 1, j);
            step_not_negative(c, t, i, j);
        }
        rsum_member(c.nc, f, 0);
        beta_is_sum(c, t, i);
    }
}

proof fn beta_is_sum(c: Trellis, t: int, i: int)
    requires
        0 <= t < c.n - 1,
    ensures
        c.beta(t)(i) == rsum(c.nc, |j: int| c.step(t, i, j)),
{
    let next = c.beta(t + 1);
    rsum_ext(
        c.nc,
        |j: int| (c.trans)(i, j) * (c.emit)(t + 1, j) * next(j),
        |j: int| c.step(t, i, j),
    );
}

/// What passes from a state is what is there.
proof fn passing_from(c: Trellis, t: int, i: int)
    requires
        0 <= t < c.n - 1,
    ensures
        rsum(c.nc, |j: int| c.passing(t, i, j)) == c.at(t, i),
{
    let a = c.alpha(t)(i);
    let f = |j: int| c.step(t, i, j);
    beta_is_sum(c, t, i);
    rsum_scale(c.nc, f, a);
    let g = |j: int| c.passing(t, i, j);
    assert forall|j: int| 0 <= j < c.nc implies #[trigger] g(j) == (|j: int| f(j) * a)(j) by {
        let b = f(j);
        assert(a * b == b * a) by (nonlinear_arith);
    }
    rsum_ext(c.nc, g, |j: int| f(j) * a);
    let b = c.beta(t)(i);
    assert(a * b == b * a) by (nonlinear_arith);
}

/// What passes into a state is what is there.
proof fn passing_into(c: Trellis, t: int, j: int)
    requires
        0 <= t < c.n - 1,
    ensures
        rsum(c.nc, |i: int| c.passing(t, i, j)) == c.at(t + 1, j),
{
    let prev = c.alpha(t);
    let e = (c.emit)(t + 1, j);
    let b = c.beta(t + 1)(j);
    let f = |i: int| prev(i) * (c.trans)(i, j);
    rsum_scale(c.nc, f, e * b);
    let g = |i: int| c.passing(t, i, j);
    assert forall|i: int| 0 <= i < c.nc implies #[trigger] g(i) == (|i: int| f(i) * (e * b))(i) by {
        let x = prev(i);
        let y = (c.trans)(i, j);
        assert(x * (y * e * b) == (x * y) * (e * b)) by (nonlinear_arith);
    }
    rsum_ext(c.nc, g, |i: int| f(i) * (e * b));
    let s = rsum(c.nc, f);
    assert(s * (e * b) == (s * e) * b) by (nonlinear_arith);
    assert(c.alpha(t + 1)(j) == s * e);
}

/// At every frame the states share the whole.
proof fn states_share_the_mass(c: Trellis, t: int)
    requires
        0 <= t < c.n,
    ensures
        rsum(c.nc, |i: int| c.at(t, i)) == c.mass(),
    decreases c.n - t,
{
    let here = |i: int| c.at(t, i);
    if t == c.n - 1 {
        let last = c.alpha(t);
        assert forall|i: int| 0 <= i < c.nc implies #[trigger] here(i) == last(i) by {
            let a = last(i);
            assert(a * 1real == a) by (nonlinear_arith);
        }
        rsum_ext(c.nc, here, last);
    } else {
        states_share_the_mass(c, t + 1);
        let f = |i: int, j: int| c.passing(t, i, j);
        rsum_swap(c.nc, c.nc, f);
        assert forall|i: int| 0 <= i < c.nc implies #[trigger] here(i) == (|i: int|
            rsum(c.nc, |j: int| f(i, j)))(i) by {
            passing_from(c, t, i);
            rsum_ext(c.nc, |j: int| c.passing(t, i, j), |j: int| f(i, j));
        }
        rsum_ext(c.nc, here, |i: int| rsum(c.nc, |j: int| f(i, j)));
        let there = |j: int| c.at(t + 1, j);
        assert forall|j: int| 0 <= j < c.nc implies #[trigger] there(j) == (|j: int|
            rsum(c.nc, |i: int| f(i, j)))(j) by {
            passing_into(c, t, j);
            rsum_ext(c.nc, |i: int| c.passing(t, i, j), |i: int| f(i, j));
        }
        rsum_ext(c.nc, there, |j: int| rsum(c.nc, |i: int| f(i, j)));
    }
}

/// `new` is over the same states and frames, and keeps possible what has a part in
/// the frames under `old`.
pub open spec fn keeps_possible(old: Trellis, new: Trellis) -> bool {
    &&& old.nc == new.nc
    &&& old.n == new.n
    &&& forall|i: int|
        0 <= i < old.nc && 0real < #[trigger] old.at(0, i) ==> 0real < (new.start)(i)
    &&& forall|t: int, i: int, j: int|
        0 <= t < old.n - 1 && 0 <= i < old.nc && 0 <= j < old.nc && 0real < #[trigger] old.passing(
            t,
            i,
            j,
        ) ==> 0real < (new.trans)(i, j)
    &&& forall|t: int, j: int|
        0 <= t < old.n && 0 <= j < old.nc && 0real < #[trigger] old.at(t, j) ==> 0real < (new.emit)(
            t,
            j,
        )
}

/// The expected log-ratio of the new transitions to the old after frame `t`.
pub open spec fn trans_gain(ln: spec_fn(real) -> real, old: Trellis, new: Trellis, t: int) -> real {
    rsum(
        old.nc,
        |i: int|
            rsum(
                old.nc,
                |j: int| old.passing(t, i, j) * (ln((new.trans)(i, j)) - ln((old.trans)(i, j))),
            ),
    )
}

/// The expected log-ratio of the new likelihoods of frame `t` to the old.
pub open spec fn emit_gain(ln: spec_fn(real) -> real, old: Trellis, new: Trellis, t: int) -> real {
    rsum(old.nc, |j: int| old.at(t, j) * (ln((new.emit)(t, j)) - ln((old.emit)(t, j))))
}

/// The expected log-ratio of the new start to the old.
pub open spec fn start_gain(ln: spec_fn(real) -> real, old: Trellis, new: Trellis) -> real {
    rsum(old.nc, |i: int| old.at(0, i) * (ln((new.start)(i)) - ln((old.start)(i))))
}

/// The expected log-ratio of what follows frame `t`.
spec fn rest_gain(ln: spec_fn(real) -> real, old: Trellis, new: Trellis, t: int) -> real {
    rsum(old.nc, |i: int| old.at(t, i) * (ln(new.beta(t)(i)) - ln(old.beta(t)(i))))
}

/// A transition and the frame it leads to, for one state at frame `t`.
spec fn mixed(ln: spec_fn(real) -> real, old: Trellis, new: Trellis, t: int, i: int, j: int) -> real {
    old.passing(t, i, j) * ((ln((new.trans)(i, j)) - ln((old.trans)(i, j))) + (ln(
        (new.emit)(t + 1, j),
    ) - ln((old.emit)(t + 1, j))) + (ln(new.beta(t + 1)(j)) - ln(old.beta(t + 1)(j))))
}

/// The log-sum inequality for what passes from one state.
proof fn row_gains(ln: spec_fn(real) -> real, old: Trellis, new: Trellis, t: int, i: int)
    requires
        is_ln(ln),
        old.wf(),
        new.wf(),
        keeps_possible(old, new),
        0 <= t < old.n - 1,
        0 <= i < old.nc,
        forall|j: int|
            0 <= j < old.nc && 0real < #[trigger] old.at(t + 1, j) ==> 0real < new.beta(t + 1)(j),
    ensures
        0real < old.at(t, i) ==> 0real < new.beta(t)(i),
        rsum(old.nc, |j: int| mixed(ln, old, new, t, i, j)) <= old.at(t, i) * (ln(new.beta(t)(i))
            - ln(old.beta(t)(i))),
{
    let nc = old.nc;
    let a = old.alpha(t)(i);
    let b = old.beta(t)(i);
    let gap = ln(new.beta(t)(i)) - ln(b);
    let lhs = |j: int| mixed(ln, old, new, t, i, j);
    let c = |j: int| old.step(t, i, j);
    let d = |j: int| new.step(t, i, j);
    alpha_not_negative(old, t, i);
    beta_not_negative(old, t, i);
    product_not_negative(a, b);
    beta_is_sum(old, t, i);
    beta_is_sum(new, t, i);
    assert forall|j: int| 0 <= j < nc implies 0real <= #[trigger] c(j) && 0real <= d(j) by {
        beta_not_negative(old, t + 1, j);
        beta_not_negative(new, t + 1, j);
        step_not_negative(old, t, i, j);
        step_not_negative(new, t, i, j);
    }
    assert forall|j: int| 0 <= j < nc implies 0real <= #[trigger] d(j) by {
        assert(0real <= c(j));
    }
    if old.at(t, i) == 0real {
        let pass = |j: int| old.passing(t, i, j);
        passing_from(old, t, i);
        assert forall|j: int| 0 <= j < nc implies 0real <= #[trigger] pass(j) by {
            assert(0real <= c(j));
            product_not_negative(a, c(j));
        }
        assert forall|j: int| 0 <= j < nc implies #[trigger] lhs(j) == 0real by {
            rsum_member(nc, pass, j);
            let x = pass(j);
            assert(0real <= x && x <= 0real);
            let y = (ln((new.trans)(i, j)) - ln((old.trans)(i, j))) + (ln((new.emit)(t + 1, j)) - ln(
                (old.emit)(t + 1, j),
            )) + (ln(new.beta(t + 1)(j)) - ln(old.beta(t + 1)(j)));
            assert(x * y == 0real) by (nonlinear_arith)
                requires
                    x == 0real,
            ;
        }
        rsum_zero(nc, lhs);
        assert(0real * gap == 0real) by (nonlinear_arith);
    } else {
        assert(0real < a && 0real < b);
        assert forall|j: int| 0 <= j < nc && 0real < #[trigger] c(j) implies 0real < d(j) && lhs(j)
            == (c(j) * (ln(d(j)) - ln(c(j)))) * a by {
            beta_not_negative(old, t + 1, j);
            beta_not_negative(new, t + 1, j);
            step_not_negative(old, t, i, j);
            step_not_negative(new, t, i, j);
            product_not_negative(a, c(j));
            assert(0real < old.passing(t, i, j));
            arrives(old, t, i, j);
            assert(0real < old.at(t + 1, j));
            let x = (old.trans)(i, j);
            let y = (old.emit)(t + 1, j);
            let z = old.beta(t + 1)(j);
            let u = (new.trans)(i, j);
            let v = (new.emit)(t + 1, j);
            let w = new.beta(t + 1)(j);
            assert(0real < u && 0real < v && 0real < w);
            product_not_negative(x, y);
            product_not_negative(u, v);
            assert(ln(x * y) == ln(x) + ln(y));
            assert(ln((x * y) * z) == ln(x * y) + ln(z));
            assert(ln(u * v) == ln(u) + ln(v));
            assert(ln((u * v) * w) == ln(u * v) + ln(w));
            let k = (ln(u) - ln(x)) + (ln(v) - ln(y)) + (ln(w) - ln(z));
            let s = c(j);
            assert(ln(d(j)) - ln(s) == k);
            assert((a * s) * k == (s * k) * a) by (nonlinear_arith);
        }
        log_sum_inequality(ln, nc, c, d);
        let term = |j: int| c(j) * (ln(d(j)) - ln(c(j)));
        assert forall|j: int| 0 <= j < nc implies #[trigger] lhs(j) == (|j: int| term(j) * a)(j) by {
            assert(0real <= c(j));
            if !(0real < c(j)) {
                let s = c(j);
                let k = ln(d(j)) - ln(s);
                let y = (ln((new.trans)(i, j)) - ln((old.trans)(i, j))) + (ln((new.emit)(t + 1, j))
                    - ln((old.emit)(t + 1, j))) + (ln(new.beta(t + 1)(j)) - ln(
                    old.beta(t + 1)(j),
                ));
                assert((a * s) * y == 0real && (s * k) * a == 0real) by (nonlinear_arith)
                    requires
                        s == 0real,
                ;
            }
        }
        rsum_ext(nc, lhs, |j: int| term(j) * a);
        rsum_scale(nc, term, a);
        let total = rsum(nc, term);
        assert(total <= b * gap);
        assert(total * a <= (a * b) * gap) by (nonlinear_arith)
            requires
                total <= b * gap,
                0real < a,
        ;
    }
}

/// What passes into a state has a part in what is there.
proof fn arrives(c: Trellis, t: int, i: int, j: int)
    requires
        c.wf(),
        0 <= t < c.n - 1,
        0 <= i < c.nc,
        0 <= j < c.nc,
    ensures
        c.passing(t, i, j) <= c.at(t + 1, j),
{
    let col = |k: int| c.passing(t, k, j);
    assert forall|k: int| 0 <= k < c.nc implies 0real <= #[trigger] col(k) by {
        alpha_not_negative(c, t, k);
        beta_not_negative(c, t + 1, j);
        step_not_negative(c, t, k, j);
        product_not_negative(c.alpha(t)(k), c.step(t, k, j));
    }
    rsum_member(c.nc, col, i);
    passing_into(c, t, j);
}

/// The expected log-ratios after frame `t`.
pub open spec fn gains_after(ln: spec_fn(real) -> real, old: Trellis, new: Trellis, t: int) -> real
    decreases old.n - t,
{
    if t >= old.n - 1 {
        0real
    } else {
        trans_gain(ln, old, new, t) + emit_gain(ln, old, new, t + 1) + gains_after(
            ln,
            old,
            new,
            t + 1,
        )
    }
}

/// What follows frame `t` gains at least the expected log-ratios from there on.
proof fn rest_gains(ln: spec_fn(real) -> real, old: Trellis, new: Trellis, t: int)
    requires
        is_ln(ln),
        old.wf(),
        new.wf(),
        keeps_possible(old, new),
        0 <= t < old.n,
    ensures
        forall|i: int| 0 <= i < old.nc && 0real < #[trigger] old.at(t, i) ==> 0real < new.beta(t)(i),
        gains_after(ln, old, new, t) <= rest_gain(ln, old, new, t),
    decreases old.n - t,
{
    let nc = old.nc;
    let rest = |i: int| old.at(t, i) * (ln(new.beta(t)(i)) - ln(old.beta(t)(i)));
    if t == old.n - 1 {
        assert forall|i: int| 0 <= i < nc implies #[trigger] rest(i) == 0real by {
            let a = old.at(t, i);
            assert(a * (ln(1real) - ln(1real)) == 0real) by (nonlinear_arith);
        }
        rsum_zero(nc, rest);
    } else {
        rest_gains(ln, old, new, t + 1);
        let rows = |i: int| rsum(nc, |j: int| mixed(ln, old, new, t, i, j));
        assert forall|i: int| 0 <= i < nc implies #[trigger] rows(i) <= rest(i) by {
            row_gains(ln, old, new, t, i);
        }
        assert forall|i: int| 0 <= i < nc && 0real < #[trigger] old.at(t, i) implies 0real
            < new.beta(t)(i) by {
            row_gains(ln, old, new, t, i);
        }
        rsum_le(nc, rows, rest);
        split_rows(ln, old, new, t);
    }
}

/// The rows of [`mixed`] add up to the gains of the transitions, of the next frame
/// and of what follows it.
proof fn split_rows(ln: spec_fn(real) -> real, old: Trellis, new: Trellis, t: int)
    requires
        0 <= t < old.n - 1,
    ensures
        rsum(old.nc, |i: int| rsum(old.nc, |j: int| mixed(ln, old, new, t, i, j))) == trans_gain(
            ln,
            old,
            new,
            t,
        ) + emit_gain(ln, old, new, t + 1) + rest_gain(ln, old, new, t + 1),
{
    let nc = old.nc;
    let k = |j: int|
        (ln((new.emit)(t + 1, j)) - ln((old.emit)(t + 1, j))) + (ln(new.beta(t + 1)(j)) - ln(
            old.beta(t + 1)(j),
        ));
    let f = |i: int, j: int|
        old.passing(t, i, j) * (ln((new.trans)(i, j)) - ln((old.trans)(i, j)));
    let g = |i: int, j: int| old.passing(t, i, j) * k(j);
    let row_f = |i: int|
        rsum(
            nc,
            |j: int| old.passing(t, i, j) * (ln((new.trans)(i, j)) - ln((old.trans)(i, j))),
        );
    let row_g = |i: int| rsum(nc, |j: int| g(i, j));
    let rows = |i: int| rsum(nc, |j: int| mixed(ln, old, new, t, i, j));
    assert forall|i: int| 0 <= i < nc implies #[trigger] rows(i) == (|i: int|
        row_f(i) + row_g(i))(i) by {
        let fi = |j: int| f(i, j);
        let gi = |j: int| g(i, j);
        rsum_add(nc, fi, gi);
        let mi = |j: int| mixed(ln, old, new, t, i, j);
        assert forall|j: int| 0 <= j < nc implies #[trigger] mi(j) == (|j: int| fi(j) + gi(j))(j) by {
            let x = old.passing(t, i, j);
            let y = ln((new.trans)(i, j)) - ln((old.trans)(i, j));
            let u = ln((new.emit)(t + 1, j)) - ln((old.emit)(t + 1, j));
            let v = ln(new.beta(t + 1)(j)) - ln(old.beta(t + 1)(j));
            assert(x * (y + u + v) == x * y + x * (u + v)) by (nonlinear_arith);
        }
        rsum_ext(nc, mi, |j: int| fi(j) + gi(j));
        rsum_ext(
            nc,
            |j: int| old.passing(t, i, j) * (ln((new.trans)(i, j)) - ln((old.trans)(i, j))),
            fi,
        );
        rsum_ext(nc, |j: int| g(i, j), gi);
    }
    rsum_ext(nc, rows, |i: int| row_f(i) + row_g(i));
    rsum_add(nc, row_f, row_g);
    rsum_swap(nc, nc, g);
    let col_g = |j: int| rsum(nc, |i: int| g(i, j));
    let e = |j: int| old.at(t + 1, j) * (ln((new.emit)(t + 1, j)) - ln((old.emit)(t + 1, j)));
    let r = |j: int| old.at(t + 1, j) * (ln(new.beta(t + 1)(j)) - ln(old.beta(t + 1)(j)));
    assert forall|j: int| 0 <= j < nc implies #[trigger] col_g(j) == (|j: int| e(j) + r(j))(j) by {
        let pass = |i: int| old.passing(t, i, j);
        rsum_scale(nc, pass, k(j));
        rsum_ext(nc, |i: int| g(i, j), |i: int| pass(i) * k(j));
        passing_into(old, t, j);
        let x = old.at(t + 1, j);
        let u = ln((new.emit)(t + 1, j)) - ln((old.emit)(t + 1, j));
        let v = ln(new.beta(t + 1)(j)) - ln(old.beta(t + 1)(j));
        assert(x * (u + v) == x * u + x * v) by (nonlinear_arith);
    }
    rsum_ext(nc, col_g, |j: int| e(j) + r(j));
    rsum_add(nc, e, r);
}

/// The logarithm of the likelihood, weighted by the likelihood, gains at least the
/// expected log-ratios of all the parameters.
pub proof fn likelihood_gains(ln: spec_fn(real) -> real, old: Trellis, new: Trellis)
    requires
        is_ln(ln),
        old.wf(),
        new.wf(),
        keeps_possible(old, new),
        0real < old.mass(),
    ensures
        0real < new.mass(),
        start_gain(ln, old, new) + emit_gain(ln, old, new, 0) + gains_after(ln, old, new, 0)
            <= old.mass() * (ln(new.mass()) - ln(old.mass())),
{
    let nc = old.nc;
    let c = |i: int| old.at(0, i);
    let d = |i: int| new.at(0, i);
    rest_gains(ln, old, new, 0);
    states_share_the_mass(old, 0);
    states_share_the_mass(new, 0);
    let s = |i: int| old.at(0, i) * (ln((new.start)(i)) - ln((old.start)(i)));
    let e = |i: int| old.at(0, i) * (ln((new.emit)(0, i)) - ln((old.emit)(0, i)));
    let r = |i: int| old.at(0, i) * (ln(new.beta(0)(i)) - ln(old.beta(0)(i)));
    let se = |i: int| s(i) + e(i);
    let all = |i: int| se(i) + r(i);
    let term = |i: int| c(i) * (ln(d(i)) - ln(c(i)));
    assert forall|i: int| 0 <= i < nc implies 0real <= #[trigger] c(i) && 0real <= d(i) && (0real
        < c(i) ==> 0real < d(i)) && all(i) == term(i) by {
        let x = (old.start)(i);
        let y = (old.emit)(0, i);
        let z = old.beta(0)(i);
        let u = (new.start)(i);
        let v = (new.emit)(0, i);
        let w = new.beta(0)(i);
        alpha_not_negative(old, 0, i);
        alpha_not_negative(new, 0, i);
        beta_not_negative(old, 0, i);
        beta_not_negative(new, 0, i);
        assert(0real <= x && 0real <= y && 0real <= u && 0real <= v);
        product_not_negative(x, y);
        product_not_negative(u, v);
        product_not_negative(x * y, z);
        product_not_negative(u * v, w);
        let a = c(i);
        let ks = ln(u) - ln(x);
        let ke = ln(v) - ln(y);
        let kr = ln(w) - ln(z);
        if 0real < a {
            assert(0real < old.at(0, i));
            assert(0real < u && 0real < v && 0real < w);
            assert(ln(x * y) == ln(x) + ln(y));
            assert(ln((x * y) * z) == ln(x * y) + ln(z));
            assert(ln(u * v) == ln(u) + ln(v));
            assert(ln((u * v) * w) == ln(u * v) + ln(w));
            let k = ln(d(i)) - ln(a);
            assert(k == ks + ke + kr);
            assert(a * ks + a * ke + a * kr == a * k) by (nonlinear_arith)
                requires
                    k == ks + ke + kr,
            ;
        } else {
            let k = ln(d(i)) - ln(a);
            assert(a * ks + a * ke + a * kr == a * k) by (nonlinear_arith)
                requires
                    a == 0real,
            ;
        }
    }
    assert forall|i: int| 0 <= i < nc implies 0real <= #[trigger] d(i) by {
        assert(0real <= c(i));
    }
    assert forall|i: int| 0 <= i < nc implies #[trigger] all(i) == term(i) by {
        assert(0real <= c(i));
    }
    log_sum_inequality(ln, nc, c, d);
    rsum_ext(nc, all, term);
    rsum_add(nc, se, r);
    rsum_add(nc, s, e);
}

/// Counts `c`, normalised to `b`, have log-ratios to a distribution `a` that, weighted
/// by the counts, add up to zero or more.
proof fn normalised_counts_gain(
    ln: spec_fn(real) -> real,
    n: int,
    c: spec_fn(int) -> real,
    a: spec_fn(int) -> real,
    b: spec_fn(int) -> real,
)
    requires
        is_ln(ln),
        forall|i: int| 0 <= i < n ==> 0real <= #[trigger] c(i),
        forall|i: int| 0 <= i < n ==> 0real <= #[trigger] a(i),
        forall|i: int| 0 <= i < n && 0real < #[trigger] c(i) ==> 0real < a(i) && 0real < b(i),
        0real < rsum(n, c) ==> rsum(n, a) == 1real,
        forall|i: int| 0 <= i < n ==> #[trigger] b(i) * rsum(n, c) == c(i),
    ensures
        0real <= rsum(n, |i: int| c(i) * (ln(b(i)) - ln(a(i)))),
{
    let s = rsum(n, c);
    let gain = |i: int| c(i) * (ln(b(i)) - ln(a(i)));
    rsum_member(n, c, 0);
    if s == 0real {
        assert forall|i: int| 0 <= i < n implies #[trigger] gain(i) == 0real by {
            rsum_member(n, c, i);
            let x = c(i);
            assert(0real <= x);
            let y = ln(b(i)) - ln(a(i));
            assert(x * y == 0real) by (nonlinear_arith)
                requires
                    x == 0real,
            ;
        }
        rsum_zero(n, gain);
    } else {
        log_sum_inequality(ln, n, c, a);
        ln_of_one(ln);
        let term = |i: int| c(i) * (ln(a(i)) - ln(c(i)));
        let k = -ln(s);
        let minus = |i: int| term(i) * (-1real);
        let shift = |i: int| c(i) * k;
        assert forall|i: int| 0 <= i < n implies #[trigger] gain(i) == (|i: int|
            minus(i) + shift(i))(i) by {
            let x = c(i);
            assert(0real <= x);
            let la = ln(a(i));
            let lb = ln(b(i));
            let lc = ln(x);
            if 0real < x {
                assert(ln(b(i) * s) == ln(b(i)) + ln(s));
                assert(b(i) * s == x);
                assert(x * (lb - la) == (x * (la - lc)) * (-1real) + x * k) by (nonlinear_arith)
                    requires
                        lc == lb - k,
                ;
            } else {
                assert(x * (lb - la) == (x * (la - lc)) * (-1real) + x * k) by (nonlinear_arith)
                    requires
                        x == 0real,
                ;
            }
        }
        rsum_ext(n, gain, |i: int| minus(i) + shift(i));
        rsum_add(n, minus, shift);
        rsum_scale(n, term, -1real);
        rsum_scale(n, c, k);
        let t = rsum(n, term);
        assert(ln(rsum(n, a)) == 0real);
        assert(t <= s * (0real - ln(s)));
        assert(0real <= t * (-1real) + s * k) by (nonlinear_arith)
            requires
                t <= s * k,
        ;
    }
}

/// The expected number of times that sequence `c` starts in state `i`.
pub open spec fn starts_in(c: Trellis, i: int) -> real {
    c.at(0, i) / c.mass()
}

/// The expected number of times that sequence `c` passes from `i` to `j`.
pub open spec fn passes(c: Trellis, i: int, j: int) -> real {
    rsum(c.n - 1, |t: int| c.passing(t, i, j) / c.mass())
}

/// The expected log-ratio of all the new frame likelihoods of a sequence.
pub open spec fn frames_gain(ln: spec_fn(real) -> real, old: Trellis, new: Trellis) -> real {
    rsum(old.n, |t: int| emit_gain(ln, old, new, t)) / old.mass()
}

/// The gains after a frame, taken apart.
proof fn gains_apart(ln: spec_fn(real) -> real, old: Trellis, new: Trellis, t: int)
    requires
        0 <= t < old.n,
    ensures
        gains_after(ln, old, new, t) + rsum(t, |s: int| trans_gain(ln, old, new, s)) + rsum(
            t + 1,
            |s: int| emit_gain(ln, old, new, s),
        ) == rsum(old.n - 1, |s: int| trans_gain(ln, old, new, s)) + rsum(
            old.n,
            |s: int| emit_gain(ln, old, new, s),
        ),
    decreases old.n - t,
{
    let f = |s: int| trans_gain(ln, old, new, s);
    let g = |s: int| emit_gain(ln, old, new, s);
    if t < old.n - 1 {
        gains_apart(ln, old, new, t + 1);
        assert(rsum(t + 1, f) == rsum(t, f) + f(t));
        assert(rsum(t + 2, g) == rsum(t + 1, g) + g(t + 1));
    }
}

/// What one sequence gains, in terms of its expected counts.
proof fn sequence_gains(ln: spec_fn(real) -> real, old: Trellis, new: Trellis)
    requires
        is_ln(ln),
        old.wf(),
        new.wf(),
        keeps_possible(old, new),
        0real < old.mass(),
    ensures
        0real < new.mass(),
        rsum(
            old.nc,
            |i: int| starts_in(old, i) * (ln((new.start)(i)) - ln((old.start)(i))),
        ) + rsum(
            old.nc,
            |i: int|
                rsum(
                    old.nc,
                    |j: int| passes(old, i, j) * (ln((new.trans)(i, j)) - ln((old.trans)(i, j))),
                ),
        ) + frames_gain(ln, old, new) <= ln(new.mass()) - ln(old.mass()),
{
    let nc = old.nc;
    let m = old.mass();
    likelihood_gains(ln, old, new);
    gains_apart(ln, old, new, 0);
    let f = |s: int| trans_gain(ln, old, new, s);
    let g = |s: int| emit_gain(ln, old, new, s);
    assert(rsum(1, g) == rsum(0, g) + g(0));
    let inv = 1real / m;
    assert(inv * m == 1real && 0real < inv) by (nonlinear_arith)
        requires
            0real < m,
            inv == 1real / m,
    ;
    // The start counts.
    let s0 = |i: int| old.at(0, i) * (ln((new.start)(i)) - ln((old.start)(i)));
    let s1 = |i: int| starts_in(old, i) * (ln((new.start)(i)) - ln((old.start)(i)));
    assert forall|i: int| 0 <= i < nc implies #[trigger] s1(i) == (|i: int| s0(i) * inv)(i) by {
        let a = old.at(0, i);
        let k = ln((new.start)(i)) - ln((old.start)(i));
        assert((a / m) * k == (a * k) * inv) by (nonlinear_arith)
            requires
                0real < m,
                inv == 1real / m,
        ;
    }
    rsum_ext(nc, s1, |i: int| s0(i) * inv);
    rsum_scale(nc, s0, inv);
    // The transition counts.
    transitions_apart(ln, old, new, inv);
    let x = start_gain(ln, old, new);
    let y = rsum(old.n - 1, f);
    let z = rsum(old.n, g);
    let d = ln(new.mass()) - ln(m);
    assert(x + z + y <= m * d);
    assert(x * inv + y * inv + z / m <= d) by (nonlinear_arith)
        requires
            x + z + y <= m * d,
            inv * m == 1real,
            0real < inv,
            0real < m,
            inv == 1real / m,
    ;
}

/// The gains of the transitions at all frames are those of the expected counts.
proof fn transitions_apart(ln: spec_fn(real) -> real, old: Trellis, new: Trellis, inv: real)
    requires
        0real < old.mass(),
        inv == 1real / old.mass(),
    ensures
        rsum(
            old.nc,
            |i: int|
                rsum(
                    old.nc,
                    |j: int| passes(old, i, j) * (ln((new.trans)(i, j)) - ln((old.trans)(i, j))),
                ),
        ) == rsum(old.n - 1, |t: int| trans_gain(ln, old, new, t)) * inv,
{
    let nc = old.nc;
    let n = old.n - 1;
    let m = old.mass();
    let k = |i: int, j: int| ln((new.trans)(i, j)) - ln((old.trans)(i, j));
    let row = |t: int, i: int|
        rsum(
            nc,
            |j: int| old.passing(t, i, j) * (ln((new.trans)(i, j)) - ln((old.trans)(i, j))),
        );
    let whole = |t: int| trans_gain(ln, old, new, t);
    // Sum over frames, then over states.
    rsum_swap(n, nc, row);
    assert forall|t: int| 0 <= t < n implies #[trigger] whole(t) == (|t: int|
        rsum(nc, |i: int| row(t, i)))(t) by {
        rsum_ext(
            nc,
            |i: int|
                rsum(
                    nc,
                    |j: int| old.passing(t, i, j) * (ln((new.trans)(i, j)) - ln((old.trans)(i, j))),
                ),
            |i: int| row(t, i),
        );
    }
    rsum_ext(n, whole, |t: int| rsum(nc, |i: int| row(t, i)));
    let by_state = |i: int| rsum(n, |t: int| row(t, i));
    let counted = |i: int|
        rsum(
            nc,
            |j: int| passes(old, i, j) * (ln((new.trans)(i, j)) - ln((old.trans)(i, j))),
        );
    assert forall|i: int| 0 <= i < nc implies #[trigger] counted(i) == (|i: int|
        by_state(i) * inv)(i) by {
        let cell = |t: int, j: int| old.passing(t, i, j) * k(i, j);
        rsum_swap(n, nc, cell);
        let rows = |t: int| row(t, i);
        assert forall|t: int| 0 <= t < n implies #[trigger] rows(t) == (|t: int|
            rsum(nc, |j: int| cell(t, j)))(t) by {
            rsum_ext(
                nc,
                |j: int| old.passing(t, i, j) * (ln((new.trans)(i, j)) - ln((old.trans)(i, j))),
                |j: int| cell(t, j),
            );
        }
        rsum_ext(n, rows, |t: int| rsum(nc, |j: int| cell(t, j)));
        let cols = |j: int| rsum(n, |t: int| cell(t, j));
        let part = |j: int| passes(old, i, j) * (ln((new.trans)(i, j)) - ln((old.trans)(i, j)));
        assert forall|j: int| 0 <= j < nc implies #[trigger] part(j) == (|j: int|
            cols(j) * inv)(j) by {
            let pass = |t: int| old.passing(t, i, j);
            let share = |t: int| old.passing(t, i, j) / m;
            let kij = k(i, j);
            rsum_scale(n, pass, kij);
            rsum_ext(n, |t: int| cell(t, j), |t: int| pass(t) * kij);
            assert forall|t: int| 0 <= t < n implies #[trigger] share(t) == (|t: int|
                pass(t) * inv)(t) by {
                let a = pass(t);
                assert(a / m == a * inv) by (nonlinear_arith)
                    requires
                        0real < m,
                        inv == 1real / m,
                ;
            }
            rsum_ext(n, share, |t: int| pass(t) * inv);
            rsum_scale(n, pass, inv);
            let q = rsum(n, pass);
            assert((q * inv) * kij == (q * kij) * inv) by (nonlinear_arith);
        }
        rsum_ext(nc, part, |j: int| cols(j) * inv);
        rsum_scale(nc, cols, inv);
    }
    rsum_ext(nc, counted, |i: int| by_state(i) * inv);
    rsum_scale(nc, by_state, inv);
}

/// Sequences over the same states under one chain.
pub open spec fn one_chain(
    count: int,
    chains: spec_fn(int) -> Trellis,
    nc: int,
    start: spec_fn(int) -> real,
    trans: spec_fn(int, int) -> real,
) -> bool {
    forall|s: int|
        0 <= s < count ==> (#[trigger] chains(s)).nc == nc && chains(s).start == start && chains(
            s,
        ).trans == trans && chains(s).wf()
}

/// The expected number of starts in state `i` over all sequences.
pub open spec fn all_starts(count: int, chains: spec_fn(int) -> Trellis, i: int) -> real {
    rsum(count, |s: int| starts_in(chains(s), i))
}

/// The expected number of passes from `i` to `j` over all sequences.
pub open spec fn all_passes(count: int, chains: spec_fn(int) -> Trellis, i: int, j: int) -> real {
    rsum(count, |s: int| passes(chains(s), i, j))
}

/// `b` is `a`, or the counts `c` divided by their sum.
pub open spec fn kept_or_counted(
    n: int,
    a: spec_fn(int) -> real,
    c: spec_fn(int) -> real,
    b: spec_fn(int) -> real,
) -> bool {
    ||| forall|i: int| 0 <= i < n ==> #[trigger] b(i) == a(i)
    ||| (0real < rsum(n, c) ==> rsum(n, a) == 1real) && forall|i: int|
        0 <= i < n ==> #[trigger] b(i) * rsum(n, c) == c(i)
}

/// Row `i` of the new transitions is the old one, or its expected counts divided by
/// their sum.
pub open spec fn row_kept_or_counted(
    count: int,
    old: spec_fn(int) -> Trellis,
    nc: int,
    trans: spec_fn(int, int) -> real,
    new_trans: spec_fn(int, int) -> real,
    i: int,
) -> bool {
    kept_or_counted(
        nc,
        |j: int| trans(i, j),
        |j: int| all_passes(count, old, i, j),
        |j: int| new_trans(i, j),
    )
}

/// Parameters that are kept or counted have log-ratios that add up to zero or more,
/// and stay positive where they are counted.
pub(crate) proof fn kept_or_counted_gains(
    ln: spec_fn(real) -> real,
    n: int,
    c: spec_fn(int) -> real,
    a: spec_fn(int) -> real,
    b: spec_fn(int) -> real,
)
    requires
        is_ln(ln),
        forall|i: int| 0 <= i < n ==> 0real <= #[trigger] c(i),
        forall|i: int| 0 <= i < n ==> 0real <= #[trigger] a(i),
        forall|i: int| 0 <= i < n && 0real < #[trigger] c(i) ==> 0real < a(i),
        kept_or_counted(n, a, c, b),
    ensures
        forall|i: int| 0 <= i < n && 0real < #[trigger] c(i) ==> 0real < b(i),
        0real <= rsum(n, |i: int| c(i) * (ln(b(i)) - ln(a(i)))),
{
    if forall|i: int| 0 <= i < n ==> #[trigger] b(i) == a(i) {
        let gain = |i: int| c(i) * (ln(b(i)) - ln(a(i)));
        assert forall|i: int| 0 <= i < n implies #[trigger] gain(i) == 0real by {
            assert(b(i) == a(i));
            let x = c(i);
            assert(x * 0real == 0real) by (nonlinear_arith);
        }
        rsum_zero(n, gain);
        assert forall|i: int| 0 <= i < n && 0real < #[trigger] c(i) implies 0real < b(i) by {
            assert(b(i) == a(i));
        }
    } else {
        let s = rsum(n, c);
        assert forall|i: int| 0 <= i < n && 0real < #[trigger] c(i) implies 0real < b(i) by {
            rsum_member(n, c, i);
            let x = b(i);
            let y = c(i);
            assert(x * s == y);
            assert(0real < x) by (nonlinear_arith)
                requires
                    x * s == y,
                    0real < y,
                    0real < s,
            ;
        }
        normalised_counts_gain(ln, n, c, a, b);
    }
}

/// The expected counts of a sequence are not negative, and come from parameters that
/// are positive.
proof fn counts_not_negative(c: Trellis, i: int, j: int)
    requires
        c.wf(),
        0real < c.mass(),
        0 <= i < c.nc,
        0 <= j < c.nc,
    ensures
        0real <= starts_in(c, i),
        0real < c.at(0, i) ==> 0real < starts_in(c, i),
        0real < starts_in(c, i) ==> 0real < (c.start)(i),
        0real <= passes(c, i, j),
        forall|t: int|
            0 <= t < c.n - 1 && 0real < #[trigger] c.passing(t, i, j) ==> 0real < passes(c, i, j),
        0real < passes(c, i, j) ==> 0real < (c.trans)(i, j),
{
    let m = c.mass();
    alpha_not_negative(c, 0, i);
    beta_not_negative(c, 0, i);
    product_not_negative(c.alpha(0)(i), c.beta(0)(i));
    assert(0real <= (c.start)(i));
    assert(0real <= (c.emit)(0, i));
    product_not_negative((c.start)(i), (c.emit)(0, i));
    let a = c.at(0, i);
    quotient_sign(a, m);
    let f = |t: int| c.passing(t, i, j) / m;
    assert forall|t: int| 0 <= t < c.n - 1 implies 0real <= #[trigger] f(t) && (0real < f(t) <==> 0real
        < c.passing(t, i, j)) && (0real < f(t) ==> 0real < (c.trans)(i, j)) by {
        alpha_not_negative(c, t, i);
        beta_not_negative(c, t + 1, j);
        step_not_negative(c, t, i, j);
        product_not_negative(c.alpha(t)(i), c.step(t, i, j));
        quotient_sign(c.passing(t, i, j), m);
    }
    rsum_member(c.n - 1, f, 0);
    assert forall|t: int| 0 <= t < c.n - 1 && 0real < #[trigger] c.passing(t, i, j) implies 0real
        < passes(c, i, j) by {
        rsum_member(c.n - 1, f, t);
        assert(0real < f(t));
    }
    if 0real < passes(c, i, j) {
        let t = rsum_positive(c.n - 1, f);
        assert(0real < f(t));
    }
}

pub(crate) proof fn quotient_sign(a: real, m: real)
    requires
        0real <= a,
        0real < m,
    ensures
        0real <= a / m,
        0real < a / m <==> 0real < a,
{
    let q = a / m;
    assert(q * m == a) by (nonlinear_arith)
        requires
            q == a / m,
            0real < m,
    ;
    assert(0real <= q && (0real < q <==> 0real < a)) by (nonlinear_arith)
        requires
            q * m == a,
            0real < m,
            0real <= a,
    ;
}

/// Start and transition parameters that are kept, or replaced by their expected
/// counts over all sequences divided by their sum, never lower the log-likelihood of
/// the sequences, wherever the new frame likelihoods do not lower theirs.
pub proof fn likelihood_never_falls(
    ln: spec_fn(real) -> real,
    count: int,
    old: spec_fn(int) -> Trellis,
    new: spec_fn(int) -> Trellis,
    nc: int,
    start: spec_fn(int) -> real,
    trans: spec_fn(int, int) -> real,
    new_start: spec_fn(int) -> real,
    new_trans: spec_fn(int, int) -> real,
)
    requires
        is_ln(ln),
        one_chain(count, old, nc, start, trans),
        one_chain(count, new, nc, new_start, new_trans),
        forall|s: int|
            0 <= s < count ==> (#[trigger] old(s)).n == new(s).n && 0real < old(s).mass(),
        forall|s: int, t: int, j: int|
            0 <= s < count && 0 <= t < old(s).n && 0 <= j < nc && 0real < #[trigger] old(s).at(t, j)
                ==> 0real < (new(s).emit)(t, j),
        kept_or_counted(nc, start, |i: int| all_starts(count, old, i), new_start),
        forall|i: int|
            0 <= i < nc ==> #[trigger] row_kept_or_counted(count, old, nc, trans, new_trans, i),
        0real <= rsum(count, |s: int| frames_gain(ln, old(s), new(s))),
    ensures
        forall|s: int| 0 <= s < count ==> 0real < (#[trigger] new(s)).mass(),
        rsum(count, |s: int| ln(old(s).mass())) <= rsum(count, |s: int| ln(new(s).mass())),
{
    if count >= 1 {
        let starts = |i: int| all_starts(count, old, i);
        let row_gain = |i: int|
            rsum(
                nc,
                |j: int| all_passes(count, old, i, j) * (ln(new_trans(i, j)) - ln(trans(i, j))),
            );
        assert forall|i: int| 0 <= i < nc implies 0real <= #[trigger] starts(i) && 0real <= start(i)
            && (0real < starts(i) ==> 0real < start(i)) by {
            total_facts(count, old, nc, start, trans, i, i);
        }
        assert forall|i: int| 0 <= i < nc implies 0real <= #[trigger] start(i) by {
            assert(0real <= starts(i));
        }
        kept_or_counted_gains(ln, nc, starts, start, new_start);
        assert forall|i: int| 0 <= i < nc implies 0real <= #[trigger] row_gain(i) by {
            row_is_kept_or_counted(ln, count, old, nc, start, trans, new_trans, i, 0);
        }
        rsum_member(nc, row_gain, 0);
        let a = |s: int|
            rsum(nc, |i: int| starts_in(old(s), i) * (ln(new_start(i)) - ln(start(i))));
        let b = |s: int|
            rsum(
                nc,
                |i: int|
                    rsum(
                        nc,
                        |j: int|
                            passes(old(s), i, j) * (ln(new_trans(i, j)) - ln(trans(i, j))),
                    ),
            );
        let c = |s: int| frames_gain(ln, old(s), new(s));
        let before = |s: int| ln(old(s).mass());
        let after = |s: int| ln(new(s).mass());
        let ab = |s: int| a(s) + b(s);
        let abc = |s: int| ab(s) + c(s);
        let moved = |s: int| before(s) + abc(s);
        assert forall|s: int| 0 <= s < count implies #[trigger] moved(s) <= after(s) && 0real < new(
            s,
        ).mass() by {
            let o = old(s);
            let w = new(s);
            assert(o.start == start && o.trans == trans && o.nc == nc);
            assert(w.start == new_start && w.trans == new_trans && w.nc == nc);
            assert forall|i: int| 0 <= i < nc && 0real < #[trigger] o.at(0, i) implies 0real < (
            w.start)(i) by {
                counts_not_negative(o, i, i);
                total_facts(count, old, nc, start, trans, i, i);
                assert(starts_in(old(s), i) <= starts(i));
            }
            assert forall|t: int, i: int, j: int|
                0 <= t < o.n - 1 && 0 <= i < nc && 0 <= j < nc && 0real < #[trigger] o.passing(
                    t,
                    i,
                    j,
                ) implies 0real < (w.trans)(i, j) by {
                counts_not_negative(o, i, j);
                total_facts(count, old, nc, start, trans, i, j);
                assert(passes(old(s), i, j) <= all_passes(count, old, i, j));
                row_is_kept_or_counted(ln, count, old, nc, start, trans, new_trans, i, j);
            }
            assert forall|t: int, j: int|
                0 <= t < o.n && 0 <= j < nc && 0real < #[trigger] o.at(t, j) implies 0real < (
            w.emit)(t, j) by {
                assert(0real < old(s).at(t, j));
            }
            assert(keeps_possible(o, w));
            sequence_gains(ln, o, w);
        }
        rsum_le(count, moved, after);
        rsum_add(count, before, abc);
        rsum_add(count, ab, c);
        rsum_add(count, a, b);
        starts_exchanged(ln, count, old, nc, start, new_start);
        passes_exchanged(ln, count, old, nc, trans, new_trans);
        rsum_ext(
            nc,
            |i: int| all_starts(count, old, i) * (ln(new_start(i)) - ln(start(i))),
            |i: int| starts(i) * (ln(new_start(i)) - ln(start(i))),
        );
        assert(0real <= rsum(count, a));
        assert(0real <= rsum(count, b));
        assert forall|s: int| 0 <= s < count implies 0real < (#[trigger] new(s)).mass() by {
            assert(moved(s) <= after(s));
        }
    }
}

/// What the totals of the expected counts are made of.
pub(crate) proof fn total_facts(
    count: int,
    old: spec_fn(int) -> Trellis,
    nc: int,
    start: spec_fn(int) -> real,
    trans: spec_fn(int, int) -> real,
    i: int,
    j: int,
)
    requires
        count >= 1,
        one_chain(count, old, nc, start, trans),
        forall|s: int| 0 <= s < count ==> 0real < (#[trigger] old(s)).mass(),
        0 <= i < nc,
        0 <= j < nc,
    ensures
        0real <= start(i),
        0real <= trans(i, j),
        0real <= all_starts(count, old, i),
        0real < all_starts(count, old, i) ==> 0real < start(i),
        0real <= all_passes(count, old, i, j),
        0real < all_passes(count, old, i, j) ==> 0real < trans(i, j),
        forall|s: int|
            0 <= s < count ==> #[trigger] starts_in(old(s), i) <= all_starts(count, old, i),
        forall|s: int|
            0 <= s < count ==> #[trigger] passes(old(s), i, j) <= all_passes(count, old, i, j),
{
    let f = |s: int| starts_in(old(s), i);
    let g = |s: int| passes(old(s), i, j);
    assert forall|s: int| 0 <= s < count implies 0real <= #[trigger] f(s) && (0real < f(s) ==> 0real
        < start(i)) by {
        assert(old(s).wf());
        counts_not_negative(old(s), i, j);
    }
    assert forall|s: int| 0 <= s < count implies 0real <= #[trigger] g(s) && (0real < g(s) ==> 0real
        < trans(i, j)) by {
        assert(old(s).wf());
        counts_not_negative(old(s), i, j);
    }
    rsum_member(count, f, 0);
    rsum_member(count, g, 0);
    assert(old(0).wf());
    assert(0real <= (old(0).start)(i));
    assert(0real <= (old(0).trans)(i, j));
    assert forall|s: int| 0 <= s < count implies #[trigger] starts_in(old(s), i) <= all_starts(
        count,
        old,
        i,
    ) by {
        rsum_member(count, f, s);
        assert(f(s) == starts_in(old(s), i));
    }
    assert forall|s: int| 0 <= s < count implies #[trigger] passes(old(s), i, j) <= all_passes(
        count,
        old,
        i,
        j,
    ) by {
        rsum_member(count, g, s);
        assert(g(s) == passes(old(s), i, j));
    }
    if 0real < all_starts(count, old, i) {
        let s = rsum_positive(count, f);
        assert(0real < f(s));
    }
    if 0real < all_passes(count, old, i, j) {
        let s = rsum_positive(count, g);
        assert(0real < g(s));
    }
}

/// What [`kept_or_counted_gains`] says of one transition row.
proof fn row_is_kept_or_counted(
    ln: spec_fn(real) -> real,
    count: int,
    old: spec_fn(int) -> Trellis,
    nc: int,
    start: spec_fn(int) -> real,
    trans: spec_fn(int, int) -> real,
    new_trans: spec_fn(int, int) -> real,
    i: int,
    k: int,
)
    requires
        is_ln(ln),
        count >= 1,
        one_chain(count, old, nc, start, trans),
        forall|s: int| 0 <= s < count ==> 0real < (#[trigger] old(s)).mass(),
        0 <= i < nc,
        0 <= k < nc,
        row_kept_or_counted(count, old, nc, trans, new_trans, i),
    ensures
        0real < all_passes(count, old, i, k) ==> 0real < new_trans(i, k),
        0real <= rsum(
            nc,
            |j: int| all_passes(count, old, i, j) * (ln(new_trans(i, j)) - ln(trans(i, j))),
        ),
{
    let a = |j: int| trans(i, j);
    let c = |j: int| all_passes(count, old, i, j);
    let b = |j: int| new_trans(i, j);
    assert forall|j: int| 0 <= j < nc implies 0real <= #[trigger] c(j) && 0real <= a(j) && (0real
        < c(j) ==> 0real < a(j)) by {
        total_facts(count, old, nc, start, trans, i, j);
    }
    assert forall|j: int| 0 <= j < nc implies 0real <= #[trigger] a(j) by {
        assert(0real <= c(j));
    }
    kept_or_counted_gains(ln, nc, c, a, b);
    rsum_ext(
        nc,
        |j: int| all_passes(count, old, i, j) * (ln(new_trans(i, j)) - ln(trans(i, j))),
        |j: int| c(j) * (ln(b(j)) - ln(a(j))),
    );
    assert(0real < c(k) ==> 0real < b(k));
}

proof fn starts_exchanged(
    ln: spec_fn(real) -> real,
    count: int,
    old: spec_fn(int) -> Trellis,
    nc: int,
    start: spec_fn(int) -> real,
    new_start: spec_fn(int) -> real,
)
    ensures
        rsum(
            count,
            |s: int| rsum(nc, |i: int| starts_in(old(s), i) * (ln(new_start(i)) - ln(start(i)))),
        ) == rsum(nc, |i: int| all_starts(count, old, i) * (ln(new_start(i)) - ln(start(i)))),
{
    let f = |s: int, i: int| starts_in(old(s), i) * (ln(new_start(i)) - ln(start(i)));
    rsum_swap(count, nc, f);
    let rows = |s: int|
        rsum(nc, |i: int| starts_in(old(s), i) * (ln(new_start(i)) - ln(start(i))));
    assert forall|s: int| 0 <= s < count implies #[trigger] rows(s) == (|s: int|
        rsum(nc, |i: int| f(s, i)))(s) by {
        rsum_ext(
            nc,
            |i: int| starts_in(old(s), i) * (ln(new_start(i)) - ln(start(i))),
            |i: int| f(s, i),
        );
    }
    rsum_ext(count, rows, |s: int| rsum(nc, |i: int| f(s, i)));
    let cols = |i: int| all_starts(count, old, i) * (ln(new_start(i)) - ln(start(i)));
    assert forall|i: int| 0 <= i < nc implies #[trigger] cols(i) == (|i: int|
        rsum(count, |s: int| f(s, i)))(i) by {
        let k = ln(new_start(i)) - ln(start(i));
        rsum_scale(count, |s: int| starts_in(old(s), i), k);
        rsum_ext(
            count,
            |s: int| f(s, i),
            |s: int| (|s: int| starts_in(old(s), i))(s) * k,
        );
    }
    rsum_ext(nc, cols, |i: int| rsum(count, |s: int| f(s, i)));
}

proof fn passes_exchanged(
    ln: spec_fn(real) -> real,
    count: int,
    old: spec_fn(int) -> Trellis,
    nc: int,
    trans: spec_fn(int, int) -> real,
    new_trans: spec_fn(int, int) -> real,
)
    ensures
        rsum(
            count,
            |s: int|
                rsum(
                    nc,
                    |i: int|
                        rsum(
                            nc,
                            |j: int|
                                passes(old(s), i, j) * (ln(new_trans(i, j)) - ln(trans(i, j))),
                        ),
                ),
        ) == rsum(
            nc,
            |i: int|
                rsum(
                    nc,
                    |j: int|
                        all_passes(count, old, i, j) * (ln(new_trans(i, j)) - ln(trans(i, j))),
                ),
        ),
{
    let row = |s: int, i: int|
        rsum(nc, |j: int| passes(old(s), i, j) * (ln(new_trans(i, j)) - ln(trans(i, j))));
    rsum_swap(count, nc, row);
    let whole = |s: int|
        rsum(
            nc,
            |i: int|
                rsum(nc, |j: int| passes(old(s), i, j) * (ln(new_trans(i, j)) - ln(trans(i, j)))),
        );
    assert forall|s: int| 0 <= s < count implies #[trigger] whole(s) == (|s: int|
        rsum(nc, |i: int| row(s, i)))(s) by {
        rsum_ext(
            nc,
            |i: int|
                rsum(nc, |j: int| passes(old(s), i, j) * (ln(new_trans(i, j)) - ln(trans(i, j)))),
            |i: int| row(s, i),
        );
    }
    rsum_ext(count, whole, |s: int| rsum(nc, |i: int| row(s, i)));
    let by_state = |i: int| rsum(count, |s: int| row(s, i));
    let counted = |i: int|
        rsum(
            nc,
            |j: int| all_passes(count, old, i, j) * (ln(new_trans(i, j)) - ln(trans(i, j))),
        );
    assert forall|i: int| 0 <= i < nc implies #[trigger] counted(i) == by_state(i) by {
        let cell = |s: int, j: int| passes(old(s), i, j) * (ln(new_trans(i, j)) - ln(trans(i, j)));
        rsum_swap(count, nc, cell);
        let rows = |s: int| row(s, i);
        assert forall|s: int| 0 <= s < count implies #[trigger] rows(s) == (|s: int|
            rsum(nc, |j: int| cell(s, j)))(s) by {
            rsum_ext(
                nc,
                |j: int| passes(old(s), i, j) * (ln(new_trans(i, j)) - ln(trans(i, j))),
                |j: int| cell(s, j),
            );
        }
        rsum_ext(count, rows, |s: int| rsum(nc, |j: int| cell(s, j)));
        let part = |j: int|
            all_passes(count, old, i, j) * (ln(new_trans(i, j)) - ln(trans(i, j)));
        assert forall|j: int| 0 <= j < nc implies #[trigger] part(j) == (|j: int|
            rsum(count, |s: int| cell(s, j)))(j) by {
            let k = ln(new_trans(i, j)) - ln(trans(i, j));
            rsum_scale(count, |s: int| passes(old(s), i, j), k);
            rsum_ext(
                count,
                |s: int| cell(s, j),
                |s: int| (|s: int| passes(old(s), i, j))(s) * k,
            );
        }
        rsum_ext(nc, part, |j: int| rsum(count, |s: int| cell(s, j)));
    }
    rsum_ext(nc, counted, by_state);
}

} // verus!
