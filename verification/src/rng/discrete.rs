//! Discrete draws: `poisson`, `binomial`, and `multinomial`.

use crate::rng::state::{ATTEMPTS, NumpyRandomState, RngView};
use crate::rng::uniform::sample_of;
use crate::scalar::{
    abs, at_most, dec, le, magnitude, negate, negative, num, one, smaller, smaller_of, zero,
    Scalar,
};
use vstd::prelude::*;

verus! {

/// How many more uniform numbers keep the running product `prod` above `limit`,
/// counted on from `x`, and the state after the one that does not; at most `fuel`
/// of them.
pub open spec fn product_draw<T: Scalar>(s: RngView<T>, prod: T, limit: T, x: i64, fuel: nat) -> (
    RngView<T>,
    Option<i64>,
)
    decreases fuel,
{
    if fuel == 0 {
        (s, None)
    } else {
        let p = prod.s_times(sample_of::<T>(s.mt));
        if limit.s_below(p) {
            product_draw(s.sampled(), p, limit, (x + 1) as i64, (fuel - 1) as nat)
        } else {
            (s.sampled(), Some(x))
        }
    }
}

/// The constants of the transformed-rejection method for a rate.
pub struct PtrsView<T> {
    /// The rate.
    pub lam: T,
    /// `0.931 + 2.53 sqrt(lam)`.
    pub b: T,
    /// `-0.059 + 0.02483 b`.
    pub a: T,
    /// `1.1239 + 1.1328 / (b - 3.4)`.
    pub invalpha: T,
    /// `0.9277 - 3.6224 / (b - 2)`.
    pub vr: T,
}

/// The constants of the transformed-rejection method for the rate `lam`.
pub open spec fn ptrs_constants<T: Scalar>(lam: T) -> PtrsView<T> {
    let b = dec::<T>(931, -3).s_plus(dec::<T>(253, -2).s_times(lam.s_sqrt()));
    PtrsView {
        lam,
        b,
        a: dec::<T>(-59, -3).s_plus(dec::<T>(2483, -5).s_times(b)),
        invalpha: dec::<T>(11239, -4).s_plus(
            dec::<T>(11328, -4).s_over(b.s_minus(dec(34, -1))),
        ),
        vr: dec::<T>(9277, -4).s_minus(dec::<T>(36224, -4).s_over(b.s_minus(num(2)))),
    }
}

/// The count that two uniform numbers give, if they are accepted.
pub open spec fn ptrs_step<T: Scalar>(c: PtrsView<T>, u0: T, v: T) -> Option<i64> {
    let u = u0.s_minus(dec(5, -1));
    let us = dec::<T>(5, -1).s_minus(magnitude(u));
    let k = num::<T>(2).s_times(c.a).s_over(us).s_plus(c.b).s_times(u).s_plus(c.lam).s_plus(
        dec(43, -2),
    ).s_floor();
    if at_most(dec(7, -2), us) && at_most(v, c.vr) {
        Some(k.s_to_int())
    } else if k.s_below(num(0)) || (us.s_below(dec(13, -3)) && us.s_below(v)) {
        None
    } else if at_most(
        v.s_ln().s_plus(c.invalpha.s_ln()).s_minus(
            c.a.s_over(us.s_times(us)).s_plus(c.b).s_ln(),
        ),
        negative(c.lam).s_plus(k.s_times(c.lam.s_ln())).s_minus(k.s_plus(num(1)).s_ln_gamma()),
    ) {
        Some(k.s_to_int())
    } else {
        None
    }
}

/// The first accepted count among at most `fuel` pairs of uniform numbers.
pub open spec fn ptrs_draw<T: Scalar>(s: RngView<T>, c: PtrsView<T>, fuel: nat) -> (
    RngView<T>,
    Option<i64>,
)
    decreases fuel,
{
    if fuel == 0 {
        (s, None)
    } else {
        let rest = s.sampled().sampled();
        match ptrs_step(c, sample_of::<T>(s.mt), sample_of::<T>(s.sampled().mt)) {
            Some(k) => (rest, Some(k)),
            None => ptrs_draw(rest, c, (fuel - 1) as nat),
        }
    }
}

/// One Poisson count and the state after it: transformed rejection for rates of
/// 10 and more, multiplication below, 0 for rate 0.
pub open spec fn poisson_draw<T: Scalar>(s: RngView<T>, lam: T) -> (RngView<T>, Option<i64>) {
    if at_most(num(10), lam) {
        ptrs_draw(s, ptrs_constants(lam), ATTEMPTS as nat)
    } else if lam.s_same(num(0)) {
        (s, Some(0i64))
    } else {
        product_draw(s, num(1), negative(lam).s_exp(), 0i64, ATTEMPTS as nat)
    }
}

/// The constants of binomial inversion.
pub struct InversionView<T> {
    /// The number of trials.
    pub n: i64,
    /// The success probability.
    pub p: T,
    /// `1 - p`.
    pub q: T,
    /// `q^n`, the probability of no success.
    pub qn: T,
    /// The count past which the search starts again.
    pub bound: T,
}

/// The constants of binomial inversion for `n` trials of probability `p`.
pub open spec fn inversion_constants<T: Scalar>(n: i64, p: T) -> InversionView<T> {
    let q = num::<T>(1).s_minus(p);
    let np = num::<T>(n as int).s_times(p);
    InversionView {
        n,
        p,
        q,
        qn: num::<T>(n as int).s_times(q.s_ln()).s_exp(),
        bound: smaller_of(
            num(n as int),
            np.s_plus(num::<T>(10).s_times(np.s_times(q).s_plus(num(1)).s_sqrt())),
        ),
    }
}

/// Where the search for the count stands: the count, its probability, and what is
/// left of the uniform number. At most `fuel` further steps.
pub open spec fn inversion_draw<T: Scalar>(
    s: RngView<T>,
    c: InversionView<T>,
    x: i64,
    px: T,
    u: T,
    fuel: nat,
) -> (RngView<T>, Option<i64>)
    decreases fuel,
{
    if !px.s_below(u) {
        (s, Some(x))
    } else if fuel == 0 {
        (s, None)
    } else if c.bound.s_below(num(x + 1)) {
        inversion_draw(s.sampled(), c, 0i64, c.qn, sample_of::<T>(s.mt), (fuel - 1) as nat)
    } else {
        let y = (x + 1) as i64;
        inversion_draw(
            s,
            c,
            y,
            num::<T>(c.n - y + 1).s_times(c.p).s_times(px).s_over(num::<T>(y as int).s_times(c.q)),
            u.s_minus(px),
            (fuel - 1) as nat,
        )
    }
}

/// One binomial count by inversion, for a probability of at most a half.
pub open spec fn inverted_draw<T: Scalar>(s: RngView<T>, n: i64, p: T) -> (RngView<T>, Option<i64>) {
    let c = inversion_constants(n, p);
    inversion_draw(s.sampled(), c, 0i64, c.qn, sample_of::<T>(s.mt), ATTEMPTS as nat)
}

/// One binomial count and the state after it; a probability above a half is
/// mirrored.
pub open spec fn binomial_draw<T: Scalar>(s: RngView<T>, n: i64, p: T) -> (RngView<T>, Option<i64>) {
    if n == 0 || p.s_same(num(0)) {
        (s, Some(0i64))
    } else if at_most(p, dec(5, -1)) {
        inverted_draw(s, n, p)
    } else {
        match inverted_draw(s, n, num::<T>(1).s_minus(p)) {
            (t, Some(x)) => (t, Some((n - x) as i64)),
            (t, None) => (t, None),
        }
    }
}

/// The counts of the first `k` categories, drawn one after the other from the
/// trials and the probability that the ones before leave.
pub struct Allotment<T> {
    /// The state after the draws.
    pub state: RngView<T>,
    /// The counts so far.
    pub counts: Seq<i64>,
    /// The trials left.
    pub left: int,
    /// The probability left.
    pub mass: T,
    /// Whether a draw gave up.
    pub failed: bool,
}

/// The allotment of the first `k` categories: once no trial is left, the rest get
/// none.
pub open spec fn allotted<T: Scalar>(s: RngView<T>, n: i64, pix: Seq<T>, k: int) -> Allotment<T>
    decreases k,
{
    if k <= 0 {
        Allotment { state: s, counts: Seq::empty(), left: n as int, mass: num(1), failed: false }
    } else {
        let a = allotted(s, n, pix, k - 1);
        if a.failed {
            a
        } else if k > 1 && a.left <= 0 {
            Allotment { counts: a.counts.push(0i64), ..a }
        } else {
            match binomial_draw(a.state, a.left as i64, pix[k - 1].s_over(a.mass)) {
                (t, None) => Allotment { state: t, failed: true, ..a },
                (t, Some(x)) => Allotment {
                    state: t,
                    counts: a.counts.push(x),
                    left: a.left - x,
                    mass: if a.left - x <= 0 {
                        a.mass
                    } else {
                        a.mass.s_minus(pix[k - 1])
                    },
                    failed: false,
                },
            }
        }
    }
}

/// The counts that a multinomial draw gives: the allotment of all categories but
/// the last, which takes what is left.
pub open spec fn multinomial_counts<T: Scalar>(s: RngView<T>, n: i64, pix: Seq<T>) -> Seq<i64> {
    let a = allotted(s, n, pix, pix.len() - 1);
    a.counts.push(
        if a.left > 0 {
            a.left as i64
        } else {
            0i64
        },
    )
}

/// The sum of the first `k` counts.
pub open spec fn count_total(counts: Seq<i64>, k: int) -> int
    decreases k,
{
    if k <= 0 {
        0
    } else {
        count_total(counts, k - 1) + counts[k - 1]
    }
}

proof fn count_total_ext(a: Seq<i64>, b: Seq<i64>, k: int)
    requires
        forall|i: int| 0 <= i < k ==> #[trigger] a[i] == b[i],
    ensures
        count_total(a, k) == count_total(b, k),
    decreases k,
{
    if k > 0 {
        count_total_ext(a, b, k - 1);
    }
}

/// Along an allotment, the counts so far and the trials left make up `n`.
pub proof fn allotment_adds_up<T: Scalar>(s: RngView<T>, n: i64, pix: Seq<T>, k: int)
    requires
        k >= 0,
    ensures
        ({
            let a = allotted(s, n, pix, k);
            &&& count_total(a.counts, a.counts.len() as int) + a.left == n
            &&& !a.failed ==> a.counts.len() == k
        }),
    decreases k,
{
    if k > 0 {
        allotment_adds_up(s, n, pix, k - 1);
        let b = allotted(s, n, pix, k - 1);
        let a = allotted(s, n, pix, k);
        if a.counts.len() == b.counts.len() + 1 {
            count_total_ext(a.counts, b.counts, b.counts.len() as int);
        }
    }
}

proof fn allotment_stays_failed<T: Scalar>(s: RngView<T>, n: i64, pix: Seq<T>, i: int, k: int)
    requires
        0 <= i <= k,
        allotted(s, n, pix, i).failed,
    ensures
        allotted(s, n, pix, k).failed,
    decreases k,
{
    if k > i {
        allotment_stays_failed(s, n, pix, i, k - 1);
    }
}

/// Multinomial counts sum to the number of trials, unless a binomial draw
/// returned more successes than it had trials.
pub proof fn multinomial_sums_to_trials<T: Scalar>(s: RngView<T>, n: i64, pix: Seq<T>)
    requires
        pix.len() >= 1,
        allotted(s, n, pix, pix.len() - 1).left >= 0,
        allotted(s, n, pix, pix.len() - 1).left <= i64::MAX,
    ensures
        count_total(
            multinomial_counts(s, n, pix),
            multinomial_counts(s, n, pix).len() as int,
        ) == n,
{
    allotment_adds_up(s, n, pix, pix.len() - 1);
    let a = allotted(s, n, pix, pix.len() - 1);
    count_total_ext(multinomial_counts(s, n, pix), a.counts, a.counts.len() as int);
}

impl<T: Scalar> NumpyRandomState<T> {
    /// A Poisson draw with rate `lam`. `None` if [`ATTEMPTS`] candidates in a row
    /// do not settle it.
    pub fn poisson(&mut self, lam: T) -> (r: Option<i64>)
        requires
            old(self).wf(),
        ensures
            final(self).wf(),
            (final(self)@, r) == poisson_draw(old(self)@, lam),
    {
        if le(T::of_int(10), lam) {
            self.poisson_ptrs(lam)
        } else if lam.same(zero()) {
            Some(0)
        } else {
            self.poisson_mult(lam)
        }
    }

    /// Multiplication method: the number of factors that keep the running product
    /// of uniform numbers above `e^-lam`.
    fn poisson_mult(&mut self, lam: T) -> (r: Option<i64>)
        requires
            old(self).wf(),
        ensures
            final(self).wf(),
            (final(self)@, r) == product_draw(
                old(self)@,
                num(1),
                negative(lam).s_exp(),
                0i64,
                ATTEMPTS as nat,
            ),
    {
        let enlam = negate(lam).exp();
        let ghost start = self@;
        let mut x: i64 = 0;
        let mut prod: T = one();
        let mut tries: u64 = 0;
        while tries < ATTEMPTS
            invariant
                tries <= ATTEMPTS,
                x == tries,
                self.wf(),
                start == old(self)@,
                enlam == negative(lam).s_exp(),
                product_draw(self@, prod, enlam, x, (ATTEMPTS - tries) as nat) == product_draw(
                    start,
                    num(1),
                    enlam,
                    0i64,
                    ATTEMPTS as nat,
                ),
            decreases ATTEMPTS - tries,
        {
            prod = prod.times(self.random_sample());
            if enlam.below(prod) {
                x += 1;
            } else {
                return Some(x);
            }
            tries += 1;
        }
        None
    }

    /// Transformed-rejection method, for rates of 10 and more.
    fn poisson_ptrs(&mut self, lam: T) -> (r: Option<i64>)
        requires
            old(self).wf(),
        ensures
            final(self).wf(),
            (final(self)@, r) == ptrs_draw(old(self)@, ptrs_constants(lam), ATTEMPTS as nat),
    {
        let ghost start = self@;
        let b = T::decimal(931, -3).plus(T::decimal(253, -2).times(lam.sqrt()));
        let c = PtrsView {
            lam,
            b,
            a: T::decimal(-59, -3).plus(T::decimal(2483, -5).times(b)),
            invalpha: T::decimal(11239, -4).plus(
                T::decimal(11328, -4).over(b.minus(T::decimal(34, -1))),
            ),
            vr: T::decimal(9277, -4).minus(T::decimal(36224, -4).over(b.minus(T::of_int(2)))),
        };
        let mut tries: u64 = 0;
        while tries < ATTEMPTS
            invariant
                tries <= ATTEMPTS,
                self.wf(),
                start == old(self)@,
                c == ptrs_constants(lam),
                ptrs_draw(self@, c, (ATTEMPTS - tries) as nat) == ptrs_draw(
                    start,
                    c,
                    ATTEMPTS as nat,
                ),
            decreases ATTEMPTS - tries,
        {
            let u = self.random_sample();
            let v = self.random_sample();
            if let Some(k) = Self::ptrs_accept(&c, u, v) {
                return Some(k);
            }
            tries += 1;
        }
        None
    }

    /// The count that two uniform numbers give, if they are accepted.
    fn ptrs_accept(c: &PtrsView<T>, u0: T, v: T) -> (r: Option<i64>)
        ensures
            r == ptrs_step(*c, u0, v),
    {
        let u = u0.minus(T::decimal(5, -1));
        let us = T::decimal(5, -1).minus(abs(u));
        let k = T::of_int(2).times(c.a).over(us).plus(c.b).times(u).plus(c.lam).plus(
            T::decimal(43, -2),
        ).floor();
        if le(T::decimal(7, -2), us) && le(v, c.vr) {
            return Some(k.to_int());
        }
        if k.below(zero()) || (us.below(T::decimal(13, -3)) && us.below(v)) {
            return None;
        }
        if le(
            v.ln().plus(c.invalpha.ln()).minus(c.a.over(us.times(us)).plus(c.b).ln()),
            negate(c.lam).plus(k.times(c.lam.ln())).minus(k.plus(one()).ln_gamma()),
        ) {
            return Some(k.to_int());
        }
        None
    }

    /// Binomial draw by inversion; a probability above a half is mirrored. 0 for
    /// no trials or probability 0.
    fn binomial(&mut self, n: i64, p: T) -> (r: Option<i64>)
        requires
            old(self).wf(),
            n >= 0,
        ensures
            final(self).wf(),
            (final(self)@, r) == binomial_draw(old(self)@, n, p),
            r matches Some(x) ==> -i64::MAX <= n - x <= i64::MAX,
    {
        if n == 0 || p.same(zero()) {
            return Some(0);
        }
        if le(p, T::decimal(5, -1)) {
            self.binomial_inversion(n, p)
        } else {
            match self.binomial_inversion(n, one::<T>().minus(p)) {
                Some(x) => Some(n - x),
                None => None,
            }
        }
    }

    /// Binomial inversion: the probabilities are accumulated from 0 upward against
    /// one uniform number, starting again with a new one past the bound.
    fn binomial_inversion(&mut self, n: i64, p: T) -> (r: Option<i64>)
        requires
            old(self).wf(),
            n >= 0,
        ensures
            final(self).wf(),
            (final(self)@, r) == inverted_draw(old(self)@, n, p),
            r matches Some(x) ==> 0 <= x,
    {
        let ghost c = inversion_constants(n, p);
        let q = one::<T>().minus(p);
        let nn = T::of_int(n as i128);
        let qn = nn.times(q.ln()).exp();
        let np = nn.times(p);
        let bound = smaller(
            nn,
            np.plus(T::of_int(10).times(np.times(q).plus(one()).sqrt())),
        );
        let mut x: i64 = 0;
        let mut px = qn;
        let mut u = self.random_sample();
        let mut tries: u64 = 0;
        while px.below(u)
            invariant
                tries <= ATTEMPTS,
                0 <= x <= tries,
                n >= 0,
                self.wf(),
                c == inversion_constants(n, p),
                q == c.q,
                qn == c.qn,
                bound == c.bound,
                inversion_draw(self@, c, x, px, u, (ATTEMPTS - tries) as nat) == inverted_draw(
                    old(self)@,
                    n,
                    p,
                ),
            decreases ATTEMPTS - tries,
        {
            if tries >= ATTEMPTS {
                return None;
            }
            if bound.below(T::of_int(x as i128 + 1)) {
                x = 0;
                px = qn;
                u = self.random_sample();
            } else {
                x += 1;
                u = u.minus(px);
                px = T::of_int((n - x + 1) as i128).times(p).times(px).over(
                    T::of_int(x as i128).times(q),
                );
            }
            tries += 1;
        }
        Some(x)
    }

    /// Multinomial counts for `n` trials over `pix`: each category is drawn from a
    /// conditional binomial on the trials and the probability left, and what
    /// remains goes to the last.
    pub fn multinomial(&mut self, n: i64, pix: &Vec<T>) -> (r: Option<Vec<i64>>)
        requires
            old(self).wf(),
            n >= 0,
            pix.len() >= 1,
        ensures
            final(self).wf(),
            ({
                let a = allotted(old(self)@, n, pix@, pix.len() - 1);
                match r {
                    Some(v) => !a.failed && final(self)@ == a.state && v@ == multinomial_counts(
                        old(self)@,
                        n,
                        pix@,
                    ) && v.len() == pix.len(),
                    None => a.failed,
                }
            }),
    {
        let d: usize = pix.len();
        let ghost start = self@;
        let mut counts: Vec<i64> = Vec::new();
        let mut mass: T = one();
        let mut left: i64 = n;
        let mut j: usize = 0;
        while j < d - 1
            invariant
                j <= d - 1,
                d == pix.len(),
                self.wf(),
                start == old(self)@,
                n >= 0,
                j == 0 ==> left == n,
                -i64::MAX <= left,
                counts.len() == j,
                allotted(start, n, pix@, j as int) == (Allotment {
                    state: self@,
                    counts: counts@,
                    left: left as int,
                    mass,
                    failed: false,
                }),
            decreases d - j,
        {
            if j > 0 && left <= 0 {
                counts.push(0);
            } else {
                match self.binomial(left, pix[j].over(mass)) {
                    None => {
                        proof {
                            allotment_stays_failed(start, n, pix@, j as int + 1, d - 1);
                        }
                        return None;
                    },
                    Some(x) => {
                        counts.push(x);
                        left = left - x;
                        if left > 0 {
                            mass = mass.minus(pix[j]);
                        }
                    },
                }
            }
            j += 1;
        }
        if left > 0 {
            counts.push(left);
        } else {
            counts.push(0);
        }
        Some(counts)
    }
}

} // verus!
