//! Gaussian draws: `standard_normal` (polar Box-Muller with cache) and
//! `multivariate_normal`.
//!
//! A multivariate draw consumes one standard normal per dimension and transforms
//! them by a Cholesky factor of the covariance.

use crate::linalg::Dense;
use crate::matrix::{tabulate, Matrix};
use crate::rng::state::{ATTEMPTS, NumpyRandomState, RngView};
use crate::rng::uniform::sample_of;
use crate::scalar::{lanes, lanes_of, num, one, zero, Scalar};
use vstd::prelude::*;

verus! {

/// The point of `[-1, 1)` that a uniform number stands for.
pub open spec fn centred<T: Scalar>(u: T) -> T {
    num::<T>(2).s_times(u).s_minus(num(1))
}

/// The two normals that a pair of uniform numbers gives, the one to return first
/// and the one to keep second; none where the point falls outside the unit disk
/// or on its centre.
pub open spec fn polar_pair<T: Scalar>(u1: T, u2: T) -> Option<(T, T)> {
    let x1 = centred(u1);
    let x2 = centred(u2);
    let r2 = x1.s_times(x1).s_plus(x2.s_times(x2));
    if r2.s_below(num(1)) && !r2.s_same(num(0)) {
        let f = num::<T>(-2).s_times(r2.s_ln()).s_over(r2).s_sqrt();
        Some((f.s_times(x2), f.s_times(x1)))
    } else {
        None
    }
}

/// The two normals that a pair of uniform numbers gives.
pub fn polar<T: Scalar>(u1: T, u2: T) -> (r: Option<(T, T)>)
    ensures
        r == polar_pair(u1, u2),
{
    let x1 = T::of_int(2).times(u1).minus(one());
    let x2 = T::of_int(2).times(u2).minus(one());
    let r2 = x1.times(x1).plus(x2.times(x2));
    if r2.below(one()) && !r2.same(zero()) {
        let f = T::of_int(-2).times(r2.ln()).over(r2).sqrt();
        Some((f.times(x2), f.times(x1)))
    } else {
        None
    }
}

/// The first pair of normals among at most `fuel` pairs of uniform numbers, and
/// the state after it.
pub open spec fn polar_draw<T: Scalar>(s: RngView<T>, fuel: nat) -> (RngView<T>, Option<(T, T)>)
    decreases fuel,
{
    if fuel == 0 {
        (s, None)
    } else {
        let rest = s.sampled().sampled();
        match polar_pair::<T>(sample_of(s.mt), sample_of(s.sampled().mt)) {
            Some(p) => (rest, Some(p)),
            None => polar_draw(rest, (fuel - 1) as nat),
        }
    }
}

/// One standard normal and the state after it: the cached one if there is one,
/// without touching the generator, else the first of a pair, whose second is
/// cached.
pub open spec fn normal_draw<T: Scalar>(s: RngView<T>) -> (RngView<T>, Option<T>) {
    match s.gauss {
        Some(g) => (RngView { mt: s.mt, gauss: None }, Some(g)),
        None => match polar_draw(s, ATTEMPTS as nat) {
            (t, Some((a, b))) => (RngView { mt: t.mt, gauss: Some(b) }, Some(a)),
            (t, None) => (t, None),
        },
    }
}

/// `n` standard normals, one after the other.
pub open spec fn normal_draws<T: Scalar>(s: RngView<T>, n: int) -> (RngView<T>, Option<Seq<T>>)
    decreases n,
{
    if n <= 0 {
        (s, Some(Seq::empty()))
    } else {
        match normal_draws(s, n - 1) {
            (t, None) => (t, None),
            (t, Some(v)) => match normal_draw(t) {
                (w, None) => (w, None),
                (w, Some(x)) => (w, Some(v.push(x))),
            },
        }
    }
}

/// Entry `i` of `mean + l z`.
pub open spec fn transformed_at<T: Scalar>(mean: Seq<T>, l: Seq<Seq<T>>, z: Seq<T>, i: int) -> T {
    mean[i].s_plus(lanes(mean.len() as int, |j: int| l[i][j].s_times(z[j])))
}

/// The identity matrix.
pub open spec fn identity<T: Scalar>(n: nat) -> Seq<Seq<T>> {
    Seq::new(
        n,
        |i: int|
            Seq::new(
                n,
                |j: int|
                    if i == j {
                        num(1)
                    } else {
                        num(0)
                    },
            ),
    )
}

/// The factor that a multivariate draw uses: the Cholesky factor of the
/// covariance, or the identity where it has none.
pub open spec fn drawing_factor<T: Dense>(cov: Seq<Seq<T>>, n: nat) -> Seq<Seq<T>> {
    match T::s_cholesky(cov) {
        Some(l) => l,
        None => identity(n),
    }
}

/// The identity matrix.
pub fn eye<T: Scalar>(n: usize) -> (m: Matrix<T>)
    ensures
        m.has_dims(n as int, n as int),
        m@ == identity::<T>(n as nat),
{
    let f = |i: usize, j: usize| -> (x: T)
        ensures
            x == if i == j {
                num::<T>(1)
            } else {
                num(0)
            },
    {
        if i == j {
            one()
        } else {
            zero()
        }
    };
    let m = Matrix::tabulate(n, n, f);
    proof {
        assert forall|i: int| 0 <= i < n implies #[trigger] m@[i] == identity::<T>(n as nat)[i] by {
            assert(m.rows@[i].len() == n);
            assert forall|j: int| 0 <= j < n implies #[trigger] m@[i][j] == identity::<T>(n as nat)[i][j] by {
                assert(m.at(i, j) == if i == j {
                    num::<T>(1)
                } else {
                    num(0)
                });
            }
            assert(m@[i] =~= identity::<T>(n as nat)[i]);
        }
        assert(m@ =~= identity::<T>(n as nat));
    }
    m
}

/// `mean + l z`.
pub fn affine<T: Scalar>(mean: &Vec<T>, l: &Matrix<T>, z: &Vec<T>) -> (x: Vec<T>)
    requires
        l.has_dims(mean.len() as int, mean.len() as int),
        z.len() == mean.len(),
    ensures
        x.len() == mean.len(),
        forall|i: int|
            0 <= i < mean.len() ==> #[trigger] x@[i] == transformed_at(mean@, l@, z@, i),
{
    let n: usize = mean.len();
    let mut x: Vec<T> = Vec::new();
    let mut i: usize = 0;
    while i < n
        invariant
            i <= n,
            n == mean.len(),
            l.has_dims(n as int, n as int),
            z.len() == n,
            x.len() == i,
            forall|k: int| 0 <= k < i ==> #[trigger] x@[k] == transformed_at(mean@, l@, z@, k),
        decreases n - i,
    {
        let f = |j: usize| -> (v: T)
            requires
                i < n,
                j < n,
                l.has_dims(n as int, n as int),
                z.len() == n,
            ensures
                v == l@[i as int][j as int].s_times(z@[j as int]),
        {
            l.get(i, j).times(z[j])
        };
        let s = lanes_of(n, f, Ghost(|j: int| l@[i as int][j].s_times(z@[j])));
        x.push(mean[i].plus(s));
        i += 1;
    }
    x
}

impl<T: Scalar> NumpyRandomState<T> {
    /// A standard normal draw: a cached value first, else the polar method, which
    /// rejects points outside the unit disk and caches the second normal of the
    /// pair. `None` if [`ATTEMPTS`] points in a row are rejected.
    pub fn standard_normal(&mut self) -> (r: Option<T>)
        requires
            old(self).wf(),
        ensures
            final(self).wf(),
            (final(self)@, r) == normal_draw(old(self)@),
    {
        if let Some(g) = self.gauss {
            self.gauss = None;
            return Some(g);
        }
        let ghost start = self@;
        let mut tries: u64 = 0;
        while tries < ATTEMPTS
            invariant
                tries <= ATTEMPTS,
                self.wf(),
                start == old(self)@,
                start.gauss is None,
                self@.gauss is None,
                polar_draw(self@, (ATTEMPTS - tries) as nat) == polar_draw(start, ATTEMPTS as nat),
            decreases ATTEMPTS - tries,
        {
            let u1 = self.random_sample();
            let u2 = self.random_sample();
            if let Some((a, b)) = polar(u1, u2) {
                self.gauss = Some(b);
                return Some(a);
            }
            tries += 1;
        }
        None
    }

    /// `n` standard normal draws.
    pub fn standard_normal_n(&mut self, n: usize) -> (r: Option<Vec<T>>)
        requires
            old(self).wf(),
        ensures
            final(self).wf(),
            ({
                let (s, d) = normal_draws(old(self)@, n as int);
                match r {
                    Some(v) => final(self)@ == s && d == Some(v@) && v.len() == n,
                    None => d is None,
                }
            }),
    {
        let ghost start = self@;
        let mut v: Vec<T> = Vec::new();
        let mut i: usize = 0;
        while i < n
            invariant
                i <= n,
                self.wf(),
                start == old(self)@,
                v.len() == i,
                normal_draws(start, i as int) == (self@, Some(v@)),
            decreases n - i,
        {
            match self.standard_normal() {
                Some(x) => {
                    v.push(x);
                },
                None => {
                    proof {
                        normals_stay_none(start, i as int + 1, n as int);
                    }
                    return None;
                },
            }
            i += 1;
        }
        Some(v)
    }

    /// `loc + scale * standard_normal()`.
    pub fn normal(&mut self, loc: T, scale: T) -> (r: Option<T>)
        requires
            old(self).wf(),
        ensures
            final(self).wf(),
            final(self)@ == normal_draw(old(self)@).0,
            r == match normal_draw(old(self)@).1 {
                Some(z) => Some(loc.s_plus(scale.s_times(z))),
                None => None,
            },
    {
        match self.standard_normal() {
            Some(z) => Some(loc.plus(scale.times(z))),
            None => None,
        }
    }
}

impl<T: Dense> NumpyRandomState<T> {
    /// A single multivariate-normal draw: one standard normal per dimension,
    /// transformed by the Cholesky factor of the covariance (by the identity
    /// where it has none) and moved by the mean.
    pub fn multivariate_normal(&mut self, mean: &Vec<T>, cov: &Matrix<T>) -> (r: Option<Vec<T>>)
        requires
            old(self).wf(),
            cov.has_dims(mean.len() as int, mean.len() as int),
        ensures
            final(self).wf(),
            ({
                let (s, d) = normal_draws(old(self)@, mean.len() as int);
                match r {
                    Some(x) => final(self)@ == s && (d matches Some(z) && x.len() == mean.len()
                        && forall|i: int|
                        0 <= i < mean.len() ==> #[trigger] x@[i] == transformed_at(
                            mean@,
                            drawing_factor(cov@, mean.len() as nat),
                            z,
                            i,
                        )),
                    None => d is None,
                }
            }),
    {
        let n: usize = mean.len();
        match self.standard_normal_n(n) {
            None => None,
            Some(z) => {
                let l = match T::cholesky(cov) {
                    Some(l) => l,
                    None => eye(n),
                };
                Some(affine(mean, &l, &z))
            },
        }
    }
}

proof fn normals_stay_none<T: Scalar>(s: RngView<T>, i: int, n: int)
    requires
        0 <= i <= n,
        normal_draws(s, i).1 is None,
    ensures
        normal_draws(s, n).1 is None,
    decreases n,
{
    if n > i {
        normals_stay_none(s, i, n - 1);
    }
}

} // verus!
