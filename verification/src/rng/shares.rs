//! What Dirichlet draws are, where arithmetic is exact.

use crate::reading::{real_lanes, real_sums, reads_real};
use crate::reals::{associates, commutes, rsum, rsum_ext, rsum_scale};
use crate::rng::gamma::{dirichlet_draw, dirichlet_draws, gamma_draw, gamma_draws};
use crate::rng::state::RngView;
use crate::scalar::{num, total, Scalar};
use vstd::prelude::*;

verus! {

/// `g` are standard gamma variates, each of its own shape, drawn one after the other;
/// `states` the random states before the first and after each.
pub open spec fn gammas_drawn<T: Scalar>(
    s: RngView<T>,
    alpha: Seq<T>,
    states: Seq<RngView<T>>,
    g: Seq<T>,
) -> bool {
    &&& states.len() == g.len() + 1
    &&& states[0] == s
    &&& forall|i: int|
        0 <= i < g.len() ==> #[trigger] gamma_draw(states[i], alpha[i]) == (
            states[i + 1],
            Some(g[i]),
        )
}

proof fn gamma_run<T: Scalar>(s: RngView<T>, alpha: Seq<T>, n: int) -> (r: (
    Seq<RngView<T>>,
    Seq<T>,
))
    requires
        n >= 0,
    ensures
        gammas_drawn(s, alpha, r.0, r.1),
        ({
            let d = gamma_draws(s, alpha, n);
            match d.1 {
                Some(g) => g == r.1 && r.1.len() == n && r.0.last() == d.0,
                None => r.1.len() < n && gamma_draw(r.0.last(), alpha[r.1.len() as int]) == (
                    d.0,
                    None::<T>,
                ),
            }
        }),
    decreases n,
{
    if n == 0 {
        (seq![s], Seq::empty())
    } else {
        let (states, g) = gamma_run(s, alpha, n - 1);
        match gamma_draws(s, alpha, n - 1).1 {
            None => (states, g),
            Some(_) => {
                let d = gamma_draw(states.last(), alpha[n - 1]);
                if d.1 is Some {
                    let (a, b) = (states.push(d.0), g.push(d.1->0));
                    assert forall|i: int| 0 <= i < b.len() implies #[trigger] gamma_draw(
                        a[i],
                        alpha[i],
                    ) == (a[i + 1], Some(b[i])) by {
                        if i < n - 1 {
                            assert(gamma_draw(states[i], alpha[i]) == (
                                states[i + 1],
                                Some(g[i]),
                            ));
                        } else {
                            assert(states.last() == a[i]);
                        }
                    }
                    (a, b)
                } else {
                    (states, g)
                }
            },
        }
    }
}

/// The entries of a Dirichlet draw are the shares of gamma variates, each of its own
/// shape, in their sum, and sum to 1; the draw fails where one of the variates does.
pub proof fn dirichlet_draw_is_gamma_shares<T: Scalar>(
    rd: spec_fn(T) -> real,
    s: RngView<T>,
    alpha: Seq<T>,
) -> (r: (Seq<RngView<T>>, Seq<T>))
    requires
        reads_real(rd),
    ensures
        gammas_drawn(s, alpha, r.0, r.1),
        match dirichlet_draw(s, alpha).1 {
            Some(p) => {
                &&& p.len() == alpha.len()
                &&& r.1.len() == alpha.len()
                &&& r.0.last() == dirichlet_draw(s, alpha).0
                &&& rsum(p.len() as int, |i: int| rd(r.1[i])) != 0real ==> {
                    &&& forall|i: int|
                        0 <= i < p.len() ==> rd(#[trigger] p[i]) * rsum(
                            p.len() as int,
                            |k: int| rd(r.1[k]),
                        ) == rd(r.1[i])
                    &&& rsum(p.len() as int, |i: int| rd(p[i])) == 1real
                }
            },
            None => {
                &&& r.1.len() < alpha.len()
                &&& gamma_draw(r.0.last(), alpha[r.1.len() as int]) == (
                    dirichlet_draw(s, alpha).0,
                    None::<T>,
                )
            },
        },
{
    let n = alpha.len() as int;
    let (states, g) = gamma_run(s, alpha, n);
    if dirichlet_draw(s, alpha).1 is Some {
        let p = dirichlet_draw(s, alpha).1->0;
        let f = |i: int| g[i];
        let v = |i: int| rd(g[i]);
        real_sums(rd);
        real_lanes(rd, n, f);
        rsum_ext(n, |i: int| rd(f(i)), v);
        let whole = rsum(n, v);
        if whole != 0real {
            let inverse = num::<T>(1).s_over(total(g));
            let w = rd(inverse);
            assert(w * whole == 1real) by {
                reveal(reads_real);
                assert(rd(num::<T>(1)) == 1real);
                assert(rd(total(g)) == whole);
            }
            assert forall|i: int| 0 <= i < n implies rd(#[trigger] p[i]) * whole == rd(g[i]) by {
                assert(p[i] == g[i].s_times(inverse));
                assert(rd(p[i]) == rd(g[i]) * w) by {
                    reveal(reads_real);
                }
                associates(rd(g[i]), w, whole);
                assert(rd(g[i]) * 1real == rd(g[i]));
            }
            let q = |i: int| v(i) * w;
            rsum_scale(n, v, w);
            rsum_ext(n, q, |i: int| v(i) * w);
            let read = |i: int| rd(p[i]);
            assert forall|i: int| 0 <= i < n implies #[trigger] read(i) == q(i) by {
                reveal(reads_real);
                assert(p[i] == g[i].s_times(inverse));
            }
            rsum_ext(n, read, q);
            commutes(whole, w);
        }
    }
    (states, g)
}

/// Several Dirichlet draws are single ones, each from the random state that those before
/// it leave; they fail where one of them does.
pub proof fn dirichlet_rows_are_draws<T: Scalar>(s: RngView<T>, alpha: Seq<T>, n: int) -> (states:
    Seq<RngView<T>>)
    requires
        n >= 0,
    ensures
        states.len() >= 1,
        states[0] == s,
        forall|i: int|
            0 <= i < states.len() - 1 ==> (#[trigger] dirichlet_draw(states[i], alpha)).0
                == states[i + 1] && dirichlet_draw(states[i], alpha).1 is Some,
        ({
            let d = dirichlet_draws(s, alpha, n);
            match d.1 {
                Some(rows) => {
                    &&& rows.len() == n
                    &&& states.len() == n + 1
                    &&& states.last() == d.0
                    &&& forall|i: int|
                        0 <= i < n ==> Some(#[trigger] rows[i]) == dirichlet_draw(
                            states[i],
                            alpha,
                        ).1
                },
                None => {
                    &&& states.len() <= n
                    &&& dirichlet_draw(states.last(), alpha) == (d.0, None::<Seq<T>>)
                },
            }
        }),
    decreases n,
{
    if n == 0 {
        seq![s]
    } else {
        let states = dirichlet_rows_are_draws(s, alpha, n - 1);
        match dirichlet_draws(s, alpha, n - 1).1 {
            None => states,
            Some(_) => {
                let d = dirichlet_draw(states.last(), alpha);
                if d.1 is Some {
                    let more = states.push(d.0);
                    assert forall|i: int| 0 <= i < more.len() - 1 implies (
                    #[trigger] dirichlet_draw(more[i], alpha)).0 == more[i + 1] && dirichlet_draw(
                        more[i],
                        alpha,
                    ).1 is Some by {
                        if i < n - 1 {
                            assert(dirichlet_draw(states[i], alpha).0 == states[i + 1]);
                        } else {
                            assert(states.last() == more[i]);
                        }
                    }
                    more
                } else {
                    states
                }
            },
        }
    }
}

} // verus!
