//! What a sample is: a walk along the chain, every step at the probability that the
//! model gives it, every row emitted by the state that it stands beside.

use crate::engine::emission::EmissionModel;
use crate::engine::fitted::{
    chain, first_above, first_state, running_sum, running_sums, sampled_chain, Chain,
};
use crate::engine::hmm::Hmm;
use crate::engine::inference::Inference;
use crate::linalg::Dense;
use crate::reading::reads_real;
use crate::reals::rsum;
use crate::rng::state::{fresh_state, RngView};
use crate::rng::uniform::sample_of;
use crate::scalar::Scalar;
use vstd::prelude::*;

verus! {

/// Laid end to end from 0 on, the lengths `p` put the point `u` on the stretch of `k`;
/// what lies beyond them all falls on the last.
pub open spec fn falls_on(p: spec_fn(int) -> real, n: int, u: real, k: int) -> bool {
    &&& 0 <= k < n
    &&& forall|j: int| 1 <= j <= k ==> #[trigger] rsum(j, p) <= u
    &&& k < n - 1 ==> u < rsum(k + 1, p)
}

proof fn running_reads<T: Scalar>(
    rd: spec_fn(T) -> real,
    a: Seq<T>,
    p: spec_fn(int) -> real,
    i: int,
)
    requires
        reads_real(rd),
        0 <= i < a.len(),
        forall|j: int| 0 <= j < a.len() ==> #[trigger] p(j) == rd(a[j]),
    ensures
        rd(running_sum(a, i)) == rsum(i + 1, p),
    decreases i,
{
    reveal(reads_real);
    assert(p(i) == rd(a[i]));
    if i > 0 {
        running_reads(rd, a, p, i - 1);
    } else {
        assert(rsum(1, p) == rsum(0, p) + p(0));
    }
}

proof fn first_above_falls<T: Scalar>(
    rd: spec_fn(T) -> real,
    a: Seq<T>,
    p: spec_fn(int) -> real,
    u: T,
    i: int,
)
    requires
        reads_real(rd),
        0 <= i <= a.len(),
        a.len() >= 1,
        forall|j: int| 0 <= j < a.len() ==> #[trigger] p(j) == rd(a[j]),
        forall|j: int| 1 <= j <= i ==> #[trigger] rsum(j, p) <= rd(u),
    ensures
        falls_on(p, a.len() as int, rd(u), first_above(running_sums(a), u, i)),
    decreases a.len() - i,
{
    let cdf = running_sums(a);
    if i < a.len() {
        running_reads(rd, a, p, i);
        assert(u.s_below(cdf[i]) <==> rd(u) < rsum(i + 1, p)) by {
            reveal(reads_real);
        }
        if !u.s_below(cdf[i]) {
            first_above_falls(rd, a, p, u, i + 1);
        }
    }
}

/// The index that a uniform number finds among cumulative probabilities is the one on
/// whose stretch it falls.
pub proof fn cumulative_search_falls<T: Scalar>(
    rd: spec_fn(T) -> real,
    a: Seq<T>,
    p: spec_fn(int) -> real,
    u: T,
)
    requires
        reads_real(rd),
        a.len() >= 1,
        forall|j: int| 0 <= j < a.len() ==> #[trigger] p(j) == rd(a[j]),
    ensures
        falls_on(p, a.len() as int, rd(u), first_above(running_sums(a), u, 0)),
{
    first_above_falls(rd, a, p, u, 0);
}

/// `walk` is the walk of a sample: `before[t]` and `after[t]` are the random states
/// before and after row `t` is emitted. The first state is the pinned one, or the one
/// on whose start probability the first uniform number falls. Every other state is the
/// one on whose transition probability out of the state before it the next uniform
/// number falls. Every row is emitted by its own state.
pub open spec fn walks<T: Dense, E: EmissionModel<T>>(
    rd: spec_fn(T) -> real,
    h: &Hmm<T, E>,
    seed: u32,
    pinned: Option<usize>,
    walk: Chain<T>,
    before: Seq<RngView<T>>,
    after: Seq<RngView<T>>,
) -> bool {
    let n = walk.states.len() as int;
    let nc = h.inference.states();
    &&& walk.rows.len() == n && before.len() == n && after.len() == n
    &&& n > 0 ==> match pinned {
        Some(c) => walk.states[0] == c && before[0] == fresh_state::<T>(seed),
        None => before[0] == fresh_state::<T>(seed).sampled() && falls_on(
            |j: int| rd(h.inference.start_view()[j]),
            nc,
            rd(sample_of::<T>(fresh_state::<T>(seed).mt)),
            walk.states[0],
        ),
    }
    &&& forall|t: int|
        0 <= t < n ==> #[trigger] h.emission.draw(walk.states[t], before[t]) == (
            after[t],
            Some(walk.rows[t]),
        )
    &&& forall|t: int|
        0 < t < n ==> {
            let from = walk.states[t - 1];
            &&& #[trigger] before[t] == after[t - 1].sampled()
            &&& falls_on(
                |j: int| rd(h.inference.trans_view()[from][j]),
                nc,
                rd(sample_of::<T>(after[t - 1].mt)),
                walk.states[t],
            )
        }
}

/// The start and transition probabilities have an entry for every state.
pub open spec fn chain_shaped<T: Dense, E: EmissionModel<T>>(h: &Hmm<T, E>) -> bool {
    let nc = h.inference.states();
    &&& nc >= 1
    &&& h.inference.start_view().len() == nc
    &&& forall|i: int| 0 <= i < nc ==> (#[trigger] h.inference.trans_view()[i]).len() == nc
}

/// The seed that a sample starts from: the one asked for, else the model's own, else 0.
pub open spec fn seed_of(asked: Option<u32>, own: Option<u32>) -> u32 {
    match (asked, own) {
        (Some(s), _) => s,
        (None, Some(s)) => s,
        (None, None) => 0u32,
    }
}

proof fn walk_upto<T: Dense, E: EmissionModel<T>>(
    rd: spec_fn(T) -> real,
    h: &Hmm<T, E>,
    seed: u32,
    pinned: Option<usize>,
    first: int,
    rng: RngView<T>,
    n: int,
) -> (r: (Seq<RngView<T>>, Seq<RngView<T>>))
    requires
        reads_real(rd),
        chain_shaped(h),
        pinned matches Some(c) ==> c < h.inference.states(),
        (first, rng) == first_state(h, fresh_state::<T>(seed), pinned),
        n >= 0,
        !chain(h, first, rng, n).failed,
    ensures
        walks(rd, h, seed, pinned, chain(h, first, rng, n), r.0, r.1),
        chain(h, first, rng, n).states.len() == n,
        forall|t: int|
            0 <= t < n ==> 0 <= #[trigger] chain(h, first, rng, n).states[t] < h.inference.states(),
        n == 0 ==> chain(h, first, rng, n).rng == rng,
        n > 0 ==> chain(h, first, rng, n).rng == r.1.last(),
    decreases n,
{
    if n == 0 {
        (Seq::empty(), Seq::empty())
    } else {
        let c = chain(h, first, rng, n - 1);
        let (before, after) = walk_upto(rd, h, seed, pinned, first, rng, n - 1);
        let d = chain(h, first, rng, n);
        let nc = h.inference.states();
        let u0 = sample_of::<T>(fresh_state::<T>(seed).mt);
        let s = if n == 1 {
            rng
        } else {
            c.rng.sampled()
        };
        let state = d.states.last();
        assert(d.states == c.states.push(state));
        if n == 1 {
            let start = h.inference.start_view();
            cumulative_search_falls(rd, start, |j: int| rd(start[j]), u0);
        } else {
            let from = c.states.last();
            assert(from == c.states[n - 2]);
            let row = h.inference.trans_view()[from];
            cumulative_search_falls(rd, row, |j: int| rd(row[j]), sample_of::<T>(c.rng.mt));
        }
        let b = before.push(s);
        let a = after.push(d.rng);
        assert forall|t: int| 0 <= t < n implies #[trigger] h.emission.draw(d.states[t], b[t]) == (
            a[t],
            Some(d.rows[t]),
        ) by {
            if t < n - 1 {
                assert(h.emission.draw(c.states[t], before[t]) == (after[t], Some(c.rows[t])));
            }
        }
        assert forall|t: int| 0 < t < n implies ({
            let from = d.states[t - 1];
            &&& #[trigger] b[t] == a[t - 1].sampled()
            &&& falls_on(
                |j: int| rd(h.inference.trans_view()[from][j]),
                nc,
                rd(sample_of::<T>(a[t - 1].mt)),
                d.states[t],
            )
        }) by {
            if t < n - 1 {
                assert(before[t] == after[t - 1].sampled());
            }
        }
        (b, a)
    }
}

/// A sample walks along the chain from the seed that it was given.
pub proof fn sample_walks_along_the_chain<T: Dense, E: EmissionModel<T>>(
    rd: spec_fn(T) -> real,
    h: &Hmm<T, E>,
    random_state: Option<u32>,
    currstate: Option<usize>,
    n: int,
) -> (r: (Seq<RngView<T>>, Seq<RngView<T>>))
    requires
        reads_real(rd),
        chain_shaped(h),
        currstate matches Some(c) ==> c < h.inference.states(),
        n >= 0,
        !sampled_chain(h, random_state, currstate, n).failed,
    ensures
        sampled_chain(h, random_state, currstate, n).states.len() == n,
        walks(
            rd,
            h,
            seed_of(random_state, h.random_state),
            currstate,
            sampled_chain(h, random_state, currstate, n),
            r.0,
            r.1,
        ),
{
    let seed = seed_of(random_state, h.random_state);
    let (first, rng) = first_state(h, fresh_state::<T>(seed), currstate);
    walk_upto(rd, h, seed, currstate, first, rng, n)
}

} // verus!
