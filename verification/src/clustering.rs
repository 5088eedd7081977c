//! What clustering finds, where arithmetic is exact.

use crate::cluster::{
    best_restart, closer, inertia_of, labelled, lloyd, member_count, member_sum, nearest,
    nearest_upto, reached, recentred, seeding, squared_distance,
};
use crate::matrix::Matrix;
use crate::reading::{real_sigma, real_sums, reads_real};
use crate::reals::{commutes, distributes, rsum, rsum_ext};
use crate::rng::state::RngView;
use crate::rng::uniform::sample_of;
use crate::scalar::{at_most, num, sigma, Scalar};
use vstd::prelude::*;

verus! {

/// 1 where row `t` is labelled `c`, else 0.
pub open spec fn belongs(labels: Seq<int>, c: int, t: int) -> real {
    if labels[t] == c {
        1real
    } else {
        0real
    }
}

/// The squared distance of row `t` from the point `p`.
pub open spec fn apart<T: Scalar>(
    rd: spec_fn(T) -> real,
    x: &Matrix<T>,
    t: int,
    p: Seq<T>,
) -> real {
    rsum(
        p.len() as int,
        |j: int| (rd(x.at(t, j)) - rd(p[j])) * (rd(x.at(t, j)) - rd(p[j])),
    )
}

proof fn distance_reads<T: Scalar>(rd: spec_fn(T) -> real, x: &Matrix<T>, t: int, p: Seq<T>)
    requires
        reads_real(rd),
    ensures
        rd(squared_distance(x, t, p)) == apart(rd, x, t, p),
{
    let n = p.len() as int;
    let f = |j: int| x.at(t, j).s_minus(p[j]).s_times(x.at(t, j).s_minus(p[j]));
    real_sums(rd);
    real_sigma(rd, n, f);
    reveal(reads_real);
    rsum_ext(
        n,
        |j: int| rd(f(j)),
        |j: int| (rd(x.at(t, j)) - rd(p[j])) * (rd(x.at(t, j)) - rd(p[j])),
    );
}

/// A row is labelled with the first of the centres that no other is nearer than.
pub proof fn label_is_first_nearest<T: Scalar>(
    rd: spec_fn(T) -> real,
    x: &Matrix<T>,
    centers: Seq<Seq<T>>,
    t: int,
)
    requires
        reads_real(rd),
        centers.len() >= 1,
        forall|c: int|
            0 <= c < centers.len() ==> apart(rd, x, t, #[trigger] centers[c]) < rd(T::s_pos_inf()),
    ensures
        ({
            let k = nearest(x, centers, t);
            &&& 0 <= k < centers.len()
            &&& forall|c: int|
                0 <= c < centers.len() ==> apart(rd, x, t, centers[k]) <= apart(
                    rd,
                    x,
                    t,
                    #[trigger] centers[c],
                )
            &&& forall|c: int|
                0 <= c < k ==> apart(rd, x, t, centers[k]) < apart(rd, x, t, #[trigger] centers[c])
        }),
{
    nearest_reads(rd, x, centers, t, centers.len() as int);
}

proof fn nearest_reads<T: Scalar>(
    rd: spec_fn(T) -> real,
    x: &Matrix<T>,
    centers: Seq<Seq<T>>,
    t: int,
    n: int,
)
    requires
        reads_real(rd),
        1 <= n <= centers.len(),
        forall|c: int|
            0 <= c < centers.len() ==> apart(rd, x, t, #[trigger] centers[c]) < rd(T::s_pos_inf()),
    ensures
        ({
            let (best, k) = nearest_upto(x, centers, t, n);
            &&& 0 <= k < n
            &&& rd(best) == apart(rd, x, t, centers[k])
            &&& forall|c: int|
                0 <= c < n ==> rd(best) <= apart(rd, x, t, #[trigger] centers[c])
            &&& forall|c: int| 0 <= c < k ==> rd(best) < apart(rd, x, t, #[trigger] centers[c])
        }),
    decreases n,
{
    distance_reads(rd, x, t, centers[n - 1]);
    reveal(reads_real);
    assert(apart(rd, x, t, centers[n - 1]) < rd(T::s_pos_inf()));
    if n == 1 {
        assert(nearest_upto(x, centers, t, 0) == (T::s_pos_inf(), 0int));
    } else {
        nearest_reads(rd, x, centers, t, n - 1);
    }
}

proof fn members_read<T: Scalar>(
    rd: spec_fn(T) -> real,
    x: &Matrix<T>,
    labels: Seq<int>,
    c: int,
    j: int,
    n: int,
)
    requires
        reads_real(rd),
    ensures
        rd(member_sum(x, labels, c, j, n)) == rsum(
            n,
            |t: int| belongs(labels, c, t) * rd(x.at(t, j)),
        ),
        member_count(labels, c, n) as real == rsum(n, |t: int| belongs(labels, c, t)),
        member_count(labels, c, n) >= 0,
    decreases n,
{
    reveal(reads_real);
    assert(rd(num::<T>(0)) == 0real);
    if n > 0 {
        members_read(rd, x, labels, c, j, n - 1);
        let v = rd(x.at(n - 1, j));
        assert(1real * v == v);
        assert(0real * v == 0real);
    }
}

/// The recomputed centre of a cluster is the mean of its members, a centre without
/// members stays: the deviations of the members from it add up to nothing.
pub proof fn centre_is_mean_of_members<T: Scalar>(
    rd: spec_fn(T) -> real,
    x: &Matrix<T>,
    labels: Seq<int>,
    centers: Seq<Seq<T>>,
    c: int,
    j: int,
)
    requires
        reads_real(rd),
        0 <= c < centers.len(),
        0 <= j < x.ncols,
    ensures
        recentred(x, labels, centers).len() == centers.len(),
        rsum(x.rows.len() as int, |t: int| belongs(labels, c, t)) > 0real ==> rsum(
            x.rows.len() as int,
            |t: int|
                belongs(labels, c, t) * (rd(x.at(t, j)) - rd(
                    recentred(x, labels, centers)[c][j],
                )),
        ) == 0real,
        rsum(x.rows.len() as int, |t: int| belongs(labels, c, t)) == 0real ==> recentred(
            x,
            labels,
            centers,
        )[c] == centers[c],
{
    let n = x.rows.len() as int;
    members_read(rd, x, labels, c, j, n);
    let k = member_count(labels, c, n);
    if k > 0 {
        let m = rd(recentred(x, labels, centers)[c][j]);
        let sum = rsum(n, |t: int| belongs(labels, c, t) * rd(x.at(t, j)));
        let mass = rsum(n, |t: int| belongs(labels, c, t));
        assert(m * mass == sum) by {
            reveal(reads_real);
            assert(rd(num::<T>(k)) == k as real);
        }
        members_off(rd, x, labels, c, j, m, n);
    }
}

proof fn members_off<T: Scalar>(
    rd: spec_fn(T) -> real,
    x: &Matrix<T>,
    labels: Seq<int>,
    c: int,
    j: int,
    m: real,
    n: int,
)
    ensures
        rsum(n, |t: int| belongs(labels, c, t) * (rd(x.at(t, j)) - m)) == rsum(
            n,
            |t: int| belongs(labels, c, t) * rd(x.at(t, j)),
        ) - m * rsum(n, |t: int| belongs(labels, c, t)),
    decreases n,
{
    if n > 0 {
        members_off(rd, x, labels, c, j, m, n - 1);
        let b = belongs(labels, c, n - 1);
        distributes(b, rd(x.at(n - 1, j)), m);
        commutes(b, m);
        distributes(m, rsum(n - 1, |t: int| belongs(labels, c, t)), b);
    } else {
        assert(m * 0real == 0real) by (nonlinear_arith);
    }
}

/// After at least one round, every row is labelled by the centres before the last
/// recomputation, and the centres are recomputed from those labels.
pub proof fn rounds_end_with_recomputed_centres<T: Scalar>(
    x: &Matrix<T>,
    centers: Seq<Seq<T>>,
    labels: Seq<int>,
    iters: nat,
) -> (before: Seq<Seq<T>>)
    requires
        iters >= 1,
    ensures
        lloyd(x, centers, labels, iters).1 == labelled(x, before),
        lloyd(x, centers, labels, iters).0 == recentred(
            x,
            lloyd(x, centers, labels, iters).1,
            before,
        ),
    decreases iters,
{
    let next = labelled(x, centers);
    let moved = recentred(x, next, centers);
    if next == labels || iters == 1 {
        if next != labels {
            assert(lloyd(x, moved, next, 0) == (moved, next));
        }
        centers
    } else {
        rounds_end_with_recomputed_centres(x, moved, next, (iters - 1) as nat)
    }
}

/// The centres and labels of restart `i`: seeded from the random state that the restarts
/// before it leave.
pub open spec fn restart<T: Scalar>(
    x: &Matrix<T>,
    k: int,
    max_iter: nat,
    s: RngView<T>,
    i: int,
) -> (Seq<Seq<T>>, Seq<int>) {
    let seeds = seeding(x, state_of_restart(x, k, s, i), k);
    lloyd(x, seeds.centers, Seq::new(x.rows.len() as nat, |t: int| 0), max_iter)
}

/// The random state that restart `i` starts from.
pub open spec fn state_of_restart<T: Scalar>(x: &Matrix<T>, k: int, s: RngView<T>, i: int) -> RngView<T>
    decreases i,
{
    if i <= 0 {
        s
    } else {
        seeding(x, state_of_restart(x, k, s, i - 1), k).state
    }
}

/// The total squared distance of the rows from the centres that they are labelled with.
pub open spec fn scatter_of<T: Scalar>(
    rd: spec_fn(T) -> real,
    x: &Matrix<T>,
    found: (Seq<Seq<T>>, Seq<int>),
) -> real {
    rsum(x.rows.len() as int, |t: int| apart(rd, x, t, found.0[found.1[t]]))
}

proof fn inertia_reads<T: Scalar>(
    rd: spec_fn(T) -> real,
    x: &Matrix<T>,
    found: (Seq<Seq<T>>, Seq<int>),
)
    requires
        reads_real(rd),
    ensures
        rd(inertia_of(x, found.0, found.1)) == scatter_of(rd, x, found),
{
    let n = x.rows.len() as int;
    let f = |t: int| squared_distance(x, t, found.0[found.1[t]]);
    real_sums(rd);
    real_sigma(rd, n, f);
    let (a, b) = (|t: int| rd(f(t)), |t: int| apart(rd, x, t, found.0[found.1[t]]));
    assert forall|t: int| 0 <= t < n implies #[trigger] a(t) == b(t) by {
        distance_reads(rd, x, t, found.0[found.1[t]]);
    }
    rsum_ext(n, a, b);
}

/// Of several restarts, the centres of the first with the least total squared distance
/// are kept.
pub proof fn best_restart_is_kept<T: Scalar>(
    rd: spec_fn(T) -> real,
    x: &Matrix<T>,
    k: int,
    max_iter: nat,
    s: RngView<T>,
    r: int,
) -> (i: int)
    requires
        reads_real(rd),
        r >= 1,
        forall|j: int|
            0 <= j < r ==> scatter_of(rd, x, #[trigger] restart(x, k, max_iter, s, j)) < rd(
                T::s_pos_inf(),
            ),
    ensures
        0 <= i < r,
        best_restart(x, k, max_iter, s, r).centers == restart(x, k, max_iter, s, i).0,
        best_restart(x, k, max_iter, s, r).state == state_of_restart(x, k, s, r),
        rd(best_restart(x, k, max_iter, s, r).inertia) == scatter_of(
            rd,
            x,
            restart(x, k, max_iter, s, i),
        ),
        forall|j: int|
            0 <= j < r ==> scatter_of(rd, x, restart(x, k, max_iter, s, i)) <= scatter_of(
                rd,
                x,
                #[trigger] restart(x, k, max_iter, s, j),
            ),
        forall|j: int|
            0 <= j < i ==> scatter_of(rd, x, restart(x, k, max_iter, s, i)) < scatter_of(
                rd,
                x,
                #[trigger] restart(x, k, max_iter, s, j),
            ),
    decreases r,
{
    let found = restart(x, k, max_iter, s, r - 1);
    inertia_reads(rd, x, found);
    assert(scatter_of(rd, x, restart(x, k, max_iter, s, r - 1)) < rd(T::s_pos_inf()));
    let b = best_restart(x, k, max_iter, s, r - 1);
    let zeros = Seq::new(x.rows.len() as nat, |t: int| 0int);
    assert(zeros =~= Seq::new(x.rows.len() as nat, |i: int| 0int));
    if r == 1 {
        assert(b.state == state_of_restart(x, k, s, 0));
        reveal(reads_real);
        0
    } else {
        let i = best_restart_is_kept(rd, x, k, max_iter, s, r - 1);
        reveal(reads_real);
        if scatter_of(rd, x, found) < scatter_of(rd, x, restart(x, k, max_iter, s, i)) {
            r - 1
        } else {
            i
        }
    }
}

/// `d` is the squared distance of row `t` from the nearest of the first `n` centres.
pub open spec fn is_nearest_distance<T: Scalar>(
    rd: spec_fn(T) -> real,
    x: &Matrix<T>,
    centers: Seq<Seq<T>>,
    t: int,
    n: int,
    d: real,
) -> bool {
    &&& forall|c: int| 0 <= c < n ==> d <= apart(rd, x, t, #[trigger] centers[c])
    &&& exists|c: int| 0 <= c < n && d == apart(rd, x, t, #[trigger] centers[c])
}

proof fn distances_kept<T: Scalar>(
    rd: spec_fn(T) -> real,
    x: &Matrix<T>,
    s: RngView<T>,
    c: int,
    t: int,
)
    requires
        reads_real(rd),
        1 <= c,
        0 <= t < x.rows.len(),
        forall|p: Seq<T>| #[trigger] apart(rd, x, t, p) < rd(T::s_pos_inf()),
    ensures
        seeding(x, s, c).centers.len() == c,
        seeding(x, s, c).d2.len() == x.rows.len(),
        c == 1 ==> rd(seeding(x, s, c).d2[t]) == rd(T::s_pos_inf()),
        c > 1 ==> is_nearest_distance(
            rd,
            x,
            seeding(x, s, c).centers,
            t,
            c - 1,
            rd(seeding(x, s, c).d2[t]),
        ),
    decreases c,
{
    if c > 1 {
        distances_kept(rd, x, s, c - 1, t);
        let g = seeding(x, s, c - 1);
        let h = seeding(x, s, c);
        distance_reads(rd, x, t, g.centers.last());
        reveal(reads_real);
        let d = rd(h.d2[t]);
        let e = apart(rd, x, t, g.centers.last());
        assert(h.d2[t] == closer(x, g.d2, g.centers.last())[t]);
        assert(d == if e < rd(g.d2[t]) {
            e
        } else {
            rd(g.d2[t])
        });
        assert forall|i: int| 0 <= i < c - 1 implies d <= apart(rd, x, t, #[trigger] h.centers[i]) by {
            if i < c - 2 {
                assert(g.centers[i] == h.centers[i]);
            }
        }
        if c > 2 && !(e < rd(g.d2[t])) {
            let i = choose|i: int|
                0 <= i < c - 2 && rd(g.d2[t]) == apart(rd, x, t, #[trigger] g.centers[i]);
            assert(h.centers[i] == g.centers[i]);
        } else {
            assert(h.centers[c - 2] == g.centers.last());
        }
    }
}

/// The row at which the running sum of `d2` first reaches the target.
proof fn reached_reads<T: Scalar>(
    rd: spec_fn(T) -> real,
    d2: Seq<T>,
    p: spec_fn(int) -> real,
    target: T,
    i: int,
)
    requires
        reads_real(rd),
        d2.len() >= 1,
        0 <= i <= d2.len(),
        p == (|k: int| rd(d2[k])),
        forall|j: int| 1 <= j <= i ==> #[trigger] rsum(j, p) < rd(target),
    ensures
        ({
            let k = reached(d2, target, i);
            &&& 0 <= k < d2.len()
            &&& forall|j: int| 1 <= j <= k ==> #[trigger] rsum(j, p) < rd(target)
            &&& k < d2.len() - 1 ==> rd(target) <= rsum(k + 1, p)
        }),
    decreases d2.len() - i,
{
    if i < d2.len() {
        let f = |k: int| d2[k];
        real_sums(rd);
        real_sigma(rd, i + 1, f);
        rsum_ext(i + 1, |k: int| rd(f(k)), p);
        assert(at_most(target, sigma(i + 1, f)) <==> rd(target) <= rsum(i + 1, p)) by {
            reveal(reads_real);
        }
        if !at_most(target, sigma(i + 1, f)) {
            reached_reads(rd, d2, p, target, i + 1);
        }
    }
}

/// Every seed after the first is a row, drawn with its squared distance from the nearest
/// seed before it: with these distances laid end to end, the next uniform number, scaled
/// to their sum, falls on the stretch of that row.
pub proof fn seeds_keep_their_distance<T: Scalar>(
    rd: spec_fn(T) -> real,
    x: &Matrix<T>,
    s: RngView<T>,
    c: int,
) -> (r: (spec_fn(int) -> real, int))
    requires
        reads_real(rd),
        2 <= c,
        x.rows.len() >= 1,
        forall|t: int, p: Seq<T>| #[trigger] apart(rd, x, t, p) < rd(T::s_pos_inf()),
    ensures
        seeding(x, s, c).centers.len() == c,
        forall|i: int|
            0 <= i < c - 1 ==> #[trigger] seeding(x, s, c).centers[i] == seeding(
                x,
                s,
                c - 1,
            ).centers[i],
        forall|t: int|
            0 <= t < x.rows.len() ==> is_nearest_distance(
                rd,
                x,
                seeding(x, s, c).centers,
                t,
                c - 1,
                #[trigger] r.0(t),
            ),
        0 <= r.1 < x.rows.len(),
        seeding(x, s, c).centers[c - 1] == x.row_view(r.1),
        ({
            let target = rd(sample_of::<T>(seeding(x, s, c - 1).state.mt)) * rsum(
                x.rows.len() as int,
                r.0,
            );
            &&& forall|j: int| 1 <= j <= r.1 ==> #[trigger] rsum(j, r.0) < target
            &&& r.1 < x.rows.len() - 1 ==> target <= rsum(r.1 + 1, r.0)
        }),
        seeding(x, s, c).state == seeding(x, s, c - 1).state.sampled(),
{
    let n = x.rows.len() as int;
    let g = seeding(x, s, c - 1);
    let h = seeding(x, s, c);
    let d2 = h.d2;
    let p = |k: int| rd(d2[k]);
    distances_kept(rd, x, s, c, 0);
    distances_kept(rd, x, s, c - 1, 0);
    assert forall|t: int| 0 <= t < n implies is_nearest_distance(
        rd,
        x,
        h.centers,
        t,
        c - 1,
        #[trigger] p(t),
    ) by {
        distances_kept(rd, x, s, c, t);
    }
    let f = |i: int| d2[i];
    real_sums(rd);
    real_sigma(rd, n, f);
    rsum_ext(n, |i: int| rd(f(i)), p);
    let target = sample_of::<T>(g.state.mt).s_times(sigma(n, f));
    assert(rd(target) == rd(sample_of::<T>(g.state.mt)) * rsum(n, p)) by {
        reveal(reads_real);
    }
    reached_reads(rd, d2, p, target, 0);
    let k = reached(d2, target, 0);
    assert(h.centers[c - 1] == x.row_view(k));
    (p, k)
}

} // verus!
