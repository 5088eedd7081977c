//! A small k-means++ used to initialise Gaussian means.

use crate::matrix::{copied, filled, Matrix};
use crate::rng::state::{fresh_state, NumpyRandomState, RngView};
use crate::rng::uniform::sample_of;
use crate::scalar::{at_most, count, le, num, one, sigma, sum_of, zero, Scalar};
use vstd::prelude::*;

verus! {

/// Squared Euclidean distance between row `i` of `a` and the centre `c`.
pub open spec fn squared_distance<T: Scalar>(a: &Matrix<T>, i: int, c: Seq<T>) -> T {
    sigma(
        c.len() as int,
        |j: int| a.at(i, j).s_minus(c[j]).s_times(a.at(i, j).s_minus(c[j])),
    )
}

/// Squared Euclidean distance between row `i` of `a` and the centre `c`.
fn sq_dist<T: Scalar>(a: &Matrix<T>, i: usize, c: &Vec<T>) -> (d: T)
    requires
        a.wf(),
        i < a.rows.len(),
        c.len() == a.ncols,
    ensures
        d == squared_distance(a, i as int, c@),
{
    let f = |j: usize| -> (x: T)
        requires
            a.wf(),
            i < a.rows.len(),
            j < c.len(),
            c.len() == a.ncols,
        ensures
            x == a.at(i as int, j as int).s_minus(c@[j as int]).s_times(
                a.at(i as int, j as int).s_minus(c@[j as int]),
            ),
    {
        let diff = a.get(i, j).minus(c[j]);
        diff.times(diff)
    };
    sum_of(
        c.len(),
        f,
        Ghost(
            |j: int|
                a.at(i as int, j).s_minus(c@[j]).s_times(a.at(i as int, j).s_minus(c@[j])),
        ),
    )
}

/// The smallest squared distance of row `i` to the first `k` centres (infinity if
/// there is none below it) and the first centre that has it.
pub open spec fn nearest_upto<T: Scalar>(x: &Matrix<T>, centers: Seq<Seq<T>>, i: int, k: int) -> (
    T,
    int,
)
    decreases k,
{
    if k <= 0 {
        (T::s_pos_inf(), 0)
    } else {
        let (best, idx) = nearest_upto(x, centers, i, k - 1);
        let d = squared_distance(x, i, centers[k - 1]);
        if d.s_below(best) {
            (d, k - 1)
        } else {
            (best, idx)
        }
    }
}

/// The centre nearest to row `i`, the lowest index among equals.
pub open spec fn nearest<T: Scalar>(x: &Matrix<T>, centers: Seq<Seq<T>>, i: int) -> int {
    nearest_upto(x, centers, i, centers.len() as int).1
}

/// The nearest centres of all rows.
pub open spec fn labelled<T: Scalar>(x: &Matrix<T>, centers: Seq<Seq<T>>) -> Seq<int> {
    Seq::new(x.rows.len() as nat, |i: int| nearest(x, centers, i))
}

/// The centre nearest to row `i`, the lowest index among equals.
pub fn nearest_center<T: Scalar>(x: &Matrix<T>, centers: &Matrix<T>, i: usize) -> (c: usize)
    requires
        x.wf(),
        i < x.rows.len(),
        centers.has_dims(centers.rows.len() as int, x.ncols as int),
        centers.rows.len() >= 1,
    ensures
        c == nearest(x, centers@, i as int),
        c < centers.rows.len(),
{
    let mut best: usize = 0;
    let mut best_d = T::pos_inf();
    let mut c: usize = 0;
    while c < centers.rows.len()
        invariant
            c <= centers.rows.len(),
            centers.rows.len() >= 1,
            best < centers.rows.len(),
            x.wf(),
            i < x.rows.len(),
            centers.has_dims(centers.rows.len() as int, x.ncols as int),
            (best_d, best as int) == nearest_upto(x, centers@, i as int, c as int),
        decreases centers.rows.len() - c,
    {
        let d = sq_dist(x, i, &centers.rows[c]);
        assert(centers@[c as int] == centers.rows@[c as int]@);
        if d.below(best_d) {
            best_d = d;
            best = c;
        }
        c += 1;
    }
    best
}

/// `below` is transitive and holds of no number and itself.
pub open spec fn strict_order<T: Scalar>() -> bool {
    &&& forall|a: T| !(#[trigger] a.s_below(a))
    &&& forall|a: T, b: T, c: T|
        #![trigger a.s_below(b), b.s_below(c)]
        a.s_below(b) && b.s_below(c) ==> a.s_below(c)
}

/// No centre is nearer than the nearest one, and every centre before it that is
/// at a finite distance is strictly farther or incomparable: over strictly
/// ordered numbers, no centre's distance is below the one the label has.
pub proof fn nearest_is_minimal<T: Scalar>(
    x: &Matrix<T>,
    centers: Seq<Seq<T>>,
    i: int,
    k: int,
    c: int,
)
    requires
        strict_order::<T>(),
        0 <= c < k <= centers.len(),
    ensures
        !squared_distance(x, i, centers[c]).s_below(nearest_upto(x, centers, i, k).0),
        nearest_upto(x, centers, i, k).0 == T::s_pos_inf() || nearest_upto(x, centers, i, k).0
            == squared_distance(x, i, centers[nearest_upto(x, centers, i, k).1]),
        0 <= nearest_upto(x, centers, i, k).1 < k,
    decreases k,
{
    let (best, idx) = nearest_upto(x, centers, i, k - 1);
    if k == 1 {
    } else {
        if c < k - 1 {
            nearest_is_minimal(x, centers, i, k - 1, c);
        } else {
            nearest_is_minimal(x, centers, i, k - 1, 0);
        }
    }
}

/// Assign each row to its nearest centre, updating `labels` in place. Whether any
/// label changed.
fn assign<T: Scalar>(x: &Matrix<T>, centers: &Matrix<T>, labels: &mut Vec<usize>) -> (changed: bool)
    requires
        x.wf(),
        centers.has_dims(centers.rows.len() as int, x.ncols as int),
        centers.rows.len() >= 1,
        old(labels).len() == x.rows.len(),
    ensures
        as_labels(final(labels)@) == labelled(x, centers@),
        changed == (as_labels(old(labels)@) != labelled(x, centers@)),
        final(labels).len() == x.rows.len(),
{
    let ghost before = labels@;
    let mut changed = false;
    let mut i: usize = 0;
    while i < labels.len()
        invariant
            i <= labels.len(),
            labels.len() == x.rows.len(),
            before.len() == x.rows.len(),
            x.wf(),
            centers.has_dims(centers.rows.len() as int, x.ncols as int),
            centers.rows.len() >= 1,
            forall|k: int| 0 <= k < i ==> #[trigger] labels@[k] == nearest(x, centers@, k),
            forall|k: int| i <= k < labels.len() ==> #[trigger] labels@[k] == before[k],
            changed == (exists|k: int| 0 <= k < i && #[trigger] before[k] != nearest(x, centers@, k)),
        decreases labels.len() - i,
    {
        let best: usize = nearest_center(x, centers, i);
        if labels[i] != best {
            assert(before[i as int] != nearest(x, centers@, i as int));
            labels.set(i, best);
            changed = true;
        }
        i += 1;
    }
    proof {
        assert(as_labels(labels@) =~= labelled(x, centers@));
        if changed {
            let k = choose|k: int|
                0 <= k < before.len() && #[trigger] before[k] != nearest(x, centers@, k);
            assert(as_labels(before)[k] != labelled(x, centers@)[k]);
        } else {
            assert forall|k: int| 0 <= k < before.len() implies as_labels(before)[k] == labelled(
                x,
                centers@,
            )[k] by {
                assert(before[k] == nearest(x, centers@, k));
            }
            assert(as_labels(before) =~= labelled(x, centers@));
        }
    }
    changed
}

/// Labels as mathematical integers.
pub open spec fn as_labels(labels: Seq<usize>) -> Seq<int> {
    labels.map_values(|l: usize| l as int)
}

/// How many of the first `n` rows are labelled `c`.
pub open spec fn member_count(labels: Seq<int>, c: int, n: int) -> int
    decreases n,
{
    if n <= 0 {
        0
    } else {
        member_count(labels, c, n - 1) + if labels[n - 1] == c {
            1int
        } else {
            0int
        }
    }
}

/// The sum of entry `j` over those of the first `n` rows that are labelled `c`.
pub open spec fn member_sum<T: Scalar>(x: &Matrix<T>, labels: Seq<int>, c: int, j: int, n: int) -> T
    decreases n,
{
    if n <= 0 {
        num(0)
    } else if labels[n - 1] == c {
        member_sum(x, labels, c, j, n - 1).s_plus(x.at(n - 1, j))
    } else {
        member_sum(x, labels, c, j, n - 1)
    }
}

/// The centres recomputed as the means of their members; a centre without members
/// stays.
pub open spec fn recentred<T: Scalar>(x: &Matrix<T>, labels: Seq<int>, centers: Seq<Seq<T>>) -> Seq<
    Seq<T>,
> {
    let n = x.rows.len() as int;
    Seq::new(
        centers.len(),
        |c: int|
            if member_count(labels, c, n) > 0 {
                Seq::new(
                    x.ncols as nat,
                    |j: int|
                        member_sum(x, labels, c, j, n).s_over(num(member_count(labels, c, n))),
                )
            } else {
                centers[c]
            },
    )
}

fn count_members(labels: &Vec<usize>, c: usize) -> (r: usize)
    ensures
        r == member_count(as_labels(labels@), c as int, labels.len() as int),
{
    let mut r: usize = 0;
    let mut i: usize = 0;
    while i < labels.len()
        invariant
            i <= labels.len(),
            r <= i,
            r == member_count(as_labels(labels@), c as int, i as int),
        decreases labels.len() - i,
    {
        if labels[i] == c {
            r += 1;
        }
        i += 1;
    }
    r
}

fn sum_members<T: Scalar>(x: &Matrix<T>, labels: &Vec<usize>, c: usize, j: usize) -> (r: T)
    requires
        x.wf(),
        j < x.ncols,
        labels.len() == x.rows.len(),
    ensures
        r == member_sum(x, as_labels(labels@), c as int, j as int, labels.len() as int),
{
    let mut r: T = zero();
    let mut i: usize = 0;
    while i < labels.len()
        invariant
            i <= labels.len(),
            x.wf(),
            j < x.ncols,
            labels.len() == x.rows.len(),
            r == member_sum(x, as_labels(labels@), c as int, j as int, i as int),
        decreases labels.len() - i,
    {
        if labels[i] == c {
            r = r.plus(x.get(i, j));
        }
        i += 1;
    }
    r
}

/// Recompute each centre as the mean of its rows, in place. Empty clusters keep
/// their centre.
fn recompute<T: Scalar>(x: &Matrix<T>, labels: &Vec<usize>, centers: &mut Matrix<T>)
    requires
        x.wf(),
        labels.len() == x.rows.len(),
        old(centers).has_dims(old(centers).rows.len() as int, x.ncols as int),
    ensures
        final(centers).has_dims(old(centers).rows.len() as int, x.ncols as int),
        final(centers)@ == recentred(x, as_labels(labels@), old(centers)@),
{
    let k: usize = centers.rows.len();
    let nf: usize = x.ncols;
    let ghost before = centers@;
    let mut rows: Vec<Vec<T>> = Vec::new();
    let mut c: usize = 0;
    while c < k
        invariant
            c <= k,
            nf == x.ncols,
            x.wf(),
            labels.len() == x.rows.len(),
            centers.has_dims(k as int, nf as int),
            centers@ == before,
            before.len() == k,
            rows.len() == c,
            forall|p: int| 0 <= p < c ==> (#[trigger] rows@[p])@.len() == nf,
            forall|p: int|
                0 <= p < c ==> (#[trigger] rows@[p])@ == recentred(
                    x,
                    as_labels(labels@),
                    before,
                )[p],
        decreases k - c,
    {
        let members: usize = count_members(labels, c);
        let ghost target = recentred(x, as_labels(labels@), before)[c as int];
        if members > 0 {
            let mut row: Vec<T> = Vec::new();
            let mut j: usize = 0;
            while j < nf
                invariant
                    j <= nf,
                    nf == x.ncols,
                    x.wf(),
                    labels.len() == x.rows.len(),
                    row.len() == j,
                    forall|p: int|
                        0 <= p < j ==> #[trigger] row@[p] == member_sum(
                            x,
                            as_labels(labels@),
                            c as int,
                            p,
                            labels.len() as int,
                        ).s_over(num(members as int)),
                decreases nf - j,
            {
                row.push(sum_members(x, labels, c, j).over(count(members)));
                j += 1;
            }
            assert(row@ =~= target);
            rows.push(row);
        } else {
            assert(centers@[c as int] == centers.rows@[c as int]@);
            assert(centers.rows[c as int].len() == nf);
            rows.push(copied(&centers.rows[c]));
        }
        c += 1;
    }
    let r = Matrix { rows, ncols: nf };
    proof {
        assert(r@ =~= recentred(x, as_labels(labels@), before));
    }
    *centers = r;
}

/// At most `iters` rounds of assignment and recomputation: the centres and labels
/// reached. The rounds end after the first that changes no label.
pub open spec fn lloyd<T: Scalar>(
    x: &Matrix<T>,
    centers: Seq<Seq<T>>,
    labels: Seq<int>,
    iters: nat,
) -> (Seq<Seq<T>>, Seq<int>)
    decreases iters,
{
    if iters == 0 {
        (centers, labels)
    } else {
        let next = labelled(x, centers);
        let moved = recentred(x, next, centers);
        if next == labels {
            (moved, next)
        } else {
            lloyd(x, moved, next, (iters - 1) as nat)
        }
    }
}

/// The index of the row that is the first centre.
pub open spec fn first_center<T: Scalar>(n: int, u: T) -> int {
    let v = u.s_times(num(n)).s_to_int();
    (if v < 0 {
        0
    } else {
        v as int
    }) % n
}

/// The squared distances to the nearest centre after the centre `c` has joined.
pub open spec fn closer<T: Scalar>(x: &Matrix<T>, d2: Seq<T>, c: Seq<T>) -> Seq<T> {
    Seq::new(
        d2.len(),
        |i: int|
            if squared_distance(x, i, c).s_below(d2[i]) {
                squared_distance(x, i, c)
            } else {
                d2[i]
            },
    )
}

/// The first row, from `i` on, at which the running sum of `d2` reaches the
/// target; the last row if none does.
pub open spec fn reached<T: Scalar>(d2: Seq<T>, target: T, i: int) -> int
    decreases d2.len() - i,
{
    if i < 0 || i >= d2.len() {
        d2.len() - 1
    } else if at_most(target, sigma(i + 1, |k: int| d2[k])) {
        i
    } else {
        reached(d2, target, i + 1)
    }
}

/// The seeding after `c` centres: the random state, the centres, and the squared
/// distances that the last choice was made by.
pub struct Seeding<T> {
    /// The random state.
    pub state: RngView<T>,
    /// The centres so far.
    pub centers: Seq<Seq<T>>,
    /// The squared distance of each row to its nearest centre but the last.
    pub d2: Seq<T>,
}

/// The first `c` centres: the first uniformly at random, each next one a row drawn
/// with probability proportional to its squared distance to the nearest centre.
pub open spec fn seeding<T: Scalar>(x: &Matrix<T>, s: RngView<T>, c: int) -> Seeding<T>
    decreases c,
{
    let n = x.rows.len() as int;
    if c <= 1 {
        Seeding {
            state: s.sampled(),
            centers: seq![x.row_view(first_center(n, sample_of::<T>(s.mt)))],
            d2: Seq::new(n as nat, |i: int| T::s_pos_inf()),
        }
    } else {
        let g = seeding(x, s, c - 1);
        let d2 = closer(x, g.d2, g.centers.last());
        let target = sample_of::<T>(g.state.mt).s_times(sigma(n, |i: int| d2[i]));
        Seeding {
            state: g.state.sampled(),
            centers: g.centers.push(x.row_view(reached(d2, target, 0))),
            d2,
        }
    }
}

fn first_index<T: Scalar>(n: usize, u: T) -> (i: usize)
    requires
        n >= 1,
    ensures
        i == first_center(n as int, u),
        i < n,
{
    let v: i64 = u.times(count(n)).to_int();
    let w: u64 = if v < 0 {
        0
    } else {
        v as u64
    };
    (w % (n as u64)) as usize
}

/// k-means++ initial centre selection.
fn kmeans_plusplus<T: Scalar>(x: &Matrix<T>, k: usize, rng: &mut NumpyRandomState<T>) -> (centers:
    Matrix<T>)
    requires
        x.wf(),
        x.rows.len() >= 1,
        k >= 1,
        old(rng).wf(),
    ensures
        final(rng).wf(),
        centers.has_dims(k as int, x.ncols as int),
        final(rng)@ == seeding(x, old(rng)@, k as int).state,
        centers@ == seeding(x, old(rng)@, k as int).centers,
{
    let n: usize = x.rows.len();
    let ghost start = rng@;
    let first: usize = first_index(n, rng.random_sample());
    let mut rows: Vec<Vec<T>> = Vec::new();
    rows.push(copied(&x.rows[first]));
    let mut d2 = filled(n, T::pos_inf());
    let mut c: usize = 1;
    proof {
        let g = seeding(x, start, 1);
        assert(rows@[0]@ == g.centers[0]);
        assert(d2@ =~= g.d2);
    }
    while c < k
        invariant
            1 <= c <= k,
            n == x.rows.len(),
            n >= 1,
            x.wf(),
            rng.wf(),
            start == old(rng)@,
            d2.len() == n,
            rng@ == seeding(x, start, c as int).state,
            d2@ == seeding(x, start, c as int).d2,
            rows.len() == c,
            seeding(x, start, c as int).centers.len() == c,
            forall|p: int| 0 <= p < c ==> (#[trigger] rows@[p])@.len() == x.ncols,
            forall|p: int|
                0 <= p < c ==> (#[trigger] rows@[p])@ == seeding(x, start, c as int).centers[p],
        decreases k - c,
    {
        let ghost g = seeding(x, start, c as int);
        let prev = &rows[c - 1];
        let ghost next_d2 = closer(x, g.d2, g.centers.last());
        assert(prev@ == g.centers.last());
        let ghost w = |i: int| next_d2[i];
        let mut total: T = zero();
        let mut moved: Vec<T> = Vec::new();
        let mut i: usize = 0;
        while i < n
            invariant
                i <= n,
                n == x.rows.len(),
                x.wf(),
                d2.len() == n,
                d2@ == g.d2,
                prev@ == g.centers.last(),
                prev.len() == x.ncols,
                next_d2 == closer(x, g.d2, g.centers.last()),
                w == (|i: int| next_d2[i]),
                moved.len() == i,
                forall|p: int| 0 <= p < i ==> #[trigger] moved@[p] == next_d2[p],
                total == sigma(i as int, w),
            decreases n - i,
        {
            let dist = sq_dist(x, i, prev);
            let d = if dist.below(d2[i]) {
                dist
            } else {
                d2[i]
            };
            assert(d == next_d2[i as int]);
            moved.push(d);
            total = total.plus(d);
            i += 1;
        }
        d2 = moved;
        assert(d2@ =~= next_d2);
        let target = rng.random_sample().times(total);
        let mut acc: T = zero();
        let mut chosen: usize = n - 1;
        let mut searching = true;
        let mut q: usize = 0;
        while searching && q < n
            invariant
                q <= n,
                n >= 1,
                n == x.rows.len(),
                chosen < n,
                d2.len() == n,
                d2@ == next_d2,
                w == (|i: int| next_d2[i]),
                searching ==> chosen == n - 1 && acc == sigma(q as int, w) && reached(
                    d2@,
                    target,
                    q as int,
                ) == reached(d2@, target, 0),
                !searching ==> chosen == reached(d2@, target, 0),
            decreases n - q,
        {
            acc = acc.plus(d2[q]);
            assert(acc == sigma(q + 1, w));
            assert((|k: int| d2@[k]) =~= w);
            if le(target, acc) {
                chosen = q;
                searching = false;
            }
            q += 1;
        }
        assert(chosen == reached(d2@, target, 0));
        rows.push(copied(&x.rows[chosen]));
        c += 1;
    }
    let centers = Matrix { rows, ncols: x.ncols };
    proof {
        assert(centers@ =~= seeding(x, start, k as int).centers);
    }
    centers
}

/// The total squared distance of the rows to the centres they are assigned to.
pub open spec fn inertia_of<T: Scalar>(x: &Matrix<T>, centers: Seq<Seq<T>>, labels: Seq<int>) -> T {
    sigma(x.rows.len() as int, |i: int| squared_distance(x, i, centers[labels[i]]))
}

/// The best restart so far: the random state, its centres, and its inertia.
pub struct Restart<T> {
    /// The random state.
    pub state: RngView<T>,
    /// The centres.
    pub centers: Seq<Seq<T>>,
    /// The inertia.
    pub inertia: T,
}

/// The first of the first `r` restarts with the lowest inertia; zeros where none
/// is below infinity.
pub open spec fn best_restart<T: Scalar>(
    x: &Matrix<T>,
    k: int,
    max_iter: nat,
    s: RngView<T>,
    r: int,
) -> Restart<T>
    decreases r,
{
    if r <= 0 {
        Restart {
            state: s,
            centers: Seq::new(k as nat, |c: int| Seq::new(x.ncols as nat, |j: int| num(0))),
            inertia: T::s_pos_inf(),
        }
    } else {
        let b = best_restart(x, k, max_iter, s, r - 1);
        let g = seeding(x, b.state, k);
        let (centers, labels) = lloyd(
            x,
            g.centers,
            Seq::new(x.rows.len() as nat, |i: int| 0),
            max_iter,
        );
        let inertia = inertia_of(x, centers, labels);
        if inertia.s_below(b.inertia) {
            Restart { state: g.state, centers, inertia }
        } else {
            Restart { state: g.state, centers: b.centers, inertia: b.inertia }
        }
    }
}

/// One restart: seeding and rounds of assignment and recomputation.
fn one_restart<T: Scalar>(x: &Matrix<T>, k: usize, max_iter: usize, rng: &mut NumpyRandomState<T>) -> (r:
    (Matrix<T>, T))
    requires
        x.wf(),
        x.rows.len() >= 1,
        k >= 1,
        old(rng).wf(),
    ensures
        final(rng).wf(),
        r.0.has_dims(k as int, x.ncols as int),
        ({
            let g = seeding(x, old(rng)@, k as int);
            let (centers, labels) = lloyd(
                x,
                g.centers,
                Seq::new(x.rows.len() as nat, |i: int| 0),
                max_iter as nat,
            );
            &&& final(rng)@ == g.state
            &&& r.0@ == centers
            &&& r.1 == inertia_of(x, centers, labels)
        }),
{
    let n: usize = x.rows.len();
    let ghost g = seeding(x, rng@, k as int);
    let mut centers = kmeans_plusplus(x, k, rng);
    let mut labels = filled(n, 0usize);
    let ghost goal = lloyd(
        x,
        g.centers,
        Seq::new(x.rows.len() as nat, |i: int| 0),
        max_iter as nat,
    );
    proof {
        assert(as_labels(labels@) =~= Seq::new(x.rows.len() as nat, |i: int| 0));
    }
    let mut it: usize = 0;
    let mut running = true;
    while running && it < max_iter
        invariant
            it <= max_iter,
            x.wf(),
            n == x.rows.len(),
            k >= 1,
            centers.has_dims(k as int, x.ncols as int),
            labels.len() == n,
            forall|i: int| 0 <= i < n ==> #[trigger] labels@[i] < k,
            running ==> lloyd(x, centers@, as_labels(labels@), (max_iter - it) as nat) == goal,
            !running ==> goal == (centers@, as_labels(labels@)),
        decreases max_iter - it,
    {
        let ghost old_labels = as_labels(labels@);
        let changed = assign(x, &centers, &mut labels);
        proof {
            assert forall|i: int| 0 <= i < n implies #[trigger] labels@[i] < k by {
                assert(as_labels(labels@)[i] == labels@[i]);
                nearest_in_range(x, centers@, i, centers@.len() as int);
            }
        }
        recompute(x, &labels, &mut centers);
        if !changed {
            running = false;
        }
        it += 1;
    }
    proof {
        assert(goal == (centers@, as_labels(labels@)));
    }
    let f = |i: usize| -> (d: T)
        requires
            x.wf(),
            i < n,
            n == x.rows.len(),
            labels.len() == n,
            centers.has_dims(k as int, x.ncols as int),
            forall|i: int| 0 <= i < n ==> #[trigger] labels@[i] < k,
        ensures
            d == squared_distance(x, i as int, centers@[as_labels(labels@)[i as int]]),
    {
        let l: usize = labels[i];
        assert(centers@[l as int] == centers.rows@[l as int]@);
        sq_dist(x, i, &centers.rows[l])
    };
    let inertia = sum_of(
        n,
        f,
        Ghost(|i: int| squared_distance(x, i, centers@[as_labels(labels@)[i]])),
    );
    (centers, inertia)
}

proof fn nearest_in_range<T: Scalar>(x: &Matrix<T>, centers: Seq<Seq<T>>, i: int, k: int)
    requires
        0 <= k,
    ensures
        0 <= nearest_upto(x, centers, i, k).1,
        nearest_upto(x, centers, i, k).1 < k || nearest_upto(x, centers, i, k).1 == 0,
    decreases k,
{
    if k > 0 {
        nearest_in_range(x, centers, i, k - 1);
    }
}

/// k-means++ seeding followed by rounds of assignment and recomputation, with
/// `n_init` restarts (at least one): the `(k, n_features)` centres of the restart
/// with the lowest total squared distance.
pub fn kmeans<T: Scalar>(
    x: &Matrix<T>,
    k: usize,
    n_init: usize,
    max_iter: usize,
    seed: Option<u32>,
) -> (centers: Matrix<T>)
    requires
        x.wf(),
        x.rows.len() >= 1,
        k >= 1,
    ensures
        centers.has_dims(k as int, x.ncols as int),
        centers@ == best_restart(
            x,
            k as int,
            max_iter as nat,
            fresh_state(
                match seed {
                    Some(s) => s,
                    None => 0u32,
                },
            ),
            if n_init >= 1 {
                n_init as int
            } else {
                1
            },
        ).centers,
{
    let s: u32 = match seed {
        Some(s) => s,
        None => 0,
    };
    let rounds: usize = if n_init >= 1 {
        n_init
    } else {
        1
    };
    let mut rng: NumpyRandomState<T> = NumpyRandomState::new(s);
    let ghost start = fresh_state::<T>(s);
    let mut best_centers = Matrix::constant(k, x.ncols, zero::<T>());
    let mut best_inertia = T::pos_inf();
    proof {
        let z = best_restart(x, k as int, max_iter as nat, start, 0).centers;
        assert forall|c: int| 0 <= c < k implies #[trigger] best_centers@[c] == z[c] by {
            assert(best_centers.rows[c].len() == x.ncols);
            assert forall|j: int| 0 <= j < x.ncols implies #[trigger] best_centers@[c][j] == z[c][j] by {
                assert(best_centers.at(c, j) == num::<T>(0));
            }
            assert(best_centers@[c] =~= z[c]);
        }
        assert(best_centers@ =~= z);
    }
    let mut r: usize = 0;
    while r < rounds
        invariant
            r <= rounds,
            x.wf(),
            x.rows.len() >= 1,
            k >= 1,
            rng.wf(),
            best_centers.has_dims(k as int, x.ncols as int),
            ({
                let b = best_restart(x, k as int, max_iter as nat, start, r as int);
                &&& rng@ == b.state
                &&& best_centers@ == b.centers
                &&& best_inertia == b.inertia
            }),
        decreases rounds - r,
    {
        let (centers, inertia) = one_restart(x, k, max_iter, &mut rng);
        if inertia.below(best_inertia) {
            best_inertia = inertia;
            best_centers = centers;
        }
        r += 1;
    }
    best_centers
}

/// 1 added up once for each of the first `n` rows whose nearest centre is `c`.
pub open spec fn nearest_tally<T: Scalar>(x: &Matrix<T>, centers: Seq<Seq<T>>, c: int, n: int) -> T
    decreases n,
{
    if n <= 0 {
        num(0)
    } else if nearest(x, centers, n - 1) == c {
        nearest_tally(x, centers, c, n - 1).s_plus(num(1))
    } else {
        nearest_tally(x, centers, c, n - 1)
    }
}

/// Number of rows nearest to each centre, ties to the lowest index.
pub fn cluster_counts<T: Scalar>(x: &Matrix<T>, centers: &Matrix<T>) -> (counts: Vec<T>)
    requires
        x.wf(),
        centers.has_dims(centers.rows.len() as int, x.ncols as int),
        centers.rows.len() >= 1,
    ensures
        counts@ == Seq::new(
            centers.rows.len() as nat,
            |c: int| nearest_tally(x, centers@, c, x.rows.len() as int),
        ),
{
    let k: usize = centers.rows.len();
    let mut counts = filled(k, zero::<T>());
    let mut i: usize = 0;
    while i < x.rows.len()
        invariant
            i <= x.rows.len(),
            x.wf(),
            k == centers.rows.len(),
            k >= 1,
            centers.has_dims(k as int, x.ncols as int),
            counts.len() == k,
            forall|c: int|
                0 <= c < k ==> #[trigger] counts@[c] == nearest_tally(x, centers@, c, i as int),
        decreases x.rows.len() - i,
    {
        let best: usize = nearest_center(x, centers, i);
        let n = counts[best].plus(one());
        counts.set(best, n);
        i += 1;
    }
    proof {
        assert(counts@ =~= Seq::new(
            centers.rows.len() as nat,
            |c: int| nearest_tally(x, centers@, c, x.rows.len() as int),
        ));
    }
    counts
}

} // verus!
