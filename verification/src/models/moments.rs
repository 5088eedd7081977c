//! Sums over the weighed rows of several sequences, and what the statistics of the
//! Gaussian models read as.

use crate::engine::emission::EmissionModel;
use crate::engine::fit::{estep_at, estep_upto, EStep};
use crate::engine::hmm::Hmm;
use crate::engine::inference::Inference;
use crate::engine::params::ParamSet;
use crate::linalg::Dense;
use crate::matrix::{col_total, Cube, Matrix};
use crate::models::gaussian::{gains_mass, gains_outer, gains_squares, outer_mass};
use crate::models::shared::gains_products;
use crate::reading::{real_sigma, real_sums, reads_real};
use crate::reals::{annuls, associates, commutes, distributes, rsum, rsum_ext};
use crate::scalar::{num, sigma, Scalar};
use vstd::prelude::*;

verus! {

/// The sum of `f(s, t)` over all rows `t` of all sequences `s`.
pub open spec fn over_rows<T>(subs: Seq<Matrix<T>>, f: spec_fn(int, int) -> real) -> real {
    rsum(subs.len() as int, |s: int| rsum(subs[s].rows.len() as int, |t: int| f(s, t)))
}

/// The weight of each row in state `c`.
pub open spec fn weight_of<T>(
    rd: spec_fn(T) -> real,
    posts: Seq<Matrix<T>>,
    c: int,
) -> spec_fn(int, int) -> real {
    |s: int, t: int| rd(posts[s].at(t, c))
}

/// Entry `f` of each row.
pub open spec fn entry_at<T>(
    rd: spec_fn(T) -> real,
    subs: Seq<Matrix<T>>,
    f: int,
) -> spec_fn(int, int) -> real {
    |s: int, t: int| rd(subs[s].at(t, f))
}

/// The weighed deviations of `x` from `a`.
pub open spec fn off_centre(
    w: spec_fn(int, int) -> real,
    x: spec_fn(int, int) -> real,
    a: real,
) -> spec_fn(int, int) -> real {
    |s: int, t: int| w(s, t) * (x(s, t) - a)
}

/// The weighed products of the deviations of `x` from `a` and of `y` from `b`.
pub open spec fn scattered(
    w: spec_fn(int, int) -> real,
    x: spec_fn(int, int) -> real,
    a: real,
    y: spec_fn(int, int) -> real,
    b: real,
) -> spec_fn(int, int) -> real {
    |s: int, t: int| w(s, t) * ((x(s, t) - a) * (y(s, t) - b))
}

/// The products of two functions of the rows.
pub open spec fn product_of(
    w: spec_fn(int, int) -> real,
    x: spec_fn(int, int) -> real,
) -> spec_fn(int, int) -> real {
    |s: int, t: int| w(s, t) * x(s, t)
}

/// `stats` are the statistics before the first sequence and after each, gathered
/// from the sequences with the given posteriors.
pub open spec fn gathered<T: Dense, E: EmissionModel<T>>(
    e: &E,
    params: ParamSet,
    subs: Seq<Matrix<T>>,
    posts: Seq<Matrix<T>>,
    stats: Seq<E::Stats>,
) -> bool {
    &&& posts.len() == subs.len()
    &&& stats.len() == subs.len() + 1
    &&& e.zero_stats(&stats[0])
    &&& forall|s: int|
        0 <= s < subs.len() ==> #[trigger] e.accumulate_rel(
            &stats[s],
            &subs[s],
            &posts[s],
            params,
            &stats[s + 1],
        )
    &&& forall|s: int|
        0 <= s < subs.len() ==> (#[trigger] posts[s]).has_dims(
            subs[s].rows.len() as int,
            e.states(),
        )
}

/// An E-step gathers the statistics of its sequences, weighed by the posteriors that
/// it finds.
pub proof fn estep_gathers<T: Dense, E: EmissionModel<T>>(
    h: &Hmm<T, E>,
    x: &Matrix<T>,
    ranges: Seq<(usize, usize)>,
    start: Seq<T>,
    trans: &Matrix<T>,
    tr: EStep<T, E>,
)
    requires
        h.wf(),
        estep_upto(h, x, ranges, start, trans, tr, ranges.len() as int),
    ensures
        gathered(
            &h.emission,
            h.params,
            tr.subs,
            Seq::new(ranges.len(), |s: int| tr.fbs[s].posteriors),
            tr.stats,
        ),
{
    let posts = Seq::new(ranges.len(), |s: int| tr.fbs[s].posteriors);
    assert forall|s: int| 0 <= s < tr.subs.len() implies #[trigger] h.emission.accumulate_rel(
        &tr.stats[s],
        &tr.subs[s],
        &posts[s],
        h.params,
        &tr.stats[s + 1],
    ) by {
        assert(estep_at(h, x, ranges, start, trans, tr, s));
    }
    assert forall|s: int| 0 <= s < tr.subs.len() implies (#[trigger] posts[s]).has_dims(
        tr.subs[s].rows.len() as int,
        h.emission.states(),
    ) by {
        assert(estep_at(h, x, ranges, start, trans, tr, s));
    }
}

/// What grows by `g(s)` with every sequence from nothing is the sum of `g`.
proof fn grows_to(n: int, v: spec_fn(int) -> real, g: spec_fn(int) -> real)
    requires
        0 <= n,
        v(0) == 0real,
        forall|s: int| 0 <= s < n ==> v(s + 1) == v(s) + #[trigger] g(s),
    ensures
        v(n) == rsum(n, g),
    decreases n,
{
    if n > 0 {
        grows_to(n - 1, v, g);
        let s = n - 1;
        assert(v(s + 1) == v(s) + g(s));
    }
}

/// A weighed product of deviations, multiplied out.
pub(crate) proof fn scattered_product(p: real, q: real, r: real, a: real, b: real)
    ensures
        p * ((q - a) * (r - b)) == p * (q * r) - b * (p * q) - a * (p * r) + a * b * p,
{
    distributes(q - a, r, b);
    commutes(q - a, r);
    distributes(r, q, a);
    commutes(q - a, b);
    distributes(b, q, a);
    commutes(r, q);
    commutes(r, a);
    commutes(b, a);
    let (qr, ar, bq, ab) = (q * r, a * r, b * q, a * b);
    assert((q - a) * (r - b) == qr - ar - (bq - ab));
    distributes(p, qr - ar, bq - ab);
    distributes(p, qr, ar);
    distributes(p, bq, ab);
    commutes(p, ar);
    associates(a, r, p);
    commutes(r, p);
    commutes(p, bq);
    associates(b, q, p);
    commutes(q, p);
    commutes(p, ab);
}

proof fn centre_row(
    n: int,
    s: int,
    w: spec_fn(int, int) -> real,
    x: spec_fn(int, int) -> real,
    a: real,
    y: spec_fn(int, int) -> real,
    b: real,
)
    ensures
        rsum(n, |t: int| scattered(w, x, a, y, b)(s, t)) == rsum(
            n,
            |t: int| product_of(w, product_of(x, y))(s, t),
        ) - b * rsum(n, |t: int| product_of(w, x)(s, t)) - a * rsum(
            n,
            |t: int| product_of(w, y)(s, t),
        ) + a * b * rsum(n, |t: int| w(s, t)),
    decreases n,
{
    let f = |t: int| scattered(w, x, a, y, b)(s, t);
    let xy = |t: int| product_of(w, product_of(x, y))(s, t);
    let wx = |t: int| product_of(w, x)(s, t);
    let wy = |t: int| product_of(w, y)(s, t);
    let ww = |t: int| w(s, t);
    if n > 0 {
        centre_row(n - 1, s, w, x, a, y, b);
        let (p, q, r) = (w(s, n - 1), x(s, n - 1), y(s, n - 1));
        scattered_product(p, q, r, a, b);
        let (s1, s2, s3) = (rsum(n - 1, wx), rsum(n - 1, wy), rsum(n - 1, ww));
        distributes(b, s1, p * q);
        distributes(a, s2, p * r);
        distributes(a * b, s3, p);
        assert(rsum(n, f) == rsum(n - 1, f) + f(n - 1));
        assert(rsum(n, xy) == rsum(n - 1, xy) + xy(n - 1));
        assert(rsum(n, wx) == s1 + wx(n - 1));
        assert(rsum(n, wy) == s2 + wy(n - 1));
        assert(rsum(n, ww) == s3 + ww(n - 1));
    } else {
        annuls(b);
        annuls(a);
        annuls(a * b);
    }
}

proof fn centre_upto<T>(
    subs: Seq<Matrix<T>>,
    k: int,
    w: spec_fn(int, int) -> real,
    x: spec_fn(int, int) -> real,
    a: real,
    y: spec_fn(int, int) -> real,
    b: real,
)
    ensures
        ({
            let total = |f: spec_fn(int, int) -> real|
                rsum(k, |s: int| rsum(subs[s].rows.len() as int, |t: int| f(s, t)));
            total(scattered(w, x, a, y, b)) == total(product_of(w, product_of(x, y))) - b * total(
                product_of(w, x),
            ) - a * total(product_of(w, y)) + a * b * total(w)
        }),
    decreases k,
{
    let total = |f: spec_fn(int, int) -> real|
        rsum(k, |s: int| rsum(subs[s].rows.len() as int, |t: int| f(s, t)));
    let before = |f: spec_fn(int, int) -> real|
        rsum(k - 1, |s: int| rsum(subs[s].rows.len() as int, |t: int| f(s, t)));
    if k > 0 {
        centre_upto(subs, k - 1, w, x, a, y, b);
        let s = k - 1;
        let n = subs[s].rows.len() as int;
        centre_row(n, s, w, x, a, y, b);
        let (u1, u2, u3) = (
            before(product_of(w, x)),
            before(product_of(w, y)),
            before(w),
        );
        let (v1, v2, v3) = (
            rsum(n, |t: int| product_of(w, x)(s, t)),
            rsum(n, |t: int| product_of(w, y)(s, t)),
            rsum(n, |t: int| w(s, t)),
        );
        distributes(b, u1, v1);
        distributes(a, u2, v2);
        distributes(a * b, u3, v3);
        assert(total(product_of(w, x)) == u1 + v1);
        assert(total(product_of(w, y)) == u2 + v2);
        assert(total(w) == u3 + v3);
        assert(total(product_of(w, product_of(x, y))) == before(product_of(w, product_of(x, y)))
            + rsum(n, |t: int| product_of(w, product_of(x, y))(s, t)));
        assert(total(scattered(w, x, a, y, b)) == before(scattered(w, x, a, y, b)) + rsum(
            n,
            |t: int| scattered(w, x, a, y, b)(s, t),
        ));
    } else {
        annuls(b);
        annuls(a);
        annuls(a * b);
    }
}

/// The scatter about any two centres, by the sums of products, entries and weights.
pub proof fn scatter_by_moments<T>(
    subs: Seq<Matrix<T>>,
    w: spec_fn(int, int) -> real,
    x: spec_fn(int, int) -> real,
    a: real,
    y: spec_fn(int, int) -> real,
    b: real,
)
    ensures
        over_rows(subs, scattered(w, x, a, y, b)) == over_rows(subs, product_of(w, product_of(x, y)))
            - b * over_rows(subs, product_of(w, x)) - a * over_rows(subs, product_of(w, y)) + a * b
            * over_rows(subs, w),
{
    centre_upto(subs, subs.len() as int, w, x, a, y, b);
}

proof fn offset_row(
    n: int,
    s: int,
    w: spec_fn(int, int) -> real,
    x: spec_fn(int, int) -> real,
    a: real,
)
    ensures
        rsum(n, |t: int| off_centre(w, x, a)(s, t)) == rsum(n, |t: int| product_of(w, x)(s, t)) - a
            * rsum(n, |t: int| w(s, t)),
    decreases n,
{
    let f = |t: int| off_centre(w, x, a)(s, t);
    let wx = |t: int| product_of(w, x)(s, t);
    let ww = |t: int| w(s, t);
    if n > 0 {
        offset_row(n - 1, s, w, x, a);
        let (p, q, r) = (w(s, n - 1), x(s, n - 1), rsum(n - 1, ww));
        distributes(p, q, a);
        commutes(p, a);
        distributes(a, r, p);
        assert(rsum(n, f) == rsum(n - 1, f) + f(n - 1));
        assert(rsum(n, wx) == rsum(n - 1, wx) + wx(n - 1));
        assert(rsum(n, ww) == r + ww(n - 1));
    } else {
        annuls(a);
    }
}

proof fn offset_upto<T>(
    subs: Seq<Matrix<T>>,
    k: int,
    w: spec_fn(int, int) -> real,
    x: spec_fn(int, int) -> real,
    a: real,
)
    ensures
        ({
            let total = |f: spec_fn(int, int) -> real|
                rsum(k, |s: int| rsum(subs[s].rows.len() as int, |t: int| f(s, t)));
            total(off_centre(w, x, a)) == total(product_of(w, x)) - a * total(w)
        }),
    decreases k,
{
    let total = |f: spec_fn(int, int) -> real|
        rsum(k, |s: int| rsum(subs[s].rows.len() as int, |t: int| f(s, t)));
    let before = |f: spec_fn(int, int) -> real|
        rsum(k - 1, |s: int| rsum(subs[s].rows.len() as int, |t: int| f(s, t)));
    if k > 0 {
        offset_upto(subs, k - 1, w, x, a);
        let s = k - 1;
        let n = subs[s].rows.len() as int;
        offset_row(n, s, w, x, a);
        let (u, v) = (before(w), rsum(n, |t: int| w(s, t)));
        distributes(a, u, v);
        assert(total(w) == u + v);
        assert(total(product_of(w, x)) == before(product_of(w, x)) + rsum(
            n,
            |t: int| product_of(w, x)(s, t),
        ));
        assert(total(off_centre(w, x, a)) == before(off_centre(w, x, a)) + rsum(
            n,
            |t: int| off_centre(w, x, a)(s, t),
        ));
    } else {
        annuls(a);
    }
}

/// The deviations from a centre, by the sums of entries and weights.
pub proof fn deviation_by_moments<T>(
    subs: Seq<Matrix<T>>,
    w: spec_fn(int, int) -> real,
    x: spec_fn(int, int) -> real,
    a: real,
)
    ensures
        over_rows(subs, off_centre(w, x, a)) == over_rows(subs, product_of(w, x)) - a * over_rows(
            subs,
            w,
        ),
{
    offset_upto(subs, subs.len() as int, w, x, a);
}

/// Masses that grow by the posteriors read as the sum of the weights.
pub proof fn mass_reads<T: Scalar>(
    rd: spec_fn(T) -> real,
    subs: Seq<Matrix<T>>,
    posts: Seq<Matrix<T>>,
    post: spec_fn(int) -> Seq<T>,
    c: int,
)
    requires
        reads_real(rd),
        posts.len() == subs.len(),
        forall|s: int|
            0 <= s < subs.len() ==> (#[trigger] posts[s]).rows.len() == subs[s].rows.len(),
        forall|s: int| 0 <= s <= subs.len() ==> 0 <= c < (#[trigger] post(s)).len(),
        post(0)[c] == num::<T>(0),
        forall|s: int| #![trigger posts[s]]
            0 <= s < subs.len() ==> gains_mass(post(s), &posts[s], post(s + 1)),
    ensures
        rd(post(subs.len() as int)[c]) == over_rows(subs, weight_of(rd, posts, c)),
{
    let w = weight_of(rd, posts, c);
    let v = |s: int| rd(post(s)[c]);
    let g = |s: int| rsum(subs[s].rows.len() as int, |t: int| w(s, t));
    real_sums(rd);
    reveal(reads_real);
    assert(rd(num::<T>(0)) == 0real);
    assert forall|s: int| 0 <= s < subs.len() implies v(s + 1) == v(s) + #[trigger] g(s) by {
        assert(0 <= c < post(s).len());
        assert(gains_mass(post(s), &posts[s], post(s + 1)));
        assert(post(s + 1)[c] == post(s)[c].s_plus(col_total(&posts[s], c)));
        let f = |t: int| posts[s].at(t, c);
        real_sigma(rd, posts[s].rows.len() as int, f);
        assert(col_total(&posts[s], c) == sigma(posts[s].rows.len() as int, f));
        rsum_ext(subs[s].rows.len() as int, |t: int| rd(f(t)), |t: int| w(s, t));
    }
    grows_to(subs.len() as int, v, g);
}

/// Sums that grow by posteriors times entries read as the weighed sum.
pub proof fn sums_read<T: Scalar>(
    rd: spec_fn(T) -> real,
    subs: Seq<Matrix<T>>,
    posts: Seq<Matrix<T>>,
    obs: spec_fn(int) -> Matrix<T>,
    c: int,
    f: int,
)
    requires
        reads_real(rd),
        posts.len() == subs.len(),
        forall|s: int|
            0 <= s <= subs.len() ==> 0 <= c < (#[trigger] obs(s)).rows.len() && 0 <= f < obs(
                s,
            ).ncols,
        obs(0).at(c, f) == num::<T>(0),
        forall|s: int| #![trigger posts[s]]
            0 <= s < subs.len() ==> gains_products(&obs(s), &posts[s], &subs[s], &obs(s + 1)),
    ensures
        rd(obs(subs.len() as int).at(c, f)) == over_rows(
            subs,
            product_of(weight_of(rd, posts, c), entry_at(rd, subs, f)),
        ),
{
    let p = product_of(weight_of(rd, posts, c), entry_at(rd, subs, f));
    let v = |s: int| rd(obs(s).at(c, f));
    let g = |s: int| rsum(subs[s].rows.len() as int, |t: int| p(s, t));
    real_sums(rd);
    reveal(reads_real);
    assert(rd(num::<T>(0)) == 0real);
    assert forall|s: int| 0 <= s < subs.len() implies v(s + 1) == v(s) + #[trigger] g(s) by {
        assert(0 <= c < obs(s).rows.len());
        assert(gains_products(&obs(s), &posts[s], &subs[s], &obs(s + 1)));
        let h = |t: int| posts[s].at(t, c).s_times(subs[s].at(t, f));
        real_sigma(rd, subs[s].rows.len() as int, h);
        assert(obs(s + 1).at(c, f) == obs(s).at(c, f).s_plus(
            sigma(subs[s].rows.len() as int, h),
        ));
        rsum_ext(subs[s].rows.len() as int, |t: int| rd(h(t)), |t: int| p(s, t));
    }
    grows_to(subs.len() as int, v, g);
}

/// Squares that grow by posteriors times squared entries read as the weighed sum.
pub proof fn squares_read<T: Scalar>(
    rd: spec_fn(T) -> real,
    subs: Seq<Matrix<T>>,
    posts: Seq<Matrix<T>>,
    obs2: spec_fn(int) -> Matrix<T>,
    c: int,
    f: int,
)
    requires
        reads_real(rd),
        posts.len() == subs.len(),
        forall|s: int|
            0 <= s <= subs.len() ==> 0 <= c < (#[trigger] obs2(s)).rows.len() && 0 <= f < obs2(
                s,
            ).ncols,
        obs2(0).at(c, f) == num::<T>(0),
        forall|s: int| #![trigger posts[s]]
            0 <= s < subs.len() ==> gains_squares(&obs2(s), &posts[s], &subs[s], &obs2(s + 1)),
    ensures
        rd(obs2(subs.len() as int).at(c, f)) == over_rows(
            subs,
            product_of(
                weight_of(rd, posts, c),
                product_of(entry_at(rd, subs, f), entry_at(rd, subs, f)),
            ),
        ),
{
    let x = entry_at(rd, subs, f);
    let p = product_of(weight_of(rd, posts, c), product_of(x, x));
    let v = |s: int| rd(obs2(s).at(c, f));
    let g = |s: int| rsum(subs[s].rows.len() as int, |t: int| p(s, t));
    real_sums(rd);
    reveal(reads_real);
    assert(rd(num::<T>(0)) == 0real);
    assert forall|s: int| 0 <= s < subs.len() implies v(s + 1) == v(s) + #[trigger] g(s) by {
        assert(0 <= c < obs2(s).rows.len());
        assert(gains_squares(&obs2(s), &posts[s], &subs[s], &obs2(s + 1)));
        let h = |t: int|
            posts[s].at(t, c).s_times(subs[s].at(t, f).s_times(subs[s].at(t, f)));
        real_sigma(rd, subs[s].rows.len() as int, h);
        assert(obs2(s + 1).at(c, f) == obs2(s).at(c, f).s_plus(
            sigma(subs[s].rows.len() as int, h),
        ));
        rsum_ext(subs[s].rows.len() as int, |t: int| rd(h(t)), |t: int| p(s, t));
    }
    grows_to(subs.len() as int, v, g);
}

/// What the rows add to a product of features, read, rows of weight zero included.
proof fn outer_reads<T: Scalar>(
    rd: spec_fn(T) -> real,
    before: T,
    x: &Matrix<T>,
    post: &Matrix<T>,
    c: int,
    k: int,
    l: int,
    n: int,
    g: spec_fn(int) -> real,
)
    requires
        reads_real(rd),
        forall|t: int|
            #[trigger] g(t) == rd(post.at(t, c)) * (rd(x.at(t, k)) * rd(x.at(t, l))),
    ensures
        rd(outer_mass(before, x, post, c, k, l, n)) == rd(before) + rsum(n, g),
    decreases n,
{
    reveal(reads_real);
    if n > 0 {
        outer_reads(rd, before, x, post, c, k, l, n - 1, g);
        let (p, a, b) = (post.at(n - 1, c), x.at(n - 1, k), x.at(n - 1, l));
        let (rp, ra, rb) = (rd(p), rd(a), rd(b));
        assert(g(n - 1) == rp * (ra * rb));
        associates(rp, ra, rb);
        assert(rd(p.s_times(a).s_times(b)) == (rp * ra) * rb);
        if p.s_same(num(0)) {
            assert(rd(num::<T>(0)) == 0real);
            annuls(ra * rb);
        }
    }
}

/// Outer products that grow by the weighed products of the features read as their
/// sum.
pub proof fn outers_read<T: Scalar>(
    rd: spec_fn(T) -> real,
    subs: Seq<Matrix<T>>,
    posts: Seq<Matrix<T>>,
    outer: spec_fn(int) -> Cube<T>,
    c: int,
    k: int,
    l: int,
)
    requires
        reads_real(rd),
        posts.len() == subs.len(),
        forall|s: int|
            0 <= s <= subs.len() ==> 0 <= c < (#[trigger] outer(s)).items.len() && 0 <= k < outer(
                s,
            ).nrows && 0 <= l < outer(s).ncols,
        outer(0).at(c, k, l) == num::<T>(0),
        forall|s: int| #![trigger posts[s]]
            0 <= s < subs.len() ==> gains_outer(&outer(s), &posts[s], &subs[s], &outer(s + 1)),
    ensures
        rd(outer(subs.len() as int).at(c, k, l)) == over_rows(
            subs,
            product_of(
                weight_of(rd, posts, c),
                product_of(entry_at(rd, subs, k), entry_at(rd, subs, l)),
            ),
        ),
{
    let p = product_of(
        weight_of(rd, posts, c),
        product_of(entry_at(rd, subs, k), entry_at(rd, subs, l)),
    );
    let v = |s: int| rd(outer(s).at(c, k, l));
    let g = |s: int| rsum(subs[s].rows.len() as int, |t: int| p(s, t));
    assert(v(0) == 0real) by {
        reveal(reads_real);
        assert(rd(num::<T>(0)) == 0real);
    }
    assert forall|s: int| 0 <= s < subs.len() implies v(s + 1) == v(s) + #[trigger] g(s) by {
        assert(0 <= c < outer(s).items.len());
        assert(gains_outer(&outer(s), &posts[s], &subs[s], &outer(s + 1)));
        outer_reads(
            rd,
            outer(s).at(c, k, l),
            &subs[s],
            &posts[s],
            c,
            k,
            l,
            subs[s].rows.len() as int,
            |t: int| p(s, t),
        );
    }
    grows_to(subs.len() as int, v, g);
}

} // verus!
