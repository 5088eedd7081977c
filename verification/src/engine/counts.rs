//! The gain of frames whose log-likelihood is linear in counts, in reals.

use crate::engine::ascent::{emit_gain, frames_gain, Trellis};
use crate::engine::tables::{shares, shares_facts};
use crate::reals::{
    rsum, rsum_add, rsum_ext, rsum_member, rsum_positive, rsum_scale, rsum_swap,
    rsum_zero,
};
use vstd::prelude::*;

verus! {

/// The expected total of count `f` in state `j`, where `x(t, f)` are the counts of
/// the frames.
pub open spec fn weighed(c: Trellis, x: spec_fn(int, int) -> real, j: int, f: int) -> real {
    rsum(c.n, |t: int| shares(c, j)(t) * x(t, f))
}

/// The expected number of frames in state `j`.
pub open spec fn visits(c: Trellis, j: int) -> real {
    rsum(c.n, shares(c, j))
}

/// The expected total of count `f` in state `j` over all sequences.
pub open spec fn all_weighed(
    count: int,
    chains: spec_fn(int) -> Trellis,
    x: spec_fn(int) -> spec_fn(int, int) -> real,
    j: int,
    f: int,
) -> real {
    rsum(count, |s: int| weighed(chains(s), x(s), j, f))
}

/// The expected number of frames in state `j` over all sequences.
pub open spec fn all_visits(count: int, chains: spec_fn(int) -> Trellis, j: int) -> real {
    rsum(count, |s: int| visits(chains(s), j))
}

/// Wherever mass goes, the log-likelihoods of the new frames differ from those of
/// the old by `g` for each of the counts, less `r`.
pub open spec fn linear_in_counts(
    ln: spec_fn(real) -> real,
    old: Trellis,
    new: Trellis,
    x: spec_fn(int, int) -> real,
    m: int,
    g: spec_fn(int, int) -> real,
    r: spec_fn(int, int) -> real,
) -> bool {
    forall|t: int, j: int|
        0 <= t < old.n && 0 <= j < old.nc && 0real < #[trigger] old.at(t, j) ==> ln(
            (new.emit)(t, j),
        ) - ln((old.emit)(t, j)) == rsum(m, |f: int| x(t, f) * g(j, f) - r(j, f))
}

/// The gain of the frames of a sequence, summed state by state.
proof fn gain_by_state(ln: spec_fn(real) -> real, old: Trellis, new: Trellis)
    requires
        0real < old.mass(),
    ensures
        frames_gain(ln, old, new) == rsum(
            old.nc,
            |j: int|
                rsum(
                    old.n,
                    |t: int|
                        shares(old, j)(t) * (ln((new.emit)(t, j)) - ln((old.emit)(t, j))),
                ),
        ),
{
    let mass = old.mass();
    let inv = 1real / mass;
    let gains = |t: int| emit_gain(ln, old, new, t);
    let term = |t: int, j: int|
        shares(old, j)(t) * (ln((new.emit)(t, j)) - ln((old.emit)(t, j)));
    let whole = rsum(old.n, gains);
    assert(whole / mass == whole * inv) by (nonlinear_arith)
        requires
            inv == 1real / mass,
            0real < mass,
    ;
    rsum_scale(old.n, gains, inv);
    let scaled = |t: int| gains(t) * inv;
    let rows = |t: int| rsum(old.nc, |j: int| term(t, j));
    assert forall|t: int| 0 <= t < old.n implies #[trigger] scaled(t) == rows(t) by {
        let raw = |j: int| old.at(t, j) * (ln((new.emit)(t, j)) - ln((old.emit)(t, j)));
        rsum_scale(old.nc, raw, inv);
        let parts = |j: int| raw(j) * inv;
        let terms = |j: int| term(t, j);
        assert forall|j: int| 0 <= j < old.nc implies #[trigger] parts(j) == terms(j) by {
            let a = old.at(t, j);
            let d = ln((new.emit)(t, j)) - ln((old.emit)(t, j));
            assert(a * d * inv == (a / mass) * d) by (nonlinear_arith)
                requires
                    inv == 1real / mass,
                    0real < mass,
            ;
        }
        rsum_ext(old.nc, parts, terms);
    }
    rsum_ext(old.n, scaled, rows);
    rsum_swap(old.n, old.nc, term);
    let columns = |j: int| rsum(old.n, |t: int| term(t, j));
    let wanted = |j: int|
        rsum(
            old.n,
            |t: int| shares(old, j)(t) * (ln((new.emit)(t, j)) - ln((old.emit)(t, j))),
        );
    assert forall|j: int| 0 <= j < old.nc implies #[trigger] columns(j) == wanted(j) by {
        rsum_ext(
            old.n,
            |t: int| term(t, j),
            |t: int| shares(old, j)(t) * (ln((new.emit)(t, j)) - ln((old.emit)(t, j))),
        );
    }
    rsum_ext(old.nc, columns, wanted);
}

/// `a (x g - r)` added to `w g - v r`.
proof fn grown_product(w: real, v: real, a: real, x: real, g: real, r: real)
    ensures
        (w + a * x) * g - (v + a) * r == (w * g - v * r) + (x * g - r) * a,
{
    assert((w + a * x) * g == w * g + (a * x) * g) by (nonlinear_arith);
    assert((v + a) * r == v * r + a * r) by (nonlinear_arith);
    assert((x * g - r) * a == (x * g) * a - r * a) by (nonlinear_arith);
    assert((a * x) * g == (x * g) * a) by (nonlinear_arith);
    assert(a * r == r * a) by (nonlinear_arith);
}

/// Weighed log-ratios that are linear in counts, summed count by count.
proof fn ratios_by_count(
    k: int,
    m: int,
    w: spec_fn(int) -> real,
    d: spec_fn(int) -> real,
    x: spec_fn(int, int) -> real,
    g: spec_fn(int) -> real,
    r: spec_fn(int) -> real,
)
    requires
        forall|t: int|
            0 <= t < k ==> w(t) * (#[trigger] d(t)) == rsum(m, |f: int| x(t, f) * g(f) - r(f))
                * w(t),
    ensures
        rsum(k, |t: int| w(t) * d(t)) == rsum(
            m,
            |f: int| rsum(k, |t: int| w(t) * x(t, f)) * g(f) - rsum(k, w) * r(f),
        ),
    decreases k,
{
    let wd = |t: int| w(t) * d(t);
    let here = |f: int| rsum(k, |t: int| w(t) * x(t, f)) * g(f) - rsum(k, w) * r(f);
    if k > 0 {
        ratios_by_count(k - 1, m, w, d, x, g, r);
        let a = w(k - 1);
        let before = |f: int|
            rsum(k - 1, |t: int| w(t) * x(t, f)) * g(f) - rsum(k - 1, w) * r(f);
        let h = |f: int| x(k - 1, f) * g(f) - r(f);
        let last = |f: int| h(f) * a;
        rsum_scale(m, h, a);
        rsum_add(m, before, last);
        let both = |f: int| before(f) + last(f);
        assert forall|f: int| 0 <= f < m implies #[trigger] here(f) == both(f) by {
            let wx = |t: int| w(t) * x(t, f);
            assert(rsum(k, wx) == rsum(k - 1, wx) + wx(k - 1));
            assert(rsum(k, w) == rsum(k - 1, w) + w(k - 1));
            grown_product(rsum(k - 1, wx), rsum(k - 1, w), a, x(k - 1, f), g(f), r(f));
        }
        rsum_ext(m, here, both);
        assert(rsum(k, wd) == rsum(k - 1, wd) + wd(k - 1));
        assert(w(k - 1) * d(k - 1) == rsum(m, |f: int| x(k - 1, f) * g(f) - r(f)) * w(k - 1));
    } else {
        assert forall|f: int| 0 <= f < m implies #[trigger] here(f) == 0real by {
            let (gg, rr) = (g(f), r(f));
            assert(0real * gg == 0real) by (nonlinear_arith);
            assert(0real * rr == 0real) by (nonlinear_arith);
        }
        rsum_zero(m, here);
    }
}

/// What one state gains in a sequence, count by count.
proof fn state_by_count(
    ln: spec_fn(real) -> real,
    old: Trellis,
    new: Trellis,
    x: spec_fn(int, int) -> real,
    m: int,
    g: spec_fn(int, int) -> real,
    r: spec_fn(int, int) -> real,
    j: int,
)
    requires
        old.wf(),
        0real < old.mass(),
        linear_in_counts(ln, old, new, x, m, g, r),
        0 <= j < old.nc,
    ensures
        rsum(
            old.n,
            |t: int| shares(old, j)(t) * (ln((new.emit)(t, j)) - ln((old.emit)(t, j))),
        ) == rsum(m, |f: int| weighed(old, x, j, f) * g(j, f) - visits(old, j) * r(j, f)),
{
    let w = shares(old, j);
    let d = |t: int| ln((new.emit)(t, j)) - ln((old.emit)(t, j));
    let (gj, rj) = (|f: int| g(j, f), |f: int| r(j, f));
    assert forall|t: int| 0 <= t < old.n implies w(t) * (#[trigger] d(t)) == rsum(
        m,
        |f: int| x(t, f) * gj(f) - rj(f),
    ) * w(t) by {
        shares_facts(old, t, j);
        let h = |f: int| x(t, f) * gj(f) - rj(f);
        let sum = rsum(m, h);
        let (a, b) = (w(t), d(t));
        if 0real < old.at(t, j) {
            rsum_ext(m, h, |f: int| x(t, f) * g(j, f) - r(j, f));
            assert(b == sum);
            assert(a * sum == sum * a) by (nonlinear_arith);
        } else {
            assert(a == 0real);
            assert(0real * b == 0real) by (nonlinear_arith);
            assert(sum * 0real == 0real) by (nonlinear_arith);
        }
    }
    ratios_by_count(old.n, m, w, d, x, gj, rj);
    rsum_ext(
        old.n,
        |t: int| w(t) * d(t),
        |t: int| shares(old, j)(t) * (ln((new.emit)(t, j)) - ln((old.emit)(t, j))),
    );
    let mine = |f: int| rsum(old.n, |t: int| w(t) * x(t, f)) * gj(f) - rsum(old.n, w) * rj(f);
    let wanted = |f: int| weighed(old, x, j, f) * g(j, f) - visits(old, j) * r(j, f);
    assert forall|f: int| 0 <= f < m implies #[trigger] mine(f) == wanted(f) by {
        rsum_ext(
            old.n,
            |t: int| w(t) * x(t, f),
            |t: int| shares(old, j)(t) * x(t, f),
        );
    }
    rsum_ext(m, mine, wanted);
}

/// The gain of the frames of a sequence, summed state by state and count by count.
proof fn gain_by_count(
    ln: spec_fn(real) -> real,
    old: Trellis,
    new: Trellis,
    x: spec_fn(int, int) -> real,
    m: int,
    g: spec_fn(int, int) -> real,
    r: spec_fn(int, int) -> real,
)
    requires
        old.wf(),
        0real < old.mass(),
        linear_in_counts(ln, old, new, x, m, g, r),
    ensures
        frames_gain(ln, old, new) == rsum(
            old.nc,
            |j: int|
                rsum(m, |f: int| weighed(old, x, j, f) * g(j, f) - visits(old, j) * r(j, f)),
        ),
{
    gain_by_state(ln, old, new);
    let by_frame = |j: int|
        rsum(
            old.n,
            |t: int| shares(old, j)(t) * (ln((new.emit)(t, j)) - ln((old.emit)(t, j))),
        );
    let by_count = |j: int|
        rsum(m, |f: int| weighed(old, x, j, f) * g(j, f) - visits(old, j) * r(j, f));
    assert forall|j: int| 0 <= j < old.nc implies #[trigger] by_frame(j) == by_count(j) by {
        state_by_count(ln, old, new, x, m, g, r, j);
    }
    rsum_ext(old.nc, by_frame, by_count);
}

/// What state `j` gains over all sequences.
pub open spec fn state_gain(
    count: int,
    old: spec_fn(int) -> Trellis,
    x: spec_fn(int) -> spec_fn(int, int) -> real,
    m: int,
    g: spec_fn(int, int) -> real,
    r: spec_fn(int, int) -> real,
    j: int,
) -> real {
    rsum(
        m,
        |f: int| all_weighed(count, old, x, j, f) * g(j, f) - all_visits(count, old, j) * r(j, f),
    )
}

/// What a state gains grows by what it gains in the last sequence.
proof fn state_gain_grows(
    count: int,
    old: spec_fn(int) -> Trellis,
    x: spec_fn(int) -> spec_fn(int, int) -> real,
    m: int,
    g: spec_fn(int, int) -> real,
    r: spec_fn(int, int) -> real,
    j: int,
)
    requires
        count > 0,
    ensures
        state_gain(count, old, x, m, g, r, j) == state_gain(count - 1, old, x, m, g, r, j) + rsum(
            m,
            |f: int|
                weighed(old(count - 1), x(count - 1), j, f) * g(j, f) - visits(old(count - 1), j)
                    * r(j, f),
        ),
{
    let s = count - 1;
    let a = |f: int|
        all_weighed(count - 1, old, x, j, f) * g(j, f) - all_visits(count - 1, old, j) * r(j, f);
    let b = |f: int|
        weighed(old(count - 1), x(count - 1), j, f) * g(j, f) - visits(old(count - 1), j) * r(j, f);
    let c = |f: int|
        all_weighed(count, old, x, j, f) * g(j, f) - all_visits(count, old, j) * r(j, f);
    rsum_add(m, a, b);
    let both = |f: int| a(f) + b(f);
    assert forall|f: int| 0 <= f < m implies #[trigger] c(f) == both(f) by {
        let part = |s: int| weighed(old(s), x(s), j, f);
        let stay = |s: int| visits(old(s), j);
        assert(rsum(count, part) == rsum(count - 1, part) + part(s));
        assert(rsum(count, stay) == rsum(count - 1, stay) + stay(s));
        let (w0, w1, v0, v1) = (rsum(count - 1, part), part(s), rsum(count - 1, stay), stay(s));
        let (gg, rr) = (g(j, f), r(j, f));
        assert((w0 + w1) * gg == w0 * gg + w1 * gg) by (nonlinear_arith);
        assert((v0 + v1) * rr == v0 * rr + v1 * rr) by (nonlinear_arith);
    }
    rsum_ext(m, c, both);
}

/// The gain of all sequences, summed state by state.
proof fn all_gains_by_state(
    ln: spec_fn(real) -> real,
    count: int,
    old: spec_fn(int) -> Trellis,
    new: spec_fn(int) -> Trellis,
    nc: int,
    x: spec_fn(int) -> spec_fn(int, int) -> real,
    m: int,
    g: spec_fn(int, int) -> real,
    r: spec_fn(int, int) -> real,
)
    requires
        forall|s: int|
            0 <= s < count ==> (#[trigger] old(s)).nc == nc && old(s).wf() && 0real < old(s).mass()
                && linear_in_counts(ln, old(s), new(s), x(s), m, g, r),
    ensures
        rsum(count, |s: int| frames_gain(ln, old(s), new(s))) == rsum(
            nc,
            |j: int| state_gain(count, old, x, m, g, r, j),
        ),
    decreases count,
{
    let gain = |s: int| frames_gain(ln, old(s), new(s));
    let row = |j: int| state_gain(count, old, x, m, g, r, j);
    if count > 0 {
        let s = count - 1;
        assert(old(s).nc == nc);
        all_gains_by_state(ln, count - 1, old, new, nc, x, m, g, r);
        gain_by_count(ln, old(s), new(s), x(s), m, g, r);
        let last = |j: int|
            rsum(
                m,
                |f: int| weighed(old(s), x(s), j, f) * g(j, f) - visits(old(s), j) * r(j, f),
            );
        let before = |j: int| state_gain(count - 1, old, x, m, g, r, j);
        rsum_add(nc, before, last);
        assert forall|j: int| 0 <= j < nc implies #[trigger] row(j) == (|j: int|
            before(j) + last(j))(j) by {
            state_gain_grows(count, old, x, m, g, r, j);
        }
        rsum_ext(nc, row, |j: int| before(j) + last(j));
        assert(rsum(count, gain) == rsum(count - 1, gain) + gain(s));
    } else {
        assert forall|j: int| 0 <= j < nc implies #[trigger] row(j) == 0real by {
            let c = |f: int|
                all_weighed(count, old, x, j, f) * g(j, f) - all_visits(count, old, j) * r(j, f);
            assert forall|f: int| 0 <= f < m implies #[trigger] c(f) == 0real by {
                assert(all_weighed(count, old, x, j, f) == 0real);
                assert(all_visits(count, old, j) == 0real);
                let (gg, rr) = (g(j, f), r(j, f));
                assert(0real * gg == 0real) by (nonlinear_arith);
                assert(0real * rr == 0real) by (nonlinear_arith);
            }
            rsum_zero(m, c);
        }
        rsum_zero(nc, row);
    }
}

/// Frames that are linear in counts gain where every state does.
pub proof fn counts_gain(
    ln: spec_fn(real) -> real,
    count: int,
    old: spec_fn(int) -> Trellis,
    new: spec_fn(int) -> Trellis,
    nc: int,
    x: spec_fn(int) -> spec_fn(int, int) -> real,
    m: int,
    g: spec_fn(int, int) -> real,
    r: spec_fn(int, int) -> real,
)
    requires
        forall|s: int|
            0 <= s < count ==> (#[trigger] old(s)).nc == nc && old(s).wf() && 0real < old(s).mass()
                && linear_in_counts(ln, old(s), new(s), x(s), m, g, r),
        forall|j: int| 0 <= j < nc ==> 0real <= #[trigger] state_gain(count, old, x, m, g, r, j),
    ensures
        0real <= rsum(count, |s: int| frames_gain(ln, old(s), new(s))),
{
    all_gains_by_state(ln, count, old, new, nc, x, m, g, r);
    let row = |j: int| state_gain(count, old, x, m, g, r, j);
    assert forall|j: int| 0 <= j < nc implies 0real <= #[trigger] row(j) by {
        assert(0real <= state_gain(count, old, x, m, g, r, j));
    }
    if nc > 0 {
        rsum_member(nc, row, 0);
    }
}

/// Expected totals are not negative, and are positive where some mass goes through a
/// frame with a positive count.
pub proof fn weighed_facts(
    count: int,
    old: spec_fn(int) -> Trellis,
    nc: int,
    x: spec_fn(int) -> spec_fn(int, int) -> real,
    j: int,
    f: int,
)
    requires
        forall|s: int|
            0 <= s < count ==> (#[trigger] old(s)).nc == nc && old(s).wf() && 0real < old(s).mass(),
        forall|s: int, t: int|
            0 <= s < count && 0 <= t < old(s).n ==> 0real <= #[trigger] x(s)(t, f),
        0 <= j < nc,
    ensures
        0real <= all_weighed(count, old, x, j, f),
        0real <= all_visits(count, old, j),
        forall|s: int, t: int|
            0 <= s < count && 0 <= t < old(s).n && 0real < #[trigger] old(s).at(t, j) ==> 0real
                < all_visits(count, old, j) && (0real < x(s)(t, f) ==> 0real < all_weighed(
                count,
                old,
                x,
                j,
                f,
            )),
{
    let part = |s: int| weighed(old(s), x(s), j, f);
    let stay = |s: int| visits(old(s), j);
    assert forall|s: int| 0 <= s < count implies 0real <= #[trigger] part(s) && 0real <= stay(s) by {
        assert(old(s).nc == nc);
        sequence_facts(old(s), x(s), j, f);
    }
    assert forall|s: int| 0 <= s < count implies 0real <= #[trigger] stay(s) by {
        assert(0real <= part(s));
    }
    if count > 0 {
        rsum_member(count, part, 0);
        rsum_member(count, stay, 0);
    }
    assert forall|s: int, t: int|
        0 <= s < count && 0 <= t < old(s).n && 0real < #[trigger] old(s).at(t, j) implies 0real
        < all_visits(count, old, j) && (0real < x(s)(t, f) ==> 0real < all_weighed(
        count,
        old,
        x,
        j,
        f,
    )) by {
        assert(old(s).nc == nc);
        sequence_facts(old(s), x(s), j, f);
        rsum_member(count, part, s);
        rsum_member(count, stay, s);
    }
}

proof fn sequence_facts(c: Trellis, x: spec_fn(int, int) -> real, j: int, f: int)
    requires
        c.wf(),
        0real < c.mass(),
        forall|t: int| 0 <= t < c.n ==> 0real <= #[trigger] x(t, f),
        0 <= j < c.nc,
    ensures
        0real <= weighed(c, x, j, f),
        0real <= visits(c, j),
        forall|t: int|
            0 <= t < c.n && 0real < #[trigger] c.at(t, j) ==> 0real < visits(c, j) && (0real < x(
                t,
                f,
            ) ==> 0real < weighed(c, x, j, f)),
{
    let w = shares(c, j);
    let term = |t: int| shares(c, j)(t) * x(t, f);
    assert forall|t: int| 0 <= t < c.n implies 0real <= #[trigger] w(t) by {
        shares_facts(c, t, j);
    }
    assert forall|t: int| 0 <= t < c.n implies 0real <= #[trigger] term(t) by {
        shares_facts(c, t, j);
        let (a, b) = (w(t), x(t, f));
        assert(0real <= a * b) by (nonlinear_arith)
            requires
                0real <= a,
                0real <= b,
        ;
    }
    rsum_member(c.n, w, 0);
    rsum_member(c.n, term, 0);
    assert forall|t: int| 0 <= t < c.n && 0real < #[trigger] c.at(t, j) implies 0real < visits(
        c,
        j,
    ) && (0real < x(t, f) ==> 0real < weighed(c, x, j, f)) by {
        shares_facts(c, t, j);
        rsum_member(c.n, w, t);
        rsum_member(c.n, term, t);
        let (a, b) = (w(t), x(t, f));
        if 0real < b {
            assert(0real < a * b) by (nonlinear_arith)
                requires
                    0real < a,
                    0real < b,
            ;
        }
    }
}

/// Where there is an expected total there is a frame with mass and a positive count.
pub proof fn weighed_somewhere(
    count: int,
    old: spec_fn(int) -> Trellis,
    nc: int,
    x: spec_fn(int) -> spec_fn(int, int) -> real,
    j: int,
    f: int,
) -> (r: (int, int))
    requires
        forall|s: int|
            0 <= s < count ==> (#[trigger] old(s)).nc == nc && old(s).wf() && 0real < old(s).mass(),
        forall|s: int, t: int|
            0 <= s < count && 0 <= t < old(s).n ==> 0real <= #[trigger] x(s)(t, f),
        0 <= j < nc,
        0real < all_weighed(count, old, x, j, f),
    ensures
        0 <= r.0 < count,
        0 <= r.1 < old(r.0).n,
        0real < old(r.0).at(r.1, j),
        0real < x(r.0)(r.1, f),
{
    let s = rsum_positive(count, |s: int| weighed(old(s), x(s), j, f));
    assert(old(s).nc == nc);
    let c = old(s);
    let t = rsum_positive(c.n, |t: int| shares(c, j)(t) * x(s)(t, f));
    shares_facts(c, t, j);
    let (a, b) = (shares(c, j)(t), x(s)(t, f));
    assert(0real <= x(s)(t, f));
    assert(0real * b == 0real) by (nonlinear_arith);
    assert(a * 0real == 0real) by (nonlinear_arith);
    (s, t)
}

} // verus!
