//! The gain of frames that are read off a table by a label, in reals.

use crate::engine::ascent::{
    alpha_not_negative, beta_not_negative, emit_gain, frames_gain, kept_or_counted,
    kept_or_counted_gains, product_not_negative, quotient_sign, Trellis,
};
use crate::reals::{
    is_ln, rcount, rcount_member, rcount_positive, rsum, rsum_by_label, rsum_ext, rsum_member,
    rsum_positive, rsum_scale, rsum_swap,
};
use vstd::prelude::*;

verus! {

/// The part of the mass that goes through state `j` at each frame.
pub open spec fn shares(c: Trellis, j: int) -> spec_fn(int) -> real {
    |t: int| c.at(t, j) / c.mass()
}

/// The expected number of times that state `j` emits label `v`.
pub open spec fn emits(c: Trellis, label: spec_fn(int) -> int, j: int, v: int) -> real {
    rcount(c.n, label, shares(c, j), v)
}

/// The expected number of times that state `j` emits label `v` in all sequences.
pub open spec fn all_emits(
    count: int,
    chains: spec_fn(int) -> Trellis,
    label: spec_fn(int) -> spec_fn(int) -> int,
    j: int,
    v: int,
) -> real {
    rsum(count, |s: int| emits(chains(s), label(s), j, v))
}

/// The frames of `c` hold the entries of `table` for their labels, which are of the
/// first `m`.
pub open spec fn tabled(
    c: Trellis,
    label: spec_fn(int) -> int,
    m: int,
    table: spec_fn(int, int) -> real,
) -> bool {
    &&& forall|t: int| 0 <= t < c.n ==> 0 <= #[trigger] label(t) < m
    &&& forall|t: int, j: int|
        0 <= t < c.n && 0 <= j < c.nc ==> #[trigger] (c.emit)(t, j) == table(j, label(t))
}

/// Row `j` of the new table is the old one, or its expected counts divided by their
/// sum.
pub open spec fn table_kept_or_counted(
    count: int,
    old: spec_fn(int) -> Trellis,
    label: spec_fn(int) -> spec_fn(int) -> int,
    m: int,
    table: spec_fn(int, int) -> real,
    new_table: spec_fn(int, int) -> real,
    j: int,
) -> bool {
    kept_or_counted(
        m,
        |v: int| table(j, v),
        |v: int| all_emits(count, old, label, j, v),
        |v: int| new_table(j, v),
    )
}

/// Weights with factors that do not depend on the sequence can be summed over the
/// sequences first.
proof fn exchanged(
    count: int,
    n: int,
    m: int,
    f: spec_fn(int, int, int) -> real,
    g: spec_fn(int, int) -> real,
)
    ensures
        rsum(count, |s: int| rsum(n, |j: int| rsum(m, |v: int| f(s, j, v) * g(j, v)))) == rsum(
            n,
            |j: int| rsum(m, |v: int| rsum(count, |s: int| f(s, j, v)) * g(j, v)),
        ),
{
    let row = |s: int, j: int| rsum(m, |v: int| f(s, j, v) * g(j, v));
    rsum_swap(count, n, row);
    let whole = |s: int| rsum(n, |j: int| rsum(m, |v: int| f(s, j, v) * g(j, v)));
    assert forall|s: int| 0 <= s < count implies #[trigger] whole(s) == (|s: int|
        rsum(n, |j: int| row(s, j)))(s) by {
        rsum_ext(n, |j: int| rsum(m, |v: int| f(s, j, v) * g(j, v)), |j: int| row(s, j));
    }
    rsum_ext(count, whole, |s: int| rsum(n, |j: int| row(s, j)));
    let by_state = |j: int| rsum(count, |s: int| row(s, j));
    let counted = |j: int| rsum(m, |v: int| rsum(count, |s: int| f(s, j, v)) * g(j, v));
    assert forall|j: int| 0 <= j < n implies #[trigger] counted(j) == by_state(j) by {
        let cell = |s: int, v: int| f(s, j, v) * g(j, v);
        rsum_swap(count, m, cell);
        let rows = |s: int| row(s, j);
        assert forall|s: int| 0 <= s < count implies #[trigger] rows(s) == (|s: int|
            rsum(m, |v: int| cell(s, v)))(s) by {
            rsum_ext(m, |v: int| f(s, j, v) * g(j, v), |v: int| cell(s, v));
        }
        rsum_ext(count, rows, |s: int| rsum(m, |v: int| cell(s, v)));
        let part = |v: int| rsum(count, |s: int| f(s, j, v)) * g(j, v);
        assert forall|v: int| 0 <= v < m implies #[trigger] part(v) == (|v: int|
            rsum(count, |s: int| cell(s, v)))(v) by {
            let k = g(j, v);
            rsum_scale(count, |s: int| f(s, j, v), k);
            rsum_ext(count, |s: int| cell(s, v), |s: int| (|s: int| f(s, j, v))(s) * k);
        }
        rsum_ext(m, part, |v: int| rsum(count, |s: int| cell(s, v)));
    }
    rsum_ext(n, counted, by_state);
}

/// The gain of the frames of a sequence, summed state by state and label by label.
proof fn gain_by_label(
    ln: spec_fn(real) -> real,
    old: Trellis,
    new: Trellis,
    label: spec_fn(int) -> int,
    m: int,
    table: spec_fn(int, int) -> real,
    new_table: spec_fn(int, int) -> real,
)
    requires
        0real < old.mass(),
        new.n == old.n,
        new.nc == old.nc,
        tabled(old, label, m, table),
        tabled(new, label, m, new_table),
    ensures
        frames_gain(ln, old, new) == rsum(
            old.nc,
            |j: int|
                rsum(
                    m,
                    |v: int| emits(old, label, j, v) * (ln(new_table(j, v)) - ln(table(j, v))),
                ),
        ),
{
    let mass = old.mass();
    let inv = 1real / mass;
    let gains = |t: int| emit_gain(ln, old, new, t);
    let term = |t: int, j: int|
        shares(old, j)(t) * (ln(new_table(j, label(t))) - ln(table(j, label(t))));
    let x = rsum(old.n, gains);
    assert(x / mass == x * inv) by (nonlinear_arith)
        requires
            inv == 1real / mass,
            0real < mass,
    ;
    rsum_scale(old.n, gains, inv);
    let scaled = |t: int| gains(t) * inv;
    assert forall|t: int| 0 <= t < old.n implies #[trigger] scaled(t) == (|t: int|
        rsum(old.nc, |j: int| term(t, j)))(t) by {
        let weighed = |j: int| old.at(t, j) * (ln((new.emit)(t, j)) - ln((old.emit)(t, j)));
        rsum_scale(old.nc, weighed, inv);
        let parts = |j: int| weighed(j) * inv;
        assert forall|j: int| 0 <= j < old.nc implies #[trigger] parts(j) == (|j: int|
            term(t, j))(j) by {
            assert((old.emit)(t, j) == table(j, label(t)));
            assert((new.emit)(t, j) == new_table(j, label(t)));
            let a = old.at(t, j);
            let g = ln(new_table(j, label(t))) - ln(table(j, label(t)));
            assert(a * g * inv == (a / mass) * g) by (nonlinear_arith)
                requires
                    inv == 1real / mass,
                    0real < mass,
            ;
        }
        rsum_ext(old.nc, parts, |j: int| term(t, j));
    }
    rsum_ext(old.n, scaled, |t: int| rsum(old.nc, |j: int| term(t, j)));
    rsum_swap(old.n, old.nc, term);
    let by_label = |j: int|
        rsum(m, |v: int| emits(old, label, j, v) * (ln(new_table(j, v)) - ln(table(j, v))));
    assert forall|j: int| 0 <= j < old.nc implies #[trigger] by_label(j) == (|j: int|
        rsum(old.n, |t: int| term(t, j)))(j) by {
        let g = |v: int| ln(new_table(j, v)) - ln(table(j, v));
        let w = shares(old, j);
        rsum_by_label(old.n, m, label, w, g);
        rsum_ext(old.n, |t: int| term(t, j), |t: int| w(t) * g(label(t)));
        rsum_ext(
            m,
            |v: int| emits(old, label, j, v) * (ln(new_table(j, v)) - ln(table(j, v))),
            |v: int| rcount(old.n, label, w, v) * g(v),
        );
    }
    rsum_ext(old.nc, by_label, |j: int| rsum(old.n, |t: int| term(t, j)));
}

/// What goes through a state at a frame needs the state's entry for the label.
pub(crate) proof fn shares_facts(c: Trellis, t: int, j: int)
    requires
        c.wf(),
        0real < c.mass(),
        0 <= t < c.n,
        0 <= j < c.nc,
    ensures
        0real <= shares(c, j)(t),
        0real < shares(c, j)(t) <==> 0real < c.at(t, j),
        0real < c.at(t, j) ==> 0real < (c.emit)(t, j),
{
    alpha_not_negative(c, t, j);
    beta_not_negative(c, t, j);
    product_not_negative(c.alpha(t)(j), c.beta(t)(j));
    quotient_sign(c.at(t, j), c.mass());
    let e = (c.emit)(t, j);
    assert(0real <= (c.emit)(t, j));
    if e == 0real {
        let prev = c.alpha(t - 1);
        let a = if t > 0 {
            rsum(c.nc, |i: int| prev(i) * (c.trans)(i, j))
        } else {
            (c.start)(j)
        };
        assert(a * 0real == 0real) by (nonlinear_arith);
        assert(c.alpha(t)(j) == a * e);
    }
}

/// Labels are expected only where their entries are positive.
pub proof fn expected_labels_are_possible(
    count: int,
    old: spec_fn(int) -> Trellis,
    nc: int,
    label: spec_fn(int) -> spec_fn(int) -> int,
    m: int,
    table: spec_fn(int, int) -> real,
    j: int,
    v: int,
)
    requires
        forall|s: int|
            0 <= s < count ==> (#[trigger] old(s)).nc == nc && old(s).wf() && 0real < old(s).mass()
                && tabled(old(s), label(s), m, table),
        0 <= j < nc,
        0real < all_emits(count, old, label, j, v),
    ensures
        0real < table(j, v),
{
    let s = rsum_positive(count, |s: int| emits(old(s), label(s), j, v));
    assert(old(s).nc == nc);
    emits_facts(old(s), label(s), m, table, j, v);
}

/// Expected emissions are not negative; there are some of a label where some of the
/// mass goes through a frame with it, and only where its entry is positive.
proof fn emits_facts(
    c: Trellis,
    label: spec_fn(int) -> int,
    m: int,
    table: spec_fn(int, int) -> real,
    j: int,
    v: int,
)
    requires
        c.wf(),
        0real < c.mass(),
        tabled(c, label, m, table),
        0 <= j < c.nc,
    ensures
        0real <= emits(c, label, j, v),
        0real < emits(c, label, j, v) ==> 0real < table(j, v),
        forall|t: int|
            0 <= t < c.n && #[trigger] label(t) == v && 0real < c.at(t, j) ==> 0real < emits(
                c,
                label,
                j,
                v,
            ),
{
    let w = shares(c, j);
    assert forall|t: int| 0 <= t < c.n implies 0real <= #[trigger] w(t) by {
        shares_facts(c, t, j);
    }
    rcount_member(c.n, label, w, v);
    if 0real < emits(c, label, j, v) {
        let t = rcount_positive(c.n, label, w, v);
        shares_facts(c, t, j);
        assert((c.emit)(t, j) == table(j, label(t)));
    }
    assert forall|t: int|
        0 <= t < c.n && #[trigger] label(t) == v && 0real < c.at(t, j) implies 0real < emits(
        c,
        label,
        j,
        v,
    ) by {
        shares_facts(c, t, j);
        assert(w(t) <= rcount(c.n, label, w, v));
    }
}

/// Frames that are read off a table gain where its rows are kept or counted, and
/// stay positive where some of the mass goes through them.
pub proof fn table_gains(
    ln: spec_fn(real) -> real,
    count: int,
    old: spec_fn(int) -> Trellis,
    new: spec_fn(int) -> Trellis,
    nc: int,
    label: spec_fn(int) -> spec_fn(int) -> int,
    m: int,
    table: spec_fn(int, int) -> real,
    new_table: spec_fn(int, int) -> real,
)
    requires
        is_ln(ln),
        forall|s: int|
            0 <= s < count ==> (#[trigger] old(s)).nc == nc && old(s).wf() && 0real < old(s).mass()
                && new(s).nc == nc && new(s).n == old(s).n && tabled(old(s), label(s), m, table)
                && tabled(new(s), label(s), m, new_table),
        forall|j: int, v: int| 0 <= j < nc && 0 <= v < m ==> 0real <= #[trigger] table(j, v),
        forall|j: int|
            0 <= j < nc ==> #[trigger] table_kept_or_counted(
                count,
                old,
                label,
                m,
                table,
                new_table,
                j,
            ),
    ensures
        0real <= rsum(count, |s: int| frames_gain(ln, old(s), new(s))),
        forall|s: int, t: int, j: int|
            0 <= s < count && 0 <= t < old(s).n && 0 <= j < nc && 0real < #[trigger] old(s).at(t, j)
                ==> 0real < (new(s).emit)(t, j),
{
    let f = |s: int, j: int, v: int| emits(old(s), label(s), j, v);
    let g = |j: int, v: int| ln(new_table(j, v)) - ln(table(j, v));
    let gain = |s: int| frames_gain(ln, old(s), new(s));
    assert forall|s: int| 0 <= s < count implies #[trigger] gain(s) == (|s: int|
        rsum(nc, |j: int| rsum(m, |v: int| f(s, j, v) * g(j, v))))(s) by {
        assert(old(s).nc == nc);
        gain_by_label(ln, old(s), new(s), label(s), m, table, new_table);
        let by_label = |j: int|
            rsum(
                m,
                |v: int|
                    emits(old(s), label(s), j, v) * (ln(new_table(j, v)) - ln(table(j, v))),
            );
        assert forall|j: int| 0 <= j < nc implies #[trigger] by_label(j) == (|j: int|
            rsum(m, |v: int| f(s, j, v) * g(j, v)))(j) by {
            rsum_ext(
                m,
                |v: int|
                    emits(old(s), label(s), j, v) * (ln(new_table(j, v)) - ln(table(j, v))),
                |v: int| f(s, j, v) * g(j, v),
            );
        }
        rsum_ext(nc, by_label, |j: int| rsum(m, |v: int| f(s, j, v) * g(j, v)));
    }
    rsum_ext(
        count,
        gain,
        |s: int| rsum(nc, |j: int| rsum(m, |v: int| f(s, j, v) * g(j, v))),
    );
    exchanged(count, nc, m, f, g);
    let row = |j: int| rsum(m, |v: int| rsum(count, |s: int| f(s, j, v)) * g(j, v));
    assert forall|j: int| 0 <= j < nc implies 0real <= #[trigger] row(j) by {
        row_gains(ln, count, old, new, nc, label, m, table, new_table, j);
        let a = |v: int| table(j, v);
        let c = |v: int| all_emits(count, old, label, j, v);
        let b = |v: int| new_table(j, v);
        let cell = |v: int| rsum(count, |s: int| f(s, j, v)) * g(j, v);
        assert forall|v: int| 0 <= v < m implies #[trigger] cell(v) == (|v: int|
            c(v) * (ln(b(v)) - ln(a(v))))(v) by {
            rsum_ext(
                count,
                |s: int| f(s, j, v),
                |s: int| emits(old(s), label(s), j, v),
            );
        }
        rsum_ext(m, cell, |v: int| c(v) * (ln(b(v)) - ln(a(v))));
        rsum_ext(
            m,
            |v: int| all_emits(count, old, label, j, v) * (ln(new_table(j, v)) - ln(table(j, v))),
            |v: int| c(v) * (ln(b(v)) - ln(a(v))),
        );
    }
    if nc > 0 {
        rsum_member(nc, row, 0);
    }
    assert forall|s: int, t: int, j: int|
        0 <= s < count && 0 <= t < old(s).n && 0 <= j < nc && 0real < #[trigger] old(s).at(t, j)
        implies 0real < (new(s).emit)(t, j) by {
        assert(old(s).nc == nc);
        let v = label(s)(t);
        assert(0 <= v < m);
        row_gains(ln, count, old, new, nc, label, m, table, new_table, j);
        emits_facts(old(s), label(s), m, table, j, v);
        let part = |s: int| emits(old(s), label(s), j, v);
        assert forall|s: int| 0 <= s < count implies 0real <= #[trigger] part(s) by {
            assert(old(s).nc == nc);
            emits_facts(old(s), label(s), m, table, j, v);
        }
        rsum_member(count, part, s);
        assert(0real < all_emits(count, old, label, j, v));
        assert((new(s).emit)(t, j) == new_table(j, v));
    }
}

/// A row of the table that is kept or counted gains.
proof fn row_gains(
    ln: spec_fn(real) -> real,
    count: int,
    old: spec_fn(int) -> Trellis,
    new: spec_fn(int) -> Trellis,
    nc: int,
    label: spec_fn(int) -> spec_fn(int) -> int,
    m: int,
    table: spec_fn(int, int) -> real,
    new_table: spec_fn(int, int) -> real,
    j: int,
)
    requires
        is_ln(ln),
        forall|s: int|
            0 <= s < count ==> (#[trigger] old(s)).nc == nc && old(s).wf() && 0real < old(s).mass()
                && new(s).nc == nc && new(s).n == old(s).n && tabled(old(s), label(s), m, table)
                && tabled(new(s), label(s), m, new_table),
        forall|j: int, v: int| 0 <= j < nc && 0 <= v < m ==> 0real <= #[trigger] table(j, v),
        0 <= j < nc,
        table_kept_or_counted(count, old, label, m, table, new_table, j),
    ensures
        0real <= rsum(
            m,
            |v: int| all_emits(count, old, label, j, v) * (ln(new_table(j, v)) - ln(table(j, v))),
        ),
        forall|v: int|
            0 <= v < m && 0real < #[trigger] all_emits(count, old, label, j, v) ==> 0real
                < new_table(j, v),
{
    let a = |v: int| table(j, v);
    let c = |v: int| all_emits(count, old, label, j, v);
    let b = |v: int| new_table(j, v);
    assert forall|v: int| 0 <= v < m implies 0real <= #[trigger] c(v) && (0real < c(v) ==> 0real
        < a(v)) by {
        let part = |s: int| emits(old(s), label(s), j, v);
        assert forall|s: int| 0 <= s < count implies 0real <= #[trigger] part(s) && (0real < part(
            s,
        ) ==> 0real < a(v)) by {
            assert(old(s).nc == nc);
            emits_facts(old(s), label(s), m, table, j, v);
        }
        if count > 0 {
            rsum_member(count, part, 0);
        }
        if 0real < rsum(count, part) {
            let s = rsum_positive(count, part);
            assert(0real < part(s));
        }
    }
    assert forall|v: int| 0 <= v < m implies 0real <= #[trigger] a(v) by {
        assert(0real <= table(j, v));
    }
    kept_or_counted_gains(ln, m, c, a, b);
    rsum_ext(
        m,
        |v: int| all_emits(count, old, label, j, v) * (ln(new_table(j, v)) - ln(table(j, v))),
        |v: int| c(v) * (ln(b(v)) - ln(a(v))),
    );
    assert forall|v: int|
        0 <= v < m && 0real < #[trigger] all_emits(count, old, label, j, v) implies 0real
        < new_table(j, v) by {
        assert(0real < c(v));
    }
}

} // verus!
