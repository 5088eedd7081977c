//! Uniform draws: `random_sample` (53-bit fractions) and `randint`.

use crate::rng::mt19937::MtView;
use crate::rng::state::{ATTEMPTS, NumpyRandomState, RngView};
use crate::scalar::{num, Scalar};
use vstd::arithmetic::power2::{lemma2_to64, lemma_pow2_unfold, pow2};
use vstd::prelude::*;

verus! {

/// Smallest `2^k - 1` that is at least `rng`: the highest set bit is smeared down
/// through all lower bits.
fn gen_mask(rng: u64) -> (mask: u64)
    ensures
        mask >= rng,
        mask / 2 < rng || rng == 0,
        rng == 0 ==> mask == 0,
        exists|k: nat| k <= 64 && mask + 1 == #[trigger] pow2(k),
        mask == smeared(rng),
{
    let a: u64 = rng | (rng >> 1);
    let b: u64 = a | (a >> 2);
    let c: u64 = b | (b >> 4);
    let d: u64 = c | (c >> 8);
    let e: u64 = d | (d >> 16);
    let mask: u64 = e | (e >> 32);
    proof {
        assert(mask >= rng && (mask & (mask >> 1)) == mask >> 1 && (rng == 0 ==> mask == 0) && (rng
            != 0 ==> mask / 2 < rng)) by (bit_vector)
            requires
                a == rng | (rng >> 1),
                b == a | (a >> 2),
                c == b | (b >> 4),
                d == c | (c >> 8),
                e == d | (d >> 16),
                mask == e | (e >> 32),
        ;
        lemma2_to64();
        ones_are_power(mask, 64);
    }
    mask
}

/// `rng` with its highest set bit smeared down through all lower bits.
pub open spec fn smeared(rng: u64) -> u64 {
    let a = rng | (rng >> 1u64);
    let b = a | (a >> 2u64);
    let c = b | (b >> 4u64);
    let d = c | (c >> 8u64);
    let e = d | (d >> 16u64);
    e | (e >> 32u64)
}

proof fn ones_are_power(mask: u64, n: nat)
    requires
        mask & (mask >> 1) == mask >> 1,
        mask < pow2(n),
    ensures
        exists|k: nat| k <= n && mask + 1 == #[trigger] pow2(k),
    decreases n,
{
    lemma2_to64();
    if mask == 0 {
        assert(mask + 1 == pow2(0));
    } else {
        let half: u64 = mask >> 1;
        assert(half & (half >> 1) == half >> 1 && mask == 2 * half + 1) by (bit_vector)
            requires
                mask & (mask >> 1) == mask >> 1,
                mask != 0,
                half == mask >> 1,
        ;
        if n == 0 {
            assert(false);
        }
        lemma_pow2_unfold(n);
        ones_are_power(half, (n - 1) as nat);
        let k = choose|k: nat| k <= n - 1 && half + 1 == #[trigger] pow2(k);
        lemma_pow2_unfold(k + 1);
        assert(mask + 1 == pow2(k + 1));
    }
}

/// The numerator, over `2^53`, of the fraction that two 32-bit outputs give.
pub open spec fn sample_numerator(a: u32, b: u32) -> int {
    (a >> 5u32) * 67108864 + (b >> 6u32)
}

/// The numerator of a sample lies in `[0, 2^53)`, so the sample is at least 0 and
/// below 1; and distinct pairs of shifted words give distinct numerators.
pub proof fn sample_numerator_range(a: u32, b: u32, c: u32, d: u32)
    ensures
        0 <= sample_numerator(a, b) < 9007199254740992,
        sample_numerator(a, b) == sample_numerator(c, d) ==> a >> 5u32 == c >> 5u32 && b >> 6u32
            == d >> 6u32,
{
    assert(a >> 5u32 < 134217728u32 && c >> 5u32 < 134217728u32) by (bit_vector);
    assert(b >> 6u32 < 67108864u32 && d >> 6u32 < 67108864u32) by (bit_vector);
}

/// The uniform fraction that a state draws: `((a >> 5) * 2^26 + (b >> 6)) / 2^53`
/// for the next two outputs `a` and `b`.
pub open spec fn sample_of<T: Scalar>(mt: MtView) -> T {
    num::<T>((mt.next() >> 5u32) as int).s_times(num(67108864)).s_plus(
        num((mt.after().next() >> 6u32) as int),
    ).s_over(num(9007199254740992))
}

impl<T> RngView<T> {
    /// The state after one uniform fraction.
    pub open spec fn sampled(self) -> RngView<T> {
        RngView { mt: self.mt.after().after(), gauss: self.gauss }
    }

    /// The state after `n` uniform fractions.
    pub open spec fn sampled_n(self, n: int) -> RngView<T>
        decreases n,
    {
        if n <= 0 {
            self
        } else {
            self.sampled_n(n - 1).sampled()
        }
    }
}

/// The first integer in `[0, span]` among the masked outputs of `mt`, at most
/// `fuel` of them, and the state after it; 32-bit outputs where the span fits.
pub open spec fn bounded_draw(mt: MtView, span: u64, fuel: nat) -> (MtView, Option<u64>)
    decreases fuel,
{
    if fuel == 0 {
        (mt, None)
    } else {
        let (v, rest) = if span <= 0xffff_ffff {
            ((mt.next() as u64) & smeared(span), mt.after())
        } else {
            (mt.next_wide() & smeared(span), mt.after().after())
        };
        if v <= span {
            (rest, Some(v))
        } else {
            bounded_draw(rest, span, (fuel - 1) as nat)
        }
    }
}

/// `n` draws from `[low, low + span]`, one after the other.
pub open spec fn integer_draws(mt: MtView, low: int, span: u64, n: int) -> (MtView, Option<Seq<int>>)
    decreases n,
{
    if n <= 0 {
        (mt, Some(Seq::empty()))
    } else {
        match integer_draws(mt, low, span, n - 1) {
            (m, None) => (m, None),
            (m, Some(s)) => match bounded_draw(m, span, ATTEMPTS as nat) {
                (m2, None) => (m2, None),
                (m2, Some(v)) => (m2, Some(s.push(low + v))),
            },
        }
    }
}

impl<T: Scalar> NumpyRandomState<T> {
    /// A single uniform number in `[0, 1)`, with 53 random bits from two outputs.
    pub fn random_sample(&mut self) -> (u: T)
        requires
            old(self).wf(),
        ensures
            final(self).wf(),
            u == sample_of::<T>(old(self)@.mt),
            final(self)@ == old(self)@.sampled(),
    {
        let a: u32 = self.mt.next_u32() >> 5;
        let b: u32 = self.mt.next_u32() >> 6;
        T::of_int(a as i128).times(T::of_int(67108864)).plus(T::of_int(b as i128)).over(
            T::of_int(9007199254740992),
        )
    }

    /// `n` uniform numbers in `[0, 1)`.
    pub fn random_sample_n(&mut self, n: usize) -> (v: Vec<T>)
        requires
            old(self).wf(),
        ensures
            final(self).wf(),
            final(self)@ == old(self)@.sampled_n(n as int),
            v@ == Seq::new(n as nat, |i: int| sample_of::<T>(old(self)@.sampled_n(i).mt)),
    {
        let ghost start = self@;
        let mut v: Vec<T> = Vec::new();
        let mut i: usize = 0;
        while i < n
            invariant
                i <= n,
                self.wf(),
                self@ == start.sampled_n(i as int),
                v.len() == i,
                forall|k: int|
                    0 <= k < i ==> #[trigger] v@[k] == sample_of::<T>(start.sampled_n(k).mt),
            decreases n - i,
        {
            v.push(self.random_sample());
            i += 1;
        }
        proof {
            assert(v@ =~= Seq::new(n as nat, |i: int| sample_of::<T>(start.sampled_n(i).mt)));
        }
        v
    }

    /// One integer in `[0, span]` by masked rejection; `None` if [`ATTEMPTS`]
    /// candidates in a row are rejected.
    fn bounded(&mut self, span: u64, mask: u64) -> (r: Option<u64>)
        requires
            old(self).wf(),
            mask == smeared(span),
        ensures
            final(self).wf(),
            (final(self)@.mt, r) == bounded_draw(old(self)@.mt, span, ATTEMPTS as nat),
            final(self)@.gauss == old(self)@.gauss,
            r matches Some(v) ==> v <= span,
    {
        let ghost start = self@;
        let mut tries: u64 = 0;
        while tries < ATTEMPTS
            invariant
                tries <= ATTEMPTS,
                self.wf(),
                mask == smeared(span),
                start == old(self)@,
                self@.gauss == start.gauss,
                bounded_draw(self@.mt, span, (ATTEMPTS - tries) as nat) == bounded_draw(
                    start.mt,
                    span,
                    ATTEMPTS as nat,
                ),
            decreases ATTEMPTS - tries,
        {
            let v: u64 = if span <= 0xffff_ffff {
                (self.mt.next_u32() as u64) & mask
            } else {
                self.mt.next_u64() & mask
            };
            if v <= span {
                return Some(v);
            }
            tries += 1;
        }
        None
    }

    /// `n` integers in `[low, high)`: a masked value of the span is drawn and
    /// rejected where it overshoots. `None` if [`ATTEMPTS`] candidates in a row
    /// are rejected.
    pub fn randint(&mut self, low: i64, high: i64, n: usize) -> (r: Option<Vec<i64>>)
        requires
            old(self).wf(),
            low < high,
            high - low <= i64::MAX,
        ensures
            final(self).wf(),
            final(self)@.gauss == old(self)@.gauss,
            r matches Some(v) ==> v.len() == n && forall|i: int|
                0 <= i < n ==> low <= #[trigger] v@[i] < high,
            high - low == 1 ==> final(self)@ == old(self)@ && r is Some,
            high - low > 1 ==> ({
                let (m, d) = integer_draws(
                    old(self)@.mt,
                    low as int,
                    (high - low - 1) as u64,
                    n as int,
                );
                &&& r is Some <==> d is Some
                &&& r matches Some(v) ==> final(self)@.mt == m && d == Some(
                    v@.map_values(|x: i64| x as int),
                )
            }),
    {
        let span: u64 = (high - low - 1) as u64;
        let mut out: Vec<i64> = Vec::new();
        if span == 0 {
            return Some(crate::matrix::filled(n, low));
        }
        let ghost start = self@;
        let mask: u64 = gen_mask(span);
        let mut i: usize = 0;
        proof {
            assert(out@.map_values(|x: i64| x as int) =~= Seq::<int>::empty());
        }
        while i < n
            invariant
                i <= n,
                self.wf(),
                mask == smeared(span),
                span == high - low - 1,
                span > 0,
                low < high,
                high - low <= i64::MAX,
                start == old(self)@,
                self@.gauss == start.gauss,
                integer_draws(start.mt, low as int, span, i as int) == (
                    self@.mt,
                    Some(out@.map_values(|x: i64| x as int)),
                ),
                out.len() == i,
                forall|k: int| 0 <= k < i ==> low <= #[trigger] out@[k] < high,
            decreases n - i,
        {
            let ghost before = out@;
            match self.bounded(span, mask) {
                None => {
                    proof {
                        draws_stay_none(start.mt, low as int, span, i as int + 1, n as int);
                    }
                    return None;
                },
                Some(v) => {
                    out.push(low + v as i64);
                    proof {
                        assert(out@.map_values(|x: i64| x as int) =~= before.map_values(
                            |x: i64| x as int,
                        ).push(low + v));
                    }
                },
            }
            i += 1;
        }
        Some(out)
    }
}

proof fn draws_stay_none(mt: MtView, low: int, span: u64, i: int, n: int)
    requires
        0 <= i <= n,
        integer_draws(mt, low, span, i).1 is None,
    ensures
        integer_draws(mt, low, span, n).1 is None,
    decreases n,
{
    if n > i {
        draws_stay_none(mt, low, span, i, n - 1);
    }
}

} // verus!
