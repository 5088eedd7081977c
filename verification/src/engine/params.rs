//! Parameter selection and the algorithm and implementation enums.
//!
//! A `params` or `init_params` string such as `"stmc"` decides which parameters
//! are initialised and updated. It is kept as a small typed bit set.

use crate::error::HmmError;
use crate::text::{joined, quoted, quoted_text, same_text};
use vstd::prelude::*;
use vstd::string::StrSliceExecFns;

verus! {

/// A single fittable parameter group, identified by its character code.
#[derive(Debug, Clone, Copy, PartialEq, Eq, Structural)]
pub enum Param {
    /// `'s'`: initial state distribution.
    Start,
    /// `'t'`: transition matrix.
    Trans,
    /// `'m'`: Gaussian means.
    Means,
    /// `'c'`: Gaussian covariances.
    Covars,
    /// `'e'`: categorical or multinomial emission probabilities.
    Emit,
    /// `'l'`: Poisson rates.
    Lambdas,
    /// `'w'`: mixture weights.
    Weights,
}

impl Param {
    /// The character that stands for this parameter.
    pub open spec fn letter(self) -> char {
        match self {
            Param::Start => 's',
            Param::Trans => 't',
            Param::Means => 'm',
            Param::Covars => 'c',
            Param::Emit => 'e',
            Param::Lambdas => 'l',
            Param::Weights => 'w',
        }
    }

    /// The parameter's bit within a [`ParamSet`].
    pub closed spec fn mask(self) -> u8 {
        match self {
            Param::Start => 1,
            Param::Trans => 2,
            Param::Means => 4,
            Param::Covars => 8,
            Param::Emit => 16,
            Param::Lambdas => 32,
            Param::Weights => 64,
        }
    }

    /// The single-bit mask identifying this parameter within a [`ParamSet`].
    #[inline]
    fn bit(self) -> (b: u8)
        ensures
            b == self.mask(),
    {
        match self {
            Param::Start => 1,
            Param::Trans => 2,
            Param::Means => 4,
            Param::Covars => 8,
            Param::Emit => 16,
            Param::Lambdas => 32,
            Param::Weights => 64,
        }
    }

    /// The character code for this parameter.
    pub fn code(self) -> (c: char)
        ensures
            c == self.letter(),
    {
        match self {
            Param::Start => 's',
            Param::Trans => 't',
            Param::Means => 'm',
            Param::Covars => 'c',
            Param::Emit => 'e',
            Param::Lambdas => 'l',
            Param::Weights => 'w',
        }
    }
}

/// Distinct parameters have distinct codes.
pub proof fn codes_are_distinct(p: Param, q: Param)
    ensures
        p.letter() == q.letter() ==> p == q,
{
}

/// `s` without `p` where that is preset, else `s` itself.
pub open spec fn less(s: Set<Param>, p: Param, preset: bool) -> Set<Param> {
    if preset {
        s.remove(p)
    } else {
        s
    }
}

/// The set of parameters a model should initialise or update.
#[derive(Debug, Clone, Copy, PartialEq, Eq, Structural)]
pub struct ParamSet(u8);

impl ParamSet {
    /// The parameters that the set holds.
    pub closed spec fn members(self) -> Set<Param> {
        Set::new(|p: Param| self.0 & p.mask() != 0)
    }

    /// Every value holds bits of parameters alone.
    pub closed spec fn wf(self) -> bool {
        self.0 < 128
    }

    /// The empty set (initialise and update nothing).
    pub fn empty() -> (s: Self)
        ensures
            s.wf(),
            s.members() == Set::<Param>::empty(),
    {
        proof {
            assert forall|p: Param| 0u8 & #[trigger] p.mask() == 0 by {
                let m: u8 = p.mask();
                assert(0u8 & m == 0) by (bit_vector);
            }
        }
        ParamSet(0)
    }

    /// Build from a code string such as `"stmc"`: each recognised code (`s t m c
    /// e l w`) puts its parameter into the set, any other character is ignored.
    pub fn from_codes(s: &str) -> (r: Self)
        ensures
            r.wf(),
            forall|p: Param| r.members().contains(p) <==> s@.contains(p.letter()),
    {
        let n: usize = s.unicode_len();
        let mut r = ParamSet::empty();
        let mut i: usize = 0;
        while i < n
            invariant
                n == s@.len(),
                i <= n,
                r.wf(),
                forall|p: Param|
                    #![trigger r.members().contains(p)]
                    r.members().contains(p) <==> s@.take(i as int).contains(p.letter()),
            decreases n - i,
        {
            let ch = s.get_char(i);
            let ghost before = r;
            proof {
                let longer = s@.take(i as int + 1);
                assert(longer =~= s@.take(i as int).push(ch));
                assert forall|c: char| longer.contains(c) <==> (s@.take(i as int).contains(c) || c == ch) by {
                    let shorter = s@.take(i as int);
                    if shorter.contains(c) {
                        let k = choose|k: int| 0 <= k < shorter.len() && shorter[k] == c;
                        assert(longer[k] == c);
                    }
                    if c == ch {
                        assert(longer[i as int] == c);
                    }
                }
            }
            if ch == 's' {
                r.insert(Param::Start);
            } else if ch == 't' {
                r.insert(Param::Trans);
            } else if ch == 'm' {
                r.insert(Param::Means);
            } else if ch == 'c' {
                r.insert(Param::Covars);
            } else if ch == 'e' {
                r.insert(Param::Emit);
            } else if ch == 'l' {
                r.insert(Param::Lambdas);
            } else if ch == 'w' {
                r.insert(Param::Weights);
            }
            i += 1;
        }
        proof {
            assert(s@.take(n as int) =~= s@);
        }
        r
    }

    /// Whether `p` is in the set.
    #[inline]
    pub fn contains(self, p: Param) -> (b: bool)
        ensures
            b == self.members().contains(p),
    {
        self.0 & p.bit() != 0
    }

    /// Add `p` to the set.
    pub fn insert(&mut self, p: Param)
        requires
            old(self).wf(),
        ensures
            final(self).wf(),
            final(self).members() == old(self).members().insert(p),
    {
        let ghost before = self.0;
        let m: u8 = p.bit();
        self.0 = self.0 | m;
        proof {
            assert(before < 128 && m < 128 ==> (before | m) < 128) by (bit_vector);
            assert forall|q: Param|
                (before | m) & #[trigger] q.mask() != 0 <==> (before & q.mask() != 0 || q == p) by {
                let k: u8 = q.mask();
                assert((before | m) & k == (before & k) | (m & k)) by (bit_vector);
                assert(forall|a: u8| #[trigger] (a | 0u8) == a) by (bit_vector);
                assert(1u8 & 1 == 1 && 2u8 & 2 == 2 && 4u8 & 4 == 4 && 8u8 & 8 == 8 && 16u8 & 16
                    == 16 && 32u8 & 32 == 32 && 64u8 & 64 == 64) by (bit_vector);
                if q == p {
                    let old_part: u8 = before & k;
                    assert(m != 0 ==> (old_part | m) != 0) by (bit_vector);
                    assert(m & k == m);
                } else {
                    assert(m & k == 0) by (bit_vector)
                        requires
                            m == 1 || m == 2 || m == 4 || m == 8 || m == 16 || m == 32 || m == 64,
                            k == 1 || k == 2 || k == 4 || k == 8 || k == 16 || k == 32 || k == 64,
                            m != k,
                    ;
                }
            }
        }
    }

    /// The set without `p` where that is preset, else the set itself.
    pub fn without(self, p: Param, preset: bool) -> (r: Self)
        ensures
            self.wf() ==> r.wf(),
            r.members() == less(self.members(), p, preset),
    {
        if !preset {
            return self;
        }
        let bits: u8 = self.0;
        let m: u8 = p.bit();
        let r = ParamSet(bits & !m);
        proof {
            assert(bits & !m <= bits) by (bit_vector);
            assert forall|q: Param|
                (bits & !m) & #[trigger] q.mask() != 0 <==> (bits & q.mask() != 0 && q != p) by {
                let k: u8 = q.mask();
                if q == p {
                    assert((bits & !m) & m == 0) by (bit_vector);
                } else {
                    assert((bits & !m) & k == bits & k) by (bit_vector)
                        requires
                            m == 1 || m == 2 || m == 4 || m == 8 || m == 16 || m == 32 || m == 64,
                            k == 1 || k == 2 || k == 4 || k == 8 || k == 16 || k == 32 || k == 64,
                            m != k,
                    ;
                }
            }
            assert(r.members() =~= self.members().remove(p));
        }
        r
    }

    /// Whether the set is empty.
    pub fn is_empty(self) -> (b: bool)
        requires
            self.wf(),
        ensures
            b <==> self.members() == Set::<Param>::empty(),
    {
        proof {
            let bits: u8 = self.0;
            if bits == 0 {
                assert forall|p: Param| bits & #[trigger] p.mask() == 0 by {
                    let m: u8 = p.mask();
                    assert(0u8 & m == 0) by (bit_vector);
                }
                assert(self.members() =~= Set::<Param>::empty());
            } else {
                assert(bits & 1 != 0 || bits & 2 != 0 || bits & 4 != 0 || bits & 8 != 0 || bits & 16
                    != 0 || bits & 32 != 0 || bits & 64 != 0) by (bit_vector)
                    requires
                        0 < bits < 128,
                ;
                assert(bits & Param::Start.mask() != 0 || bits & Param::Trans.mask() != 0 || bits
                    & Param::Means.mask() != 0 || bits & Param::Covars.mask() != 0 || bits
                    & Param::Emit.mask() != 0 || bits & Param::Lambdas.mask() != 0 || bits
                    & Param::Weights.mask() != 0);
                if self.members() == Set::<Param>::empty() {
                    assert forall|p: Param| bits & #[trigger] p.mask() == 0 by {
                        assert(!self.members().contains(p));
                    }
                }
            }
        }
        self.0 == 0
    }
}

/// Two sets with the same members are the same value, so a set built from the
/// codes of another set's members is that set.
pub proof fn members_determine_the_set(a: ParamSet, b: ParamSet)
    requires
        a.wf(),
        b.wf(),
        a.members() == b.members(),
    ensures
        a == b,
{
    let x: u8 = a.0;
    let y: u8 = b.0;
    assert forall|p: Param| (x & #[trigger] p.mask() != 0) == (y & p.mask() != 0) by {
        assert(a.members().contains(p) == (a.0 & p.mask() != 0));
        assert(b.members().contains(p) == (b.0 & p.mask() != 0));
    }
    assert((x & Param::Start.mask() != 0) == (y & Param::Start.mask() != 0));
    assert((x & Param::Trans.mask() != 0) == (y & Param::Trans.mask() != 0));
    assert((x & Param::Means.mask() != 0) == (y & Param::Means.mask() != 0));
    assert((x & Param::Covars.mask() != 0) == (y & Param::Covars.mask() != 0));
    assert((x & Param::Emit.mask() != 0) == (y & Param::Emit.mask() != 0));
    assert((x & Param::Lambdas.mask() != 0) == (y & Param::Lambdas.mask() != 0));
    assert((x & Param::Weights.mask() != 0) == (y & Param::Weights.mask() != 0));
    assert(x == y) by (bit_vector)
        requires
            x < 128,
            y < 128,
            (x & 1 != 0) == (y & 1 != 0),
            (x & 2 != 0) == (y & 2 != 0),
            (x & 4 != 0) == (y & 4 != 0),
            (x & 8 != 0) == (y & 8 != 0),
            (x & 16 != 0) == (y & 16 != 0),
            (x & 32 != 0) == (y & 32 != 0),
            (x & 64 != 0) == (y & 64 != 0),
    ;
}

/// The decoding algorithm used by `decode` and `predict`.
#[derive(Debug, Clone, Copy, PartialEq, Eq, Structural)]
pub enum DecoderAlgorithm {
    /// Maximum-likelihood state sequence (Viterbi).
    Viterbi,
    /// Per-sample most likely state (maximum a posteriori).
    Posterior,
}

impl DecoderAlgorithm {
    /// The name of the algorithm.
    pub open spec fn name(self) -> Seq<char> {
        match self {
            DecoderAlgorithm::Viterbi => "viterbi"@,
            DecoderAlgorithm::Posterior => "map"@,
        }
    }

    /// Parses `"viterbi"` or `"map"`; any other string yields
    /// [`HmmError::InvalidParameter`].
    pub fn parse(s: &str) -> (r: Result<Self, HmmError>)
        ensures
            match r {
                Ok(a) => s@ == a.name(),
                Err(e) => s@ != "viterbi"@ && s@ != "map"@ && e.message()
                    == "invalid parameter: "@ + ("algorithm must be 'viterbi' or 'map', got "@
                    + quoted_text(s@)),
            },
    {
        if same_text(s, "viterbi") {
            Ok(DecoderAlgorithm::Viterbi)
        } else if same_text(s, "map") {
            Ok(DecoderAlgorithm::Posterior)
        } else {
            Err(
                HmmError::InvalidParameter(
                    joined("algorithm must be 'viterbi' or 'map', got ", quoted(s).as_str()),
                ),
            )
        }
    }
}

impl std::str::FromStr for DecoderAlgorithm {
    type Err = HmmError;

    fn from_str(s: &str) -> (r: Result<Self, HmmError>)
        ensures
            match r {
                Ok(t) => s@ == t.name(),
                Err(e) => s@ != "viterbi"@ && s@ != "map"@ && e.message() == "invalid parameter: "@ + ("algorithm must be 'viterbi' or 'map', got "@
                    + quoted_text(s@)),
            },
    {
        DecoderAlgorithm::parse(s)
    }
}

/// Numerical strategy for the forward-backward recursions.
#[derive(Debug, Clone, Copy, PartialEq, Eq, Structural)]
pub enum Implementation {
    /// Work in log space (default; robust to underflow).
    Log,
    /// Work with per-step scaling factors.
    Scaling,
}

impl Implementation {
    /// The name of the implementation.
    pub open spec fn name(self) -> Seq<char> {
        match self {
            Implementation::Log => "log"@,
            Implementation::Scaling => "scaling"@,
        }
    }

    /// Parses `"log"` or `"scaling"`; any other string yields
    /// [`HmmError::InvalidParameter`].
    pub fn parse(s: &str) -> (r: Result<Self, HmmError>)
        ensures
            match r {
                Ok(a) => s@ == a.name(),
                Err(e) => s@ != "log"@ && s@ != "scaling"@ && e.message()
                    == "invalid parameter: "@ + ("implementation must be 'log' or 'scaling', got "@
                    + quoted_text(s@)),
            },
    {
        if same_text(s, "log") {
            Ok(Implementation::Log)
        } else if same_text(s, "scaling") {
            Ok(Implementation::Scaling)
        } else {
            Err(
                HmmError::InvalidParameter(
                    joined("implementation must be 'log' or 'scaling', got ", quoted(s).as_str()),
                ),
            )
        }
    }
}

impl std::str::FromStr for Implementation {
    type Err = HmmError;

    fn from_str(s: &str) -> (r: Result<Self, HmmError>)
        ensures
            match r {
                Ok(t) => s@ == t.name(),
                Err(e) => s@ != "log"@ && s@ != "scaling"@ && e.message() == "invalid parameter: "@ + ("implementation must be 'log' or 'scaling', got "@
                    + quoted_text(s@)),
            },
    {
        Implementation::parse(s)
    }
}

} // verus!
