//! Sign arithmetic: the numbers of this [`Scalar`] are what is known of a
//! number's sign.
//!
//! Running an algorithm over signs tells which of its results are known to be
//! positive, zero or negative from the signs of its inputs alone. An operation
//! whose result the signs of its operands do not settle gives
//! [`Sign::Unknown`], and a comparison holds only where it is known to hold.

use crate::scalar::Scalar;
use vstd::prelude::*;

verus! {

/// What is known of the sign of a number.
#[derive(Debug, Clone, Copy, PartialEq, Eq, Structural)]
pub enum Sign {
    /// Below zero.
    Minus,
    /// Zero.
    Zero,
    /// Above zero.
    Plus,
    /// Nothing is known; the value may be infinite or no number at all.
    Unknown,
}

impl Sign {
    /// The sign of an integer.
    pub open spec fn sign_of(n: int) -> Sign {
        if n < 0 {
            Sign::Minus
        } else if n == 0 {
            Sign::Zero
        } else {
            Sign::Plus
        }
    }

    /// The sign of the negated number.
    pub open spec fn flipped(self) -> Sign {
        match self {
            Sign::Minus => Sign::Plus,
            Sign::Zero => Sign::Zero,
            Sign::Plus => Sign::Minus,
            Sign::Unknown => Sign::Unknown,
        }
    }

    /// The sign of the negated number.
    pub fn flip(self) -> (r: Sign)
        ensures
            r == self.flipped(),
    {
        match self {
            Sign::Minus => Sign::Plus,
            Sign::Zero => Sign::Zero,
            Sign::Plus => Sign::Minus,
            Sign::Unknown => Sign::Unknown,
        }
    }
}

impl Scalar for Sign {
    open spec fn s_of_int(n: int) -> Sign {
        Sign::sign_of(n)
    }

    open spec fn s_decimal(digits: int, exponent: int) -> Sign {
        Sign::sign_of(digits)
    }

    open spec fn s_pos_inf() -> Sign {
        Sign::Unknown
    }

    open spec fn s_neg_inf() -> Sign {
        Sign::Unknown
    }

    open spec fn s_nan() -> Sign {
        Sign::Unknown
    }

    open spec fn s_pi() -> Sign {
        Sign::Plus
    }

    open spec fn s_plus(self, other: Sign) -> Sign {
        if self == Sign::Zero || self == other {
            other
        } else if other == Sign::Zero {
            self
        } else {
            Sign::Unknown
        }
    }

    open spec fn s_minus(self, other: Sign) -> Sign {
        self.s_plus(other.flipped())
    }

    open spec fn s_times(self, other: Sign) -> Sign {
        match self {
            Sign::Plus => other,
            Sign::Minus => other.flipped(),
            Sign::Zero => if other == Sign::Unknown {
                Sign::Unknown
            } else {
                Sign::Zero
            },
            Sign::Unknown => Sign::Unknown,
        }
    }

    open spec fn s_over(self, other: Sign) -> Sign {
        match other {
            Sign::Plus => self,
            Sign::Minus => self.flipped(),
            _ => Sign::Unknown,
        }
    }

    open spec fn s_below(self, other: Sign) -> bool {
        (self == Sign::Minus && (other == Sign::Zero || other == Sign::Plus)) || (self == Sign::Zero
            && other == Sign::Plus)
    }

    open spec fn s_same(self, other: Sign) -> bool {
        self == Sign::Zero && other == Sign::Zero
    }

    open spec fn s_signum(self) -> Sign {
        if self == Sign::Zero {
            Sign::Unknown
        } else {
            self
        }
    }

    open spec fn s_ln(self) -> Sign {
        Sign::Unknown
    }

    open spec fn s_ln_1p(self) -> Sign {
        if self == Sign::Minus {
            Sign::Unknown
        } else {
            self
        }
    }

    open spec fn s_exp(self) -> Sign {
        if self == Sign::Unknown {
            Sign::Unknown
        } else {
            Sign::Plus
        }
    }

    open spec fn s_sqrt(self) -> Sign {
        if self == Sign::Minus {
            Sign::Unknown
        } else {
            self
        }
    }

    open spec fn s_mul_add(self, factor: Sign, term: Sign) -> Sign {
        self.s_times(factor).s_plus(term)
    }

    open spec fn s_pow(self, exponent: Sign) -> Sign {
        if self == Sign::Plus && exponent != Sign::Unknown {
            Sign::Plus
        } else {
            Sign::Unknown
        }
    }

    open spec fn s_floor(self) -> Sign {
        if self == Sign::Plus {
            Sign::Unknown
        } else {
            self
        }
    }

    open spec fn s_fract(self) -> Sign {
        if self == Sign::Zero {
            Sign::Zero
        } else {
            Sign::Unknown
        }
    }

    open spec fn s_to_int(self) -> i64 {
        match self {
            Sign::Minus => -1i64,
            Sign::Plus => 1i64,
            _ => 0i64,
        }
    }

    open spec fn s_ln_gamma(self) -> Sign {
        Sign::Unknown
    }

    open spec fn s_text(self, places: Option<usize>, plus: bool) -> Seq<char> {
        match self {
            Sign::Minus => "-"@,
            Sign::Zero => "0"@,
            Sign::Plus => "+"@,
            Sign::Unknown => "?"@,
        }
    }

    fn of_int(n: i128) -> Sign {
        if n < 0 {
            Sign::Minus
        } else if n == 0 {
            Sign::Zero
        } else {
            Sign::Plus
        }
    }

    fn decimal(digits: i64, exponent: i32) -> Sign {
        if digits < 0 {
            Sign::Minus
        } else if digits == 0 {
            Sign::Zero
        } else {
            Sign::Plus
        }
    }

    fn pos_inf() -> Sign {
        Sign::Unknown
    }

    fn neg_inf() -> Sign {
        Sign::Unknown
    }

    fn nan() -> Sign {
        Sign::Unknown
    }

    fn pi() -> Sign {
        Sign::Plus
    }

    fn plus(self, other: Sign) -> Sign {
        if self == Sign::Zero || self == other {
            other
        } else if other == Sign::Zero {
            self
        } else {
            Sign::Unknown
        }
    }

    fn minus(self, other: Sign) -> Sign {
        self.plus(other.flip())
    }

    fn times(self, other: Sign) -> Sign {
        match self {
            Sign::Plus => other,
            Sign::Minus => other.flip(),
            Sign::Zero => {
                if other == Sign::Unknown {
                    Sign::Unknown
                } else {
                    Sign::Zero
                }
            },
            Sign::Unknown => Sign::Unknown,
        }
    }

    fn over(self, other: Sign) -> Sign {
        match other {
            Sign::Plus => self,
            Sign::Minus => self.flip(),
            _ => Sign::Unknown,
        }
    }

    fn below(self, other: Sign) -> bool {
        (self == Sign::Minus && (other == Sign::Zero || other == Sign::Plus)) || (self == Sign::Zero
            && other == Sign::Plus)
    }

    fn same(self, other: Sign) -> bool {
        self == Sign::Zero && other == Sign::Zero
    }

    fn signum(self) -> Sign {
        if self == Sign::Zero {
            Sign::Unknown
        } else {
            self
        }
    }

    fn ln(self) -> Sign {
        Sign::Unknown
    }

    fn ln_1p(self) -> Sign {
        if self == Sign::Minus {
            Sign::Unknown
        } else {
            self
        }
    }

    fn exp(self) -> Sign {
        if self == Sign::Unknown {
            Sign::Unknown
        } else {
            Sign::Plus
        }
    }

    fn sqrt(self) -> Sign {
        if self == Sign::Minus {
            Sign::Unknown
        } else {
            self
        }
    }

    fn mul_add(self, factor: Sign, term: Sign) -> Sign {
        self.times(factor).plus(term)
    }

    fn pow(self, exponent: Sign) -> Sign {
        if self == Sign::Plus && exponent != Sign::Unknown {
            Sign::Plus
        } else {
            Sign::Unknown
        }
    }

    fn floor(self) -> Sign {
        if self == Sign::Plus {
            Sign::Unknown
        } else {
            self
        }
    }

    fn fract(self) -> Sign {
        if self == Sign::Zero {
            Sign::Zero
        } else {
            Sign::Unknown
        }
    }

    fn to_int(self) -> i64 {
        match self {
            Sign::Minus => -1,
            Sign::Plus => 1,
            _ => 0,
        }
    }

    fn ln_gamma(self) -> Sign {
        Sign::Unknown
    }

    fn text(self, places: Option<usize>, plus: bool) -> String {
        match self {
            Sign::Minus => "-".to_owned(),
            Sign::Zero => "0".to_owned(),
            Sign::Plus => "+".to_owned(),
            Sign::Unknown => "?".to_owned(),
        }
    }
}

} // verus!
