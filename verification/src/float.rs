//! IEEE-754 numbers held by their bit patterns.
//!
//! The library orders, compares, negates and classifies floating point numbers, and
//! moves them in and out of files. All of that is a function of the bits, so the
//! types here hold the bits and the contracts speak of integers. Arithmetic that
//! rounds is never done here: where a result needs it, the caller passes it in.
use vstd::prelude::*;
use vstd::std_specs::cmp::PartialEqSpecImpl;

verus! {

/// Bit pattern of the sign bit of a double.
pub const SIGN_64: u64 = 0x8000_0000_0000_0000;

/// Bit pattern of positive infinity as a double.
pub const INFINITY_64: u64 = 0x7ff0_0000_0000_0000;

/// Bit pattern of the quiet NaN.
pub const NAN_64: u64 = 0x7ff8_0000_0000_0000;

/// A double precision number.
#[derive(Debug, Clone, Copy)]
pub struct F64 {
    /// The bits of the number: sign, eleven exponent bits, fifty-two fraction bits.
    pub bits: u64,
}

/// A single precision number.
#[derive(Debug, Clone, Copy, PartialEq, Eq, Structural)]
pub struct F32 {
    /// The bits of the number: sign, eight exponent bits, twenty-three fraction bits.
    pub bits: u32,
}

impl F64 {
    /// Is the sign bit set.
    pub open spec fn is_negative(self) -> bool {
        self.bits >= SIGN_64
    }

    /// The bits below the sign, which order numbers of one sign by their size.
    pub open spec fn magnitude(self) -> int {
        if self.is_negative() {
            self.bits - SIGN_64
        } else {
            self.bits as int
        }
    }

    /// Every exponent bit is set and so is some fraction bit.
    pub open spec fn nan(self) -> bool {
        self.magnitude() > INFINITY_64
    }

    /// Neither infinite nor NaN.
    pub open spec fn finite(self) -> bool {
        self.magnitude() < INFINITY_64
    }

    /// Where the number stands among those that are not NaN. Both zeros stand at 0.
    pub open spec fn rank(self) -> int {
        if self.is_negative() {
            -self.magnitude()
        } else {
            self.magnitude()
        }
    }

    /// Where the number stands in the total order: negative NaN first, then the
    /// numbers from the smallest up with negative zero before positive zero, and
    /// positive NaN last.
    pub open spec fn total_rank(self) -> int {
        if self.is_negative() {
            -self.magnitude() - 1
        } else {
            self.magnitude()
        }
    }

    /// `self < other`, which is false as soon as one side is NaN.
    pub open spec fn spec_lt(self, other: F64) -> bool {
        !self.nan() && !other.nan() && self.rank() < other.rank()
    }

    /// `self <= other`, which is false as soon as one side is NaN.
    pub open spec fn spec_le(self, other: F64) -> bool {
        !self.nan() && !other.nan() && self.rank() <= other.rank()
    }

    /// `self == other`, which is false as soon as one side is NaN.
    pub open spec fn same(self, other: F64) -> bool {
        !self.nan() && !other.nan() && self.rank() == other.rank()
    }

    /// The number with its sign bit flipped.
    pub open spec fn negated(self) -> F64 {
        if self.is_negative() {
            F64 { bits: (self.bits - SIGN_64) as u64 }
        } else {
            F64 { bits: (self.bits + SIGN_64) as u64 }
        }
    }

    /// The number with its sign bit cleared.
    pub open spec fn abs_value(self) -> F64 {
        F64 { bits: self.magnitude() as u64 }
    }

    /// The number with the given bits.
    pub fn from_bits(bits: u64) -> (x: F64)
        ensures
            x.bits == bits,
    {
        F64 { bits }
    }

    /// The bits of the number.
    pub fn to_bits(self) -> (bits: u64)
        ensures
            bits == self.bits,
    {
        self.bits
    }

    /// The quiet NaN.
    pub fn new_nan() -> (x: F64)
        ensures
            x.bits == NAN_64,
            x.nan(),
    {
        F64 { bits: NAN_64 }
    }

    /// Positive zero.
    pub fn zero() -> (x: F64)
        ensures
            x.bits == 0,
    {
        F64 { bits: 0 }
    }

    fn magnitude_bits(self) -> (m: u64)
        ensures
            m == self.magnitude(),
    {
        if self.bits >= SIGN_64 {
            self.bits - SIGN_64
        } else {
            self.bits
        }
    }

    /// Is the sign bit set.
    pub fn is_sign_negative(self) -> (r: bool)
        ensures
            r == self.is_negative(),
    {
        self.bits >= SIGN_64
    }

    /// Is this not a number.
    pub fn is_nan(self) -> (r: bool)
        ensures
            r == self.nan(),
    {
        self.magnitude_bits() > INFINITY_64
    }

    /// Is this neither infinite nor NaN.
    pub fn is_finite(self) -> (r: bool)
        ensures
            r == self.finite(),
    {
        self.magnitude_bits() < INFINITY_64
    }

    /// Flip the sign bit.
    pub fn neg(self) -> (r: F64)
        ensures
            r == self.negated(),
    {
        if self.bits >= SIGN_64 {
            F64 { bits: self.bits - SIGN_64 }
        } else {
            F64 { bits: self.bits + SIGN_64 }
        }
    }

    /// Clear the sign bit.
    pub fn abs(self) -> (r: F64)
        ensures
            r == self.abs_value(),
    {
        F64 { bits: self.magnitude_bits() }
    }

    /// Numeric `<`.
    pub fn less(self, other: F64) -> (r: bool)
        ensures
            r == self.spec_lt(other),
    {
        if self.is_nan() || other.is_nan() {
            return false;
        }
        let a: u64 = self.magnitude_bits();
        let b: u64 = other.magnitude_bits();
        if self.bits >= SIGN_64 {
            if other.bits >= SIGN_64 {
                a > b
            } else {
                a > 0 || b > 0
            }
        } else if other.bits >= SIGN_64 {
            false
        } else {
            a < b
        }
    }

    /// Numeric `<=`.
    pub fn less_or_equal(self, other: F64) -> (r: bool)
        ensures
            r == self.spec_le(other),
    {
        if self.is_nan() || other.is_nan() {
            return false;
        }
        !other.less(self)
    }

    /// Numeric `==`.
    pub fn equals(self, other: F64) -> (r: bool)
        ensures
            r == self.same(other),
    {
        self.less_or_equal(other) && other.less_or_equal(self)
    }

    /// Does this stand before `other` in the total order.
    pub fn total_less(self, other: F64) -> (r: bool)
        ensures
            r == (self.total_rank() < other.total_rank()),
    {
        let a: u64 = self.magnitude_bits();
        let b: u64 = other.magnitude_bits();
        if self.bits >= SIGN_64 {
            if other.bits >= SIGN_64 {
                a > b
            } else {
                true
            }
        } else if other.bits >= SIGN_64 {
            false
        } else {
            a < b
        }
    }
}

impl PartialEq for F64 {
    fn eq(&self, other: &Self) -> (r: bool) {
        self.equals(*other)
    }
}

impl PartialEqSpecImpl for F64 {
    open spec fn obeys_eq_spec() -> bool {
        true
    }

    open spec fn eq_spec(&self, other: &Self) -> bool {
        self.same(*other)
    }
}

/// Negation undoes itself, and changes nothing about the size of a number.
pub proof fn law_negation(x: F64)
    ensures
        x.negated().negated() == x,
        x.negated().magnitude() == x.magnitude(),
        x.negated().rank() == -x.rank(),
        x.negated().finite() == x.finite(),
        x.negated().nan() == x.nan(),
{
}

/// The total order tells any two bit patterns apart, and never contradicts the
/// numeric order.
pub proof fn law_total_order(x: F64, y: F64)
    ensures
        x.total_rank() == y.total_rank() <==> x == y,
        x.spec_lt(y) ==> x.total_rank() < y.total_rank(),
        !x.nan() && !y.nan() && x.total_rank() <= y.total_rank() ==> x.spec_le(y),
{
}

/// The exponent bits and the fraction bits, as a double precision number, of the fraction
/// `m` with the exponent `e` when it is doubled until its first bit is in front.
pub open spec fn normal_form(m: nat, e: nat) -> (nat, nat)
    decreases e,
{
    if m >= 0x80_0000 || e == 0 {
        (e, (m - 0x80_0000) as nat)
    } else {
        normal_form(2 * m, (e - 1) as nat)
    }
}

impl F32 {
    /// The same number in double precision. A NaN stays a NaN, and is quiet.
    pub open spec fn widened(self) -> F64 {
        let sign = if self.bits >= 0x8000_0000 {
            SIGN_64 as int
        } else {
            0
        };
        let below = if self.bits >= 0x8000_0000 {
            self.bits - 0x8000_0000
        } else {
            self.bits as int
        };
        let e = below / 0x80_0000;
        let m = below % 0x80_0000;
        let size = if e == 255 {
            if m == 0 || m >= 0x40_0000 {
                INFINITY_64 + m * 0x2000_0000
            } else {
                NAN_64 + m * 0x2000_0000
            }
        } else if e > 0 {
            (e + 896) * 0x10_0000_0000_0000 + m * 0x2000_0000
        } else if m == 0 {
            0
        } else {
            let (exponent, fraction) = normal_form(m as nat, 897);
            exponent as int * 0x10_0000_0000_0000 + fraction * 0x2000_0000
        };
        F64 { bits: (sign + size) as u64 }
    }

    /// The same number in double precision. A NaN stays a NaN, and is quiet.
    pub fn widen(self) -> (r: F64)
        ensures
            r == self.widened(),
    {
        let negative = self.bits >= 0x8000_0000;
        let sign: u64 = if negative {
            SIGN_64
        } else {
            0
        };
        let below: u64 = if negative {
            (self.bits - 0x8000_0000) as u64
        } else {
            self.bits as u64
        };
        let e: u64 = below / 0x80_0000;
        let m: u64 = below % 0x80_0000;
        let size: u64 = if e == 255 {
            if m == 0 || m >= 0x40_0000 {
                INFINITY_64 + m * 0x2000_0000
            } else {
                NAN_64 + m * 0x2000_0000
            }
        } else if e > 0 {
            (e + 896) * 0x10_0000_0000_0000 + m * 0x2000_0000
        } else if m == 0 {
            0
        } else {
            proof {
                vstd::arithmetic::power2::lemma2_to64();
            }
            let mut fraction: u64 = m;
            let mut exponent: u64 = 897;
            while fraction < 0x80_0000
                invariant
                    0 < fraction < 0x100_0000,
                    874 <= exponent <= 897,
                    fraction >= vstd::arithmetic::power2::pow2((897 - exponent) as nat),
                    normal_form(m as nat, 897) == normal_form(fraction as nat, exponent as nat),
                decreases exponent,
            {
                proof {
                    let k = (897 - exponent) as nat;
                    vstd::arithmetic::power2::lemma2_to64();
                    vstd::arithmetic::power2::lemma_pow2_unfold(k + 1);
                    if k > 23 {
                        vstd::arithmetic::power2::lemma_pow2_strictly_increases(23, k);
                    }
                }
                fraction = 2 * fraction;
                exponent = exponent - 1;
            }
            exponent * 0x10_0000_0000_0000 + (fraction - 0x80_0000) * 0x2000_0000
        };
        F64 { bits: sign + size }
    }
}

} // verus!
