//! Floating-point measurements, carried as the bit patterns of IEEE 754 `binary64`.
//!
//! The library classifies, compares and clamps them; it does no arithmetic on them.

use vstd::arithmetic::power2::{lemma_pow2_adds, lemma_pow2_pos, lemma_pow2_strictly_increases, pow2};
use vstd::prelude::*;

verus! {

/// 2 to the power 52: one past the largest fraction field.
pub const FRACTION_SPAN: u64 = 0x10_0000_0000_0000;

/// 2 to the power 63: the weight of the sign bit.
pub const SIGN_WEIGHT: u64 = 0x8000_0000_0000_0000;

/// The bit pattern of 0.
pub const BITS_0: u64 = 0;

/// The bit pattern of 100.
pub const BITS_100: u64 = 0x4059_0000_0000_0000;

/// The bit pattern of 65535.
pub const BITS_65535: u64 = 0x40ef_ffe0_0000_0000;

/// The bit pattern of 100000.
pub const BITS_100000: u64 = 0x40f8_6a00_0000_0000;

/// The bit pattern of 150.
pub const BITS_150: u64 = 0x4062_c000_0000_0000;

/// The bit pattern of -40.
pub const BITS_MINUS_40: u64 = 0xc044_0000_0000_0000;

/// A floating-point number, by its bit pattern.
#[derive(Debug, Clone, Copy, PartialEq, Eq, Structural)]
pub struct Measure {
    /// The bits: one for the sign, eleven for the exponent, fifty-two for the fraction.
    pub bits: u64,
}

/// The exponent field.
pub open spec fn exponent(bits: u64) -> int {
    (bits as int / FRACTION_SPAN as int) % 2048
}

/// The fraction field.
pub open spec fn fraction(bits: u64) -> int {
    bits as int % FRACTION_SPAN as int
}

/// Everything but the sign bit.
pub open spec fn magnitude(bits: u64) -> int {
    if bits >= SIGN_WEIGHT {
        bits - SIGN_WEIGHT
    } else {
        bits as int
    }
}

impl Measure {
    /// A number: neither infinite nor NaN.
    pub open spec fn finite(self) -> bool {
        exponent(self.bits) != 2047
    }

    /// Not a number.
    pub open spec fn nan(self) -> bool {
        exponent(self.bits) == 2047 && fraction(self.bits) != 0
    }

    /// The place of a number in the order of all numbers. The two zeros share one.
    pub open spec fn rank(self) -> int {
        if self.bits >= SIGN_WEIGHT {
            -magnitude(self.bits)
        } else {
            magnitude(self.bits)
        }
    }

    /// The number in units of 2 to the power -1074, of which every finite number is a
    /// multiple.
    pub open spec fn scaled(self) -> int {
        let m = if exponent(self.bits) == 0 {
            fraction(self.bits)
        } else {
            (FRACTION_SPAN + fraction(self.bits)) * pow2((exponent(self.bits) - 1) as nat)
        };
        if self.bits >= SIGN_WEIGHT {
            -m
        } else {
            m
        }
    }

    /// `self < other` as floating point has it: false where either is NaN.
    pub open spec fn below(self, other: Measure) -> bool {
        !self.nan() && !other.nan() && self.rank() < other.rank()
    }

    /// `self` forced into the interval from `lo` to `hi`.
    pub open spec fn clamped(self, lo: Measure, hi: Measure) -> Measure {
        if self.below(lo) {
            lo
        } else if hi.below(self) {
            hi
        } else {
            self
        }
    }

    /// `self` between 0 and the number with the bits `hi`, and 0 where `self` is not a number.
    pub open spec fn bounded(self, hi: u64) -> Measure {
        if self.finite() {
            self.clamped(Measure { bits: BITS_0 }, Measure { bits: hi })
        } else {
            Measure { bits: BITS_0 }
        }
    }

    /// Whether `self` is neither infinite nor NaN.
    pub fn is_finite(self) -> (r: bool)
        ensures
            r == self.finite(),
    {
        (self.bits / FRACTION_SPAN) % 2048 != 2047
    }

    /// Whether `self` is NaN.
    pub fn is_nan(self) -> (r: bool)
        ensures
            r == self.nan(),
    {
        (self.bits / FRACTION_SPAN) % 2048 == 2047 && self.bits % FRACTION_SPAN != 0
    }

    /// Whether `self < other`.
    pub fn lt(self, other: Measure) -> (r: bool)
        ensures
            r == self.below(other),
    {
        !self.is_nan() && !other.is_nan() && other.rank_above(self)
    }

    /// Whether the place of `self` is above that of `other`.
    pub fn rank_above(self, other: Measure) -> (r: bool)
        ensures
            r == (self.rank() > other.rank()),
    {
        let a_neg = self.bits >= SIGN_WEIGHT;
        let b_neg = other.bits >= SIGN_WEIGHT;
        let a: u64 = if a_neg {
            self.bits - SIGN_WEIGHT
        } else {
            self.bits
        };
        let b: u64 = if b_neg {
            other.bits - SIGN_WEIGHT
        } else {
            other.bits
        };
        if a_neg {
            b_neg && a < b
        } else if b_neg {
            a != 0 || b != 0
        } else {
            a > b
        }
    }

    /// `self <= other` as floating point has it: false where either is NaN.
    pub open spec fn at_most(self, other: Measure) -> bool {
        !self.nan() && !other.nan() && self.rank() <= other.rank()
    }

    /// Whether `self <= other`.
    pub fn le(self, other: Measure) -> (r: bool)
        ensures
            r == self.at_most(other),
    {
        !self.is_nan() && !other.is_nan() && !other.lt(self)
    }

    /// `self` without its sign.
    pub open spec fn unsigned(self) -> Measure {
        Measure { bits: magnitude(self.bits) as u64 }
    }

    /// The larger of two numbers; what is no number counts for nothing.
    pub open spec fn greater(self, other: Measure) -> Measure {
        if self.nan() || self.below(other) {
            other
        } else {
            self
        }
    }

    /// `self` without its sign.
    pub fn abs(self) -> (r: Measure)
        ensures
            r == self.unsigned(),
    {
        if self.bits >= SIGN_WEIGHT {
            Measure { bits: self.bits - SIGN_WEIGHT }
        } else {
            self
        }
    }

    /// The larger of two numbers.
    pub fn max(self, other: Measure) -> (r: Measure)
        ensures
            r == self.greater(other),
    {
        if self.is_nan() || self.lt(other) {
            other
        } else {
            self
        }
    }

    /// Forces `self` into the interval from `lo` to `hi`.
    pub fn clamp(self, lo: Measure, hi: Measure) -> (r: Measure)
        ensures
            r == self.clamped(lo, hi),
    {
        if self.lt(lo) {
            lo
        } else if hi.lt(self) {
            hi
        } else {
            self
        }
    }

    /// Forces `self` between 0 and the number with the bits `hi`; what is no number becomes 0.
    pub fn bound(self, hi: u64) -> (r: Measure)
        ensures
            r == self.bounded(hi),
    {
        if self.is_finite() {
            self.clamp(Measure { bits: BITS_0 }, Measure { bits: hi })
        } else {
            Measure { bits: BITS_0 }
        }
    }
}

proof fn lemma_fields(bits: u64)
    ensures
        magnitude(bits) == exponent(bits) * FRACTION_SPAN + fraction(bits),
        0 <= exponent(bits) < 2048,
        0 <= fraction(bits) < FRACTION_SPAN,
{
}

proof fn lemma_scaled_grows(a: u64, b: u64)
    requires
        a < b < SIGN_WEIGHT,
        (Measure { bits: b }).finite(),
    ensures
        (Measure { bits: a }).scaled() < (Measure { bits: b }).scaled(),
{
    lemma_fields(a);
    lemma_fields(b);
    let (ea, fa) = (exponent(a), fraction(a));
    let (eb, fb) = (exponent(b), fraction(b));
    let span = FRACTION_SPAN as int;
    assert(ea <= eb);
    if eb > 0 {
        lemma_pow2_pos((eb - 1) as nat);
        if ea > 0 {
            lemma_pow2_pos((ea - 1) as nat);
            if ea == eb {
                let p = pow2((ea - 1) as nat) as int;
                assert((span + fa) * p < (span + fb) * p) by (nonlinear_arith)
                    requires
                        p > 0,
                        fa < fb,
                ;
            } else {
                let p = pow2((ea - 1) as nat) as int;
                let q = pow2((eb - ea) as nat) as int;
                lemma_pow2_adds((ea - 1) as nat, (eb - ea) as nat);
                lemma_pow2_strictly_increases(0, (eb - ea) as nat);
                vstd::arithmetic::power2::lemma2_to64();
                assert((ea - 1) as nat + (eb - ea) as nat == (eb - 1) as nat);
                assert(pow2((eb - 1) as nat) == p * q);
                assert((span + fa) * p < (span + fb) * (p * q)) by (nonlinear_arith)
                    requires
                        p > 0,
                        q >= 2,
                        0 <= fa < span,
                        0 <= fb,
                ;
            }
        } else {
            let q = pow2((eb - 1) as nat) as int;
            assert((span + fb) * q >= span) by (nonlinear_arith)
                requires
                    q >= 1,
                    span > 0,
                    fb >= 0,
            ;
        }
    }
}

/// The order by rank is the order of the numbers themselves.
pub proof fn lemma_rank_orders(a: Measure, b: Measure)
    requires
        a.finite(),
        b.finite(),
    ensures
        a.below(b) <==> a.scaled() < b.scaled(),
        a.rank() == b.rank() <==> a.scaled() == b.scaled(),
{
    let x = Measure { bits: magnitude(a.bits) as u64 };
    let y = Measure { bits: magnitude(b.bits) as u64 };
    lemma_fields(a.bits);
    lemma_fields(b.bits);
    lemma_fields(x.bits);
    lemma_fields(y.bits);
    assert(exponent(x.bits) == exponent(a.bits) && fraction(x.bits) == fraction(a.bits));
    assert(exponent(y.bits) == exponent(b.bits) && fraction(y.bits) == fraction(b.bits));
    let zero = Measure { bits: 0 };
    assert(zero.scaled() == 0);
    if x.bits > 0 {
        lemma_scaled_grows(0, x.bits);
    }
    if y.bits > 0 {
        lemma_scaled_grows(0, y.bits);
    }
    if x.bits < y.bits {
        lemma_scaled_grows(x.bits, y.bits);
    } else if y.bits < x.bits {
        lemma_scaled_grows(y.bits, x.bits);
    }
}

/// The named bit patterns stand for the numbers that their names give.
pub proof fn lemma_named_values()
    ensures
        (Measure { bits: BITS_0 }).scaled() == 0,
        (Measure { bits: BITS_100 }).scaled() == 100 * pow2(1074),
        (Measure { bits: BITS_65535 }).scaled() == 65535 * pow2(1074),
        (Measure { bits: BITS_100000 }).scaled() == 100000 * pow2(1074),
        (Measure { bits: BITS_150 }).scaled() == 150 * pow2(1074),
        (Measure { bits: BITS_MINUS_40 }).scaled() == -40 * pow2(1074),
{
    vstd::arithmetic::power2::lemma2_to64_rest();
    lemma_pow2_adds(1028, 46);
    lemma_pow2_adds(1037, 37);
    lemma_pow2_adds(1038, 36);
    lemma_pow2_adds(1029, 45);
    lemma_pow2_adds(1027, 47);
    assert(exponent(BITS_100) == 1029 && fraction(BITS_100) == 0x9_0000_0000_0000);
    assert(exponent(BITS_65535) == 1038 && fraction(BITS_65535) == 0xf_ffe0_0000_0000);
    assert(exponent(BITS_100000) == 1039 && fraction(BITS_100000) == 0x8_6a00_0000_0000);
    assert(exponent(BITS_150) == 1030 && fraction(BITS_150) == 0x2_c000_0000_0000);
    assert(exponent(BITS_MINUS_40) == 1028 && fraction(BITS_MINUS_40) == 0x4_0000_0000_0000);
    assert(0x19_0000_0000_0000 * pow2(1028) == 100 * (pow2(1028) * 0x4000_0000_0000))
        by (nonlinear_arith);
    assert(0x1f_ffe0_0000_0000 * pow2(1037) == 65535 * (pow2(1037) * 0x20_0000_0000))
        by (nonlinear_arith);
    assert(0x18_6a00_0000_0000 * pow2(1038) == 100000 * (pow2(1038) * 0x10_0000_0000))
        by (nonlinear_arith);
    assert(0x12_c000_0000_0000 * pow2(1029) == 150 * (pow2(1029) * 0x2000_0000_0000))
        by (nonlinear_arith);
    assert(0x14_0000_0000_0000 * pow2(1027) == 40 * (pow2(1027) * 0x8000_0000_0000))
        by (nonlinear_arith);
}

/// A bounded number is a number, lies in its interval, and is left alone when bounded again.
pub proof fn lemma_bounded(v: Measure, hi: u64)
    requires
        (Measure { bits: hi }).finite(),
        0 <= (Measure { bits: hi }).rank(),
    ensures
        v.bounded(hi).finite(),
        0 <= v.bounded(hi).rank() <= (Measure { bits: hi }).rank(),
        v.bounded(hi).bounded(hi) == v.bounded(hi),
{
}

} // verus!
