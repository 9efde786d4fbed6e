//! IEEE 754 values held by their bit patterns.
//!
//! Samples and control values travel through the crate as [`Single`] (binary32)
//! and [`Double`] (binary64).  Ordering, clamping and the conversion of a device
//! rate are integer operations on the patterns and are verified here; everything
//! that multiplies or adds goes through [`crate::math::AudioMath`].

use vstd::arithmetic::power2::{lemma2_to64, lemma_pow2_adds, lemma_pow2_pos, lemma_pow2_strictly_increases, pow2};
use vstd::prelude::*;

verus! {

/// The pattern of the sign bit.
pub const SIGN_BIT: u32 = 0x8000_0000;

/// The magnitude of positive infinity; every larger magnitude is a NaN.
pub const INFINITE: u32 = 0x7f80_0000;

/// The weight of one exponent step in a pattern.
pub const EXPONENT_STEP: u32 = 0x0080_0000;

/// A binary32 value.
#[derive(Clone, Copy, Debug, PartialEq, Eq, Structural)]
pub struct Single {
    pub bits: u32,
}

/// A binary64 value.
#[derive(Clone, Copy, Debug, PartialEq, Eq, Structural)]
pub struct Double {
    pub bits: u64,
}

/// The pattern of the sign bit of a binary64 value.
pub const DOUBLE_SIGN_BIT: u64 = 0x8000_0000_0000_0000;

impl Double {
    /// The place of the value in the order of all values; of values that are
    /// numbers, the smaller number comes first, and both zeros are in one place.
    pub open spec fn rank(self) -> int {
        if self.bits < DOUBLE_SIGN_BIT {
            self.bits as int
        } else {
            DOUBLE_SIGN_BIT - self.bits
        }
    }

    /// Whether `self` comes before `other`.
    pub fn precedes(self, other: Double) -> (r: bool)
        ensures
            r == (self.rank() < other.rank()),
    {
        if self.bits < DOUBLE_SIGN_BIT {
            other.bits < DOUBLE_SIGN_BIT && self.bits < other.bits
        } else if other.bits < DOUBLE_SIGN_BIT {
            self.bits > DOUBLE_SIGN_BIT || other.bits > 0
        } else {
            self.bits > other.bits
        }
    }
}

/// The pattern of the binary32 number one: full scale, unity gain, normal speed.
pub const ONE: u32 = 0x3f80_0000;

/// The pattern of the binary32 number minus one: full scale of the other sign.
pub const MINUS_ONE: u32 = 0xbf80_0000;

/// Every smaller natural number fits a binary32 significand of 24 bits.
pub const SIGNIFICAND_LIMIT: u32 = 0x0100_0000;

/// A sample of silence.
pub open spec fn silent() -> Single {
    Single { bits: 0 }
}

/// The double zero, the origin of every stream.
pub open spec fn origin() -> Double {
    Double { bits: 0 }
}

/// The number of low bits of `v` for which a binary32 significand has no room.
pub open spec fn excess_bits(v: nat) -> nat
    decreases v,
{
    if v < SIGNIFICAND_LIMIT {
        0
    } else {
        1 + excess_bits(v / 2)
    }
}

/// `v` rounded to the nearest multiple of two to the power of
/// `excess_bits(v)`, a tie to the even multiple: the integer that a binary32
/// value made from `v` holds.
pub open spec fn rounded(v: nat) -> nat {
    let unit = pow2(excess_bits(v));
    let low = v / unit;
    let rest = v % unit;
    if 2 * rest > unit || (2 * rest == unit && low % 2 == 1) {
        (low + 1) * unit
    } else {
        low * unit
    }
}

impl Single {
    /// The pattern without its sign bit.
    pub open spec fn magnitude(self) -> int {
        if self.bits >= SIGN_BIT {
            self.bits - SIGN_BIT
        } else {
            self.bits as int
        }
    }

    pub open spec fn nan(self) -> bool {
        self.magnitude() > INFINITE
    }

    pub open spec fn finite(self) -> bool {
        self.magnitude() < INFINITE
    }

    /// The position of a number in the order of all numbers; the two zeros
    /// share a position.
    pub open spec fn rank(self) -> int {
        if self.bits >= SIGN_BIT {
            -self.magnitude()
        } else {
            self.magnitude()
        }
    }

    /// `self < other`: false as soon as one side is a NaN.
    pub open spec fn less(self, other: Single) -> bool {
        !self.nan() && !other.nan() && self.rank() < other.rank()
    }

    /// `self <= other`: false as soon as one side is a NaN.
    pub open spec fn at_most(self, other: Single) -> bool {
        !self.nan() && !other.nan() && self.rank() <= other.rank()
    }

    /// `self` moved into `low..=high`; a NaN stays as it is.
    pub open spec fn clamped(self, low: Single, high: Single) -> Single {
        if self.less(low) {
            low
        } else if high.less(self) {
            high
        } else {
            self
        }
    }

    /// The absolute value of a finite number in units of the smallest positive
    /// one, which is two to the power of minus 149.
    pub open spec fn steps(self) -> nat {
        let exponent = self.magnitude() / (EXPONENT_STEP as int);
        let fraction = self.magnitude() % (EXPONENT_STEP as int);
        if exponent == 0 {
            fraction as nat
        } else {
            ((fraction + EXPONENT_STEP) * pow2((exponent - 1) as nat)) as nat
        }
    }

    /// A finite number in the units of [`Single::steps`].
    pub open spec fn value(self) -> int {
        if self.bits >= SIGN_BIT {
            -(self.steps() as int)
        } else {
            self.steps() as int
        }
    }

    pub fn magnitude_bits(self) -> (r: u32)
        ensures
            r == self.magnitude(),
    {
        if self.bits >= SIGN_BIT {
            self.bits - SIGN_BIT
        } else {
            self.bits
        }
    }

    pub fn is_nan(self) -> (r: bool)
        ensures
            r == self.nan(),
    {
        self.magnitude_bits() > INFINITE
    }

    pub fn lt(self, other: Single) -> (r: bool)
        ensures
            r == self.less(other),
    {
        let left: u32 = self.magnitude_bits();
        let right: u32 = other.magnitude_bits();
        if left > INFINITE || right > INFINITE {
            false
        } else if self.bits >= SIGN_BIT {
            if other.bits >= SIGN_BIT {
                left > right
            } else {
                left > 0 || right > 0
            }
        } else {
            other.bits < SIGN_BIT && left < right
        }
    }

    pub fn le(self, other: Single) -> (r: bool)
        ensures
            r == self.at_most(other),
    {
        !self.is_nan() && !other.is_nan() && !other.lt(self)
    }

    /// Moves the value into `low..=high`.
    pub fn clamp(self, low: Single, high: Single) -> (r: Single)
        requires
            low.at_most(high),
        ensures
            r == self.clamped(low, high),
    {
        if self.lt(low) {
            low
        } else if high.lt(self) {
            high
        } else {
            self
        }
    }

    /// The value of the unsigned integer `v`, rounded to nearest.
    pub fn from_u32(v: u32) -> (r: Single)
        ensures
            r.bits < SIGN_BIT,
            r.finite(),
            r.steps() == rounded(v as nat) * pow2(149),
            v > 0 ==> r.bits >= ONE,
            v == 0 ==> r.bits == 0,
    {
        proof {
            lemma2_to64();
        }
        if v == 0 {
            assert(excess_bits(0) == 0);
            assert(rounded(0) == 0);
            assert(rounded(0) * pow2(149) == 0) by (nonlinear_arith)
                requires
                    rounded(0) == 0,
            ;
            return Single { bits: 0 };
        }
        let mut low: u32 = v;
        let mut unit: u32 = 1;
        let mut field: u32 = 150;
        while low >= SIGNIFICAND_LIMIT
            invariant
                0 < low <= v,
                150 <= field <= 158,
                unit == pow2((field - 150) as nat),
                1 <= unit <= 256,
                field > 150 ==> low >= EXPONENT_STEP,
                low == (v as nat) / (unit as nat),
                excess_bits(v as nat) == (field - 150) + excess_bits(low as nat),
                low < pow2((182 - field) as nat),
                pow2(24) == SIGNIFICAND_LIMIT,
                pow2(1) == 2,
            decreases low,
        {
            proof {
                lemma_pow2_adds((field - 150) as nat, 1);
                vstd::arithmetic::div_mod::lemma_div_denominator(v as int, unit as int, 2);
                lemma_pow2_adds((181 - field) as nat, 1);
                assert(field < 158) by {
                    if field == 158 {
                        assert(low < pow2(24));
                    }
                }
                lemma_pow2_strictly_increases((field - 150) as nat, 8);
                lemma2_to64();
            }
            low = low / 2;
            unit = unit * 2;
            field = field + 1;
        }
        let rest: u32 = v % unit;
        let mut digits: u32 = low;
        if 2 * rest > unit || (2 * rest == unit && low % 2 == 1) {
            digits = low + 1;
        }
        proof {
            assert(digits * unit == rounded(v as nat));
            lemma_pow2_adds((field - 150) as nat, 149);
            assert(digits * pow2((field - 1) as nat) == rounded(v as nat) * pow2(149)) by (nonlinear_arith)
                requires
                    digits * unit == rounded(v as nat),
                    pow2((field - 1) as nat) == unit * pow2(149),
            ;
        }
        if digits == SIGNIFICAND_LIMIT {
            proof {
                lemma_pow2_adds(1, (field - 1) as nat);
                assert(EXPONENT_STEP * pow2(field as nat) == digits * pow2((field - 1) as nat)) by (nonlinear_arith)
                    requires
                        digits == 2 * EXPONENT_STEP,
                        pow2(field as nat) == 2 * pow2((field - 1) as nat),
                ;
            }
            digits = EXPONENT_STEP;
            field = field + 1;
        }
        while digits < EXPONENT_STEP
            invariant
                0 < digits < SIGNIFICAND_LIMIT,
                127 <= field <= 159,
                field > 150 ==> digits >= EXPONENT_STEP,
                field <= 150 ==> digits >= pow2((150 - field) as nat),
                digits * pow2((field - 1) as nat) == rounded(v as nat) * pow2(149),
                pow2(23) == EXPONENT_STEP,
                pow2(1) == 2,
            decreases SIGNIFICAND_LIMIT - digits,
        {
            proof {
                lemma_pow2_adds((150 - field) as nat, 1);
                lemma_pow2_adds((field - 2) as nat, 1);
                assert(field > 127) by {
                    if field == 127 {
                        assert(digits >= pow2(23));
                    }
                }
                assert((2 * digits) * pow2((field - 2) as nat) == digits * pow2((field - 1) as nat)) by (nonlinear_arith)
                    requires
                        pow2((field - 1) as nat) == 2 * pow2((field - 2) as nat),
                ;
            }
            digits = digits * 2;
            field = field - 1;
        }
        let bits: u32 = field * EXPONENT_STEP + (digits - EXPONENT_STEP);
        proof {
            assert(bits / EXPONENT_STEP == field && bits % EXPONENT_STEP == digits - EXPONENT_STEP) by (nonlinear_arith)
                requires
                    bits == field * EXPONENT_STEP + (digits - EXPONENT_STEP),
                    0 <= digits - EXPONENT_STEP < EXPONENT_STEP,
                    EXPONENT_STEP == 0x0080_0000,
            ;
        }
        Single { bits }
    }

    /// Half of a positive normal number.
    pub fn half(self) -> (r: Single)
        requires
            2 * EXPONENT_STEP <= self.bits < INFINITE,
        ensures
            r.bits < SIGN_BIT,
            r.finite(),
            2 * r.steps() == self.steps(),
    {
        proof {
            let exponent = self.magnitude() / (EXPONENT_STEP as int);
            lemma2_to64();
            lemma_pow2_adds((exponent - 2) as nat, 1);
            let fraction = self.magnitude() % (EXPONENT_STEP as int);
            assert(2 * ((fraction + EXPONENT_STEP) * pow2((exponent - 2) as nat)) == (fraction + EXPONENT_STEP)
                * pow2((exponent - 1) as nat)) by (nonlinear_arith)
                requires
                    pow2((exponent - 1) as nat) == 2 * pow2((exponent - 2) as nat),
            ;
        }
        Single { bits: self.bits - EXPONENT_STEP }
    }
}

/// A larger magnitude is a larger absolute value.
proof fn lemma_steps_increase(a: Single, b: Single)
    requires
        a.magnitude() < b.magnitude(),
    ensures
        a.steps() < b.steps(),
{
    let unit = EXPONENT_STEP as int;
    let ea = a.magnitude() / unit;
    let fa = a.magnitude() % unit;
    let eb = b.magnitude() / unit;
    let fb = b.magnitude() % unit;
    lemma2_to64();
    if ea == eb {
        if ea > 0 {
            lemma_pow2_pos((ea - 1) as nat);
            assert((fa + unit) * pow2((ea - 1) as nat) < (fb + unit) * pow2((ea - 1) as nat)) by (nonlinear_arith)
                requires
                    fa < fb,
                    pow2((ea - 1) as nat) > 0,
            ;
        }
    } else {
        lemma_pow2_pos((eb - 1) as nat);
        assert(unit * pow2((eb - 1) as nat) <= (fb + unit) * pow2((eb - 1) as nat)) by (nonlinear_arith)
            requires
                fb >= 0,
                pow2((eb - 1) as nat) > 0,
        ;
        if ea == 0 {
            assert(unit <= unit * pow2((eb - 1) as nat)) by (nonlinear_arith)
                requires
                    unit > 0,
                    pow2((eb - 1) as nat) > 0,
            ;
        } else {
            lemma_pow2_adds((ea - 1) as nat, 1);
            lemma_pow2_pos((ea - 1) as nat);
            if ea < eb - 1 {
                lemma_pow2_strictly_increases(ea as nat, (eb - 1) as nat);
            }
            assert((fa + unit) * pow2((ea - 1) as nat) < unit * pow2((eb - 1) as nat)) by (nonlinear_arith)
                requires
                    0 <= fa < unit,
                    2 * pow2((ea - 1) as nat) <= pow2((eb - 1) as nat),
                    pow2((ea - 1) as nat) > 0,
            ;
        }
    }
}

/// The order on patterns is the order of the numbers they stand for.
pub proof fn order_agrees_with_value(a: Single, b: Single)
    requires
        a.finite(),
        b.finite(),
    ensures
        a.less(b) <==> a.value() < b.value(),
        a.at_most(b) <==> a.value() <= b.value(),
{
    if a.magnitude() < b.magnitude() {
        lemma_steps_increase(a, b);
    }
    if b.magnitude() < a.magnitude() {
        lemma_steps_increase(b, a);
    }
    let zero = Single { bits: 0 };
    if a.magnitude() > 0 {
        lemma_steps_increase(zero, a);
    }
    if b.magnitude() > 0 {
        lemma_steps_increase(zero, b);
    }
}

/// A clamped number lies between the bounds, and clamping again changes nothing.
pub proof fn clamping_is_idempotent(x: Single, low: Single, high: Single)
    requires
        low.at_most(high),
    ensures
        x.nan() || (low.at_most(x.clamped(low, high)) && x.clamped(low, high).at_most(high)),
        x.clamped(low, high).clamped(low, high) == x.clamped(low, high),
{
}

} // verus!
