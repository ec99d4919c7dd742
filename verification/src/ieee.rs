//! Binary floating-point numbers as bit patterns.
//!
//! Sensor values travel as single-precision numbers and thresholds as
//! double-precision ones. The library never computes with machine floats: it
//! holds the bit patterns and gives each pattern its exact mathematical value,
//! an integer count of the smallest positive double, 2^-1074. Every finite
//! double (and every finite single) is such a count, so order and equality are
//! order and equality of integers.

use vstd::arithmetic::power2::{
    lemma2_to64, lemma2_to64_rest, lemma_pow2_adds, lemma_pow2_pos, lemma_pow2_strictly_increases,
    lemma_pow2_unfold, pow2,
};
use vstd::prelude::*;

verus! {

/// 2^52: the weight of one step of a double's exponent field.
pub const EXPONENT_STEP: u64 = 0x10_0000_0000_0000;

/// The magnitude bits of a double infinity.
pub const INFINITE: u64 = 0x7ff0_0000_0000_0000;

/// The sign bit of a double.
pub const SIGN_BIT: u64 = 0x8000_0000_0000_0000;

/// The magnitude bits of the double 1.0.
pub const ONE: u64 = 0x3ff0_0000_0000_0000;

/// A single-precision number, by its bits.
#[derive(Clone, Copy, Debug, PartialEq, Eq, Structural)]
pub struct Single {
    pub bits: u32,
}

/// A double-precision number, by its bits.
#[derive(Clone, Copy, Debug, PartialEq, Eq, Structural)]
pub struct Double {
    pub bits: u64,
}

/// The value of the double whose magnitude bits are `magnitude`, in units of
/// 2^-1074. An infinity counts as 2^1024, the first power of two that no finite
/// double reaches.
pub open spec fn units(magnitude: int) -> nat {
    let exponent = magnitude / 0x10_0000_0000_0000;
    let fraction = magnitude % 0x10_0000_0000_0000;
    if exponent == 0 {
        fraction as nat
    } else {
        ((0x10_0000_0000_0000 + fraction) * pow2((exponent - 1) as nat)) as nat
    }
}

/// The value of the single whose magnitude bits are `magnitude`, in units of
/// 2^-149, the smallest positive single.
pub open spec fn single_units(magnitude: int) -> nat {
    let exponent = magnitude / 0x80_0000;
    let fraction = magnitude % 0x80_0000;
    if exponent == 0 {
        fraction as nat
    } else {
        ((0x80_0000 + fraction) * pow2((exponent - 1) as nat)) as nat
    }
}

impl Single {
    pub open spec fn magnitude(self) -> int {
        self.bits as int % 0x8000_0000
    }

    pub open spec fn negative(self) -> bool {
        self.bits >= 0x8000_0000u32
    }

    pub open spec fn finite(self) -> bool {
        self.magnitude() < 0x7f80_0000
    }

    pub open spec fn nan(self) -> bool {
        self.magnitude() > 0x7f80_0000
    }

    /// The exact value in units of 2^-1074. Meant for finite numbers.
    pub open spec fn value(self) -> int {
        let size = single_units(self.magnitude()) * pow2(925);
        if self.negative() {
            -size
        } else {
            size as int
        }
    }

    /// Whether the number is neither an infinity nor a NaN.
    pub fn is_finite(self) -> (r: bool)
        ensures
            r == self.finite(),
    {
        self.bits % 0x8000_0000u32 < 0x7f80_0000u32
    }

    /// The same number as a double. A NaN stays a NaN.
    pub fn widen(self) -> (r: Double)
        ensures
            r.nan() == self.nan(),
            r.finite() == self.finite(),
            !self.nan() ==> r.negative() == self.negative(),
            self.finite() ==> r.value() == self.value(),
    {
        let magnitude: u32 = self.bits % 0x8000_0000u32;
        let sign: u64 = if self.bits >= 0x8000_0000u32 {
            SIGN_BIT
        } else {
            0
        };
        if magnitude >= 0x7f80_0000u32 {
            if magnitude == 0x7f80_0000u32 {
                Double { bits: sign + INFINITE }
            } else {
                Double { bits: sign + INFINITE + 0x8_0000_0000_0000 }
            }
        } else {
            let wide: u64 = widen_magnitude(magnitude);
            Double { bits: sign + wide }
        }
    }
}

/// The magnitude bits of the double equal to the finite single `magnitude`.
fn widen_magnitude(magnitude: u32) -> (r: u64)
    requires
        magnitude < 0x7f80_0000,
    ensures
        r < INFINITE,
        units(r as int) == single_units(magnitude as int) * pow2(925),
{
    let exponent: u32 = magnitude / 0x80_0000u32;
    let fraction: u32 = magnitude % 0x80_0000u32;
    let ghost size = single_units(magnitude as int) * pow2(925);
    if magnitude == 0 {
        assert(0 * pow2(925) == 0) by (nonlinear_arith);
        return 0;
    }
    let mut significand: u64;
    let mut scale: u64;
    if exponent == 0 {
        significand = fraction as u64;
        scale = 925;
    } else {
        significand = 0x80_0000u64 + fraction as u64;
        scale = exponent as u64 + 924;
        proof {
            lemma_pow2_adds((exponent - 1) as nat, 925);
            let s = significand as int;
            let a = pow2((exponent - 1) as nat) as int;
            let b = pow2(925) as int;
            assert((s * a) * b == s * (a * b)) by (nonlinear_arith);
        }
    }
    let ghost top = scale as int;
    assert(pow2(0) == 1) by {
        lemma2_to64();
    }
    while significand < EXPONENT_STEP
        invariant
            0 < significand < 0x20_0000_0000_0000,
            significand * pow2(scale as nat) == size,
            925 <= top <= 1178,
            top - 52 <= scale <= top,
            significand >= pow2((top - scale) as nat),
        decreases scale,
    {
        proof {
            lemma2_to64_rest();
            let doublings = (top - scale) as nat;
            if doublings >= 52 {
                lemma_pow2_at_least(52, doublings);
            }
            lemma_pow2_unfold(doublings + 1);
            lemma_pow2_unfold(scale as nat);
            let s = significand as int;
            let p = pow2((scale - 1) as nat) as int;
            assert(s * (2 * p) == (2 * s) * p) by (nonlinear_arith);
        }
        significand = significand * 2;
        scale = scale - 1;
    }
    proof {
        lemma_units_of_parts(scale as nat, significand as nat);
    }
    scale * EXPONENT_STEP + significand
}

impl Double {
    pub open spec fn magnitude(self) -> int {
        self.bits as int % 0x8000_0000_0000_0000
    }

    pub open spec fn negative(self) -> bool {
        self.bits >= SIGN_BIT
    }

    pub open spec fn finite(self) -> bool {
        self.magnitude() < INFINITE
    }

    pub open spec fn nan(self) -> bool {
        self.magnitude() > INFINITE
    }

    /// The exact value in units of 2^-1074; an infinity counts as plus or minus
    /// 2^1024. Meant for numbers that are not NaN.
    pub open spec fn value(self) -> int {
        if self.negative() {
            -units(self.magnitude())
        } else {
            units(self.magnitude()) as int
        }
    }

    /// `self >= other` as IEEE 754 orders numbers: false where either is a NaN.
    pub open spec fn at_least(self, other: Double) -> bool {
        !self.nan() && !other.nan() && self.value() >= other.value()
    }

    pub fn is_nan(self) -> (r: bool)
        ensures
            r == self.nan(),
    {
        self.bits % SIGN_BIT > INFINITE
    }

    /// The comparison `self >= other`.
    pub fn ge(self, other: Double) -> (r: bool)
        ensures
            r == self.at_least(other),
    {
        if self.is_nan() || other.is_nan() {
            return false;
        }
        let a: u64 = self.bits % SIGN_BIT;
        let b: u64 = other.bits % SIGN_BIT;
        proof {
            lemma_units_ordered(a as int, b as int);
            lemma_units_ordered(b as int, a as int);
            lemma_units_ordered(0, a as int);
            lemma_units_ordered(0, b as int);
        }
        if self.bits < SIGN_BIT {
            other.bits >= SIGN_BIT || a >= b
        } else if other.bits < SIGN_BIT {
            a == 0 && b == 0
        } else {
            a <= b
        }
    }

    /// The comparison `self <= other`.
    pub fn le(self, other: Double) -> (r: bool)
        ensures
            r == other.at_least(self),
    {
        other.ge(self)
    }
}

pub proof fn lemma_pow2_at_least(low: nat, high: nat)
    requires
        low <= high,
    ensures
        pow2(low) <= pow2(high),
{
    if low < high {
        lemma_pow2_strictly_increases(low, high);
    }
}

/// A double whose significand is `significand` and whose unit is 2^`scale` has
/// the magnitude bits `scale * 2^52 + significand`, carry into the next exponent
/// included.
pub proof fn lemma_units_of_parts(scale: nat, significand: nat)
    requires
        significand <= 0x20_0000_0000_0000,
        scale == 0 || significand >= 0x10_0000_0000_0000,
    ensures
        units((scale * 0x10_0000_0000_0000 + significand) as int) == significand * pow2(scale),
{
    let step = 0x10_0000_0000_0000int;
    let magnitude = scale * step + significand;
    lemma2_to64();
    if significand < step {
        assert(magnitude / step == 0 && magnitude % step == significand);
        assert(significand * 1 == significand);
    } else if significand < 2 * step {
        assert(magnitude == (scale + 1) * step + (significand - step));
        assert(magnitude / step == scale + 1 && magnitude % step == significand - step);
    } else {
        assert(magnitude == (scale + 2) * step);
        assert(magnitude / step == scale + 2 && magnitude % step == 0);
        lemma_pow2_unfold(scale + 1);
        let p = pow2(scale) as int;
        assert(step * (2 * p) == (2 * step) * p) by (nonlinear_arith);
    }
}

/// The parts of a magnitude: every magnitude is `scale * 2^52 + significand`
/// with a full significand, or a scale of nothing.
pub open spec fn scale_of(magnitude: int) -> nat {
    if magnitude < 0x10_0000_0000_0000 {
        0
    } else {
        (magnitude / 0x10_0000_0000_0000 - 1) as nat
    }
}

pub proof fn lemma_units_step(magnitude: int)
    requires
        0 <= magnitude,
    ensures
        units(magnitude + 1) == units(magnitude) + pow2(scale_of(magnitude)),
        units(magnitude) < units(magnitude + 1),
{
    let scale = scale_of(magnitude);
    let significand = (magnitude - scale * 0x10_0000_0000_0000) as nat;
    lemma_units_of_parts(scale, significand);
    lemma_units_of_parts(scale, significand + 1);
    lemma_pow2_pos(scale);
    let s = significand as int;
    let p = pow2(scale) as int;
    assert((s + 1) * p == s * p + p) by (nonlinear_arith);
}

/// Magnitude bits order as the values do.
pub proof fn lemma_units_ordered(low: int, high: int)
    requires
        0 <= low,
    ensures
        low < high ==> units(low) < units(high),
        low == high ==> units(low) == units(high),
    decreases high - low,
{
    if low < high {
        lemma_units_ordered(low, high - 1);
        lemma_units_step(high - 1);
    }
}

/// A single is finite, or a NaN, by its eight exponent digits and what follows them.
pub proof fn law_singles_by_their_digits(x: Single)
    ensures
        x.finite() <==> x.bits / 0x80_0000 % 256 != 255,
        x.nan() <==> x.bits / 0x80_0000 % 256 == 255 && x.bits % 0x80_0000 != 0,
        x.negative() <==> x.bits / 0x8000_0000 == 1,
{
}

/// A double is finite, or a NaN, by its eleven exponent digits and what follows them.
pub proof fn law_doubles_by_their_digits(x: Double)
    ensures
        x.finite() <==> x.bits / 0x10_0000_0000_0000 % 2048 != 2047,
        x.nan() <==> x.bits / 0x10_0000_0000_0000 % 2048 == 2047 && x.bits
            % 0x10_0000_0000_0000 != 0,
        x.negative() <==> x.bits / 0x8000_0000_0000_0000 == 1,
{
}

/// Singles are evenly spaced as their exponent says: from one to the next of the
/// same sign it is a power of two, the sign turns the value round, and the count
/// starts at nothing.
pub proof fn law_singles_are_spaced_by_their_exponent(x: Single, next: Single, turned: Single)
    requires
        x.bits < 0x7fff_ffff,
        next.bits == x.bits + 1,
        turned.bits == x.bits + 0x8000_0000,
    ensures
        next.value() == x.value() + pow2(
            (925 + if x.bits < 0x80_0000 {
                0
            } else {
                x.bits / 0x80_0000 - 1
            }) as nat,
        ),
        turned.value() == -x.value(),
        x.bits == 0 ==> x.value() == 0,
{
    let magnitude = x.bits as int;
    let step = 0x80_0000int;
    let exponent = magnitude / step;
    let fraction = magnitude % step;
    let scale = if exponent == 0 {
        0nat
    } else {
        (exponent - 1) as nat
    };
    let s = if exponent == 0 {
        fraction
    } else {
        step + fraction
    };
    let p = pow2(scale) as int;
    let q = pow2(925) as int;
    lemma2_to64();
    lemma_pow2_adds(scale, 925);
    lemma_pow2_unfold(scale + 1);
    assert(s * 1 == s);
    assert(single_units(magnitude) == s * p);
    assert(single_units(magnitude + 1) == (s + 1) * p) by {
        if fraction + 1 < step {
            assert((magnitude + 1) / step == exponent && (magnitude + 1) % step == fraction + 1);
            assert((s + 1) * 1 == s + 1);
        } else {
            assert((magnitude + 1) / step == exponent + 1 && (magnitude + 1) % step == 0);
            if exponent > 0 {
                assert(step * (2 * p) == (s + 1) * p) by (nonlinear_arith)
                    requires
                        s + 1 == 2 * step,
                ;
            }
        }
    }
    assert((s + 1) * p * q == s * p * q + p * q) by (nonlinear_arith);
    assert(0 * p == 0 && 0 * q == 0) by (nonlinear_arith);
}

/// Doubles are evenly spaced as their exponent says: from one to the next of the
/// same sign it is a power of two, the sign turns the value round, and the count
/// starts at nothing.
pub proof fn law_doubles_are_spaced_by_their_exponent(x: Double, next: Double, turned: Double)
    requires
        x.bits < 0x7fff_ffff_ffff_ffff,
        next.bits == x.bits + 1,
        turned.bits == x.bits + 0x8000_0000_0000_0000,
    ensures
        next.value() == x.value() + pow2(
            (if x.bits < 0x10_0000_0000_0000 {
                0
            } else {
                x.bits / 0x10_0000_0000_0000 - 1
            }) as nat,
        ),
        turned.value() == -x.value(),
        x.bits == 0 ==> x.value() == 0,
        x.value() == units(x.bits as int),
{
    lemma_units_step(x.bits as int);
}

/// Comparison goes by value, and no NaN compares.
pub proof fn law_comparison_goes_by_value(a: Double, b: Double)
    ensures
        a.at_least(b) <==> !a.nan() && !b.nan() && a.value() >= b.value(),
        a.nan() || b.nan() ==> !a.at_least(b) && !b.at_least(a),
        !a.nan() && !b.nan() ==> a.at_least(b) || b.at_least(a),
{
}

} // verus!
