//! Arithmetic on doubles, by the IEEE 754 rule: the exact result, rounded to
//! the nearest representable number, ties to the even one.

use crate::ieee::{
    lemma_pow2_at_least, lemma_units_of_parts, lemma_units_ordered, lemma_units_step, scale_of,
    units, EXPONENT_STEP, INFINITE, ONE,
};
use vstd::arithmetic::power2::{
    lemma2_to64, lemma2_to64_rest, lemma_pow2_adds, lemma_pow2_pos, lemma_pow2_unfold, pow2,
};
use vstd::prelude::*;

verus! {

/// How far the double with the given magnitude bits lies from
/// `numerator / denominator`, in units of 2^-1074, times the denominator.
pub open spec fn distance(numerator: nat, denominator: nat, magnitude: int) -> int {
    let gap = denominator * units(magnitude) - numerator;
    if gap < 0 {
        -gap
    } else {
        gap
    }
}

/// Whether `magnitude` is the correctly rounded double of
/// `numerator / denominator` (in units of 2^-1074): every other double, the
/// infinity among them, is farther away, or as far and `magnitude` is even.
pub open spec fn is_nearest(numerator: nat, denominator: nat, magnitude: int) -> bool {
    &&& 0 <= magnitude <= INFINITE
    &&& forall|other: int|
        0 <= other <= INFINITE && other != magnitude ==> {
            ||| distance(numerator, denominator, magnitude) < #[trigger] distance(
                numerator,
                denominator,
                other,
            )
            ||| distance(numerator, denominator, magnitude) == distance(
                numerator,
                denominator,
                other,
            ) && magnitude % 2 == 0
        }
}

/// The magnitude bits of the correctly rounded double of
/// `numerator / denominator`, in units of 2^-1074.
pub open spec fn nearest(numerator: nat, denominator: nat) -> u64 {
    choose|r: u64| is_nearest(numerator, denominator, r as int)
}

/// No quotient rounds to two different doubles.
pub proof fn law_rounding_is_unique(numerator: nat, denominator: nat, a: int, b: int)
    requires
        denominator > 0,
        is_nearest(numerator, denominator, a),
        is_nearest(numerator, denominator, b),
    ensures
        a == b,
{
    if a != b {
        let low = if a < b { a } else { b };
        let high = if a < b { b } else { a };
        assert(distance(numerator, denominator, low) == distance(numerator, denominator, high));
        assert(low % 2 == 0 && high % 2 == 0);
        let middle = low + 1;
        lemma_units_ordered(low, middle);
        lemma_units_ordered(middle, high);
        let d = denominator as int;
        let l = units(low) as int;
        let m = units(middle) as int;
        let h = units(high) as int;
        assert(d * l < d * m && d * m < d * h) by (nonlinear_arith)
            requires
                d > 0,
                l < m,
                m < h,
        ;
        assert(distance(numerator, denominator, middle) < distance(numerator, denominator, low));
    }
}

proof fn lemma_nearest_is(numerator: nat, denominator: nat, r: u64)
    requires
        denominator > 0,
        is_nearest(numerator, denominator, r as int),
    ensures
        nearest(numerator, denominator) == r,
{
    law_rounding_is_unique(
        numerator,
        denominator,
        nearest(numerator, denominator) as int,
        r as int,
    );
}

/// Between two neighbours the nearer one is the nearest of all.
proof fn lemma_nearest_between(numerator: nat, denominator: nat, floor: int, up: bool)
    requires
        denominator > 0,
        0 <= floor < INFINITE,
        denominator * units(floor) <= numerator <= denominator * units(floor + 1),
        ({
            let twice = 2 * numerator;
            let middle = denominator * units(floor) + denominator * units(floor + 1);
            &&& twice < middle ==> !up
            &&& twice > middle ==> up
            &&& twice == middle ==> up == (floor % 2 != 0)
        }),
    ensures
        is_nearest(
            numerator,
            denominator,
            if up {
                floor + 1
            } else {
                floor
            },
        ),
{
    let r = if up { floor + 1 } else { floor };
    let d = denominator as int;
    lemma_units_step(floor);
    assert forall|other: int| 0 <= other <= INFINITE && other != r implies {
        ||| distance(numerator, denominator, r) < #[trigger] distance(numerator, denominator, other)
        ||| distance(numerator, denominator, r) == distance(numerator, denominator, other) && r % 2
            == 0
    } by {
        lemma_units_ordered(other, floor);
        lemma_units_ordered(floor + 1, other);
        let u = units(other) as int;
        let l = units(floor) as int;
        let h = units(floor + 1) as int;
        assert(other < floor ==> d * u < d * l) by (nonlinear_arith)
            requires
                d > 0,
                other < floor ==> u < l,
        ;
        assert(floor + 1 < other ==> d * h < d * u) by (nonlinear_arith)
            requires
                d > 0,
                floor + 1 < other ==> h < u,
        ;
        assert(d * l < d * h) by (nonlinear_arith)
            requires
                d > 0,
                l < h,
        ;
    }
}

/// At or beyond 2^1024 the nearest double is the infinity.
proof fn lemma_nearest_infinite(numerator: nat, denominator: nat)
    requires
        denominator > 0,
        denominator * units(INFINITE as int) <= numerator,
    ensures
        is_nearest(numerator, denominator, INFINITE as int),
{
    let d = denominator as int;
    assert forall|other: int| 0 <= other <= INFINITE && other != INFINITE as int implies distance(
        numerator,
        denominator,
        INFINITE as int,
    ) < #[trigger] distance(numerator, denominator, other) by {
        lemma_units_ordered(other, INFINITE as int);
        let u = units(other) as int;
        let h = units(INFINITE as int) as int;
        assert(d * u < d * h) by (nonlinear_arith)
            requires
                d > 0,
                u < h,
        ;
    }
}

/// A double is its own rounding.
pub proof fn law_rounding_keeps_doubles(denominator: nat, magnitude: int)
    requires
        denominator > 0,
        0 <= magnitude < INFINITE,
    ensures
        nearest((denominator * units(magnitude)) as nat, denominator) == magnitude,
{
    lemma_units_step(magnitude);
    let d = denominator as int;
    let l = units(magnitude) as int;
    let h = units(magnitude + 1) as int;
    assert(d * l < d * h) by (nonlinear_arith)
        requires
            d > 0,
            l < h,
    ;
    lemma_nearest_between((denominator * units(magnitude)) as nat, denominator, magnitude, false);
    lemma_nearest_is((denominator * units(magnitude)) as nat, denominator, magnitude as u64);
}

proof fn lemma_pow2_120()
    ensures
        pow2(0) == 1,
        pow2(52) == 0x10_0000_0000_0000,
        pow2(53) == 0x20_0000_0000_0000,
        pow2(60) == 0x1000_0000_0000_0000,
        pow2(120) == 0x1000_0000_0000_0000 * 0x1000_0000_0000_0000,
{
    lemma2_to64();
    lemma2_to64_rest();
    lemma_pow2_adds(60, 60);
}

fn power_of_two(exponent: i64) -> (r: u128)
    requires
        0 <= exponent <= 120,
    ensures
        r == pow2(exponent as nat),
{
    let mut power: u128 = 1;
    let mut done: i64 = 0;
    proof {
        lemma_pow2_120();
    }
    while done < exponent
        invariant
            0 <= done <= exponent <= 120,
            power == pow2(done as nat),
        decreases exponent - done,
    {
        proof {
            lemma_pow2_120();
            lemma_pow2_at_least((done + 1) as nat, 120);
            lemma_pow2_unfold((done + 1) as nat);
        }
        power = power * 2;
        done = done + 1;
    }
    power
}

/// The number of binary digits of `value`.
fn bit_length(value: u128) -> (r: i64)
    requires
        value < pow2(120),
    ensures
        0 <= r <= 120,
        value < pow2(r as nat),
        value > 0 ==> r > 0 && value >= pow2((r - 1) as nat),
{
    let mut power: u128 = 1;
    let mut digits: i64 = 0;
    proof {
        lemma_pow2_120();
    }
    while power <= value
        invariant
            value < pow2(120),
            0 <= digits <= 120,
            power == pow2(digits as nat),
            digits > 0 ==> value >= pow2((digits - 1) as nat),
        decreases 120 - digits,
    {
        proof {
            lemma_pow2_120();
            if digits == 120 {
                assert(false);
            }
            lemma_pow2_at_least((digits + 1) as nat, 120);
            lemma_pow2_unfold((digits + 1) as nat);
        }
        power = power * 2;
        digits = digits + 1;
    }
    digits
}

/// Whether `numerator / denominator` is `kept * 2^scale`, or, where `more` says
/// that something was cut off, lies strictly between that and
/// `(kept + 1) * 2^scale`. Both sides are scaled up so that no exponent is
/// negative.
spec fn stands_for(kept: nat, more: bool, scale: int, numerator: nat, denominator: nat) -> bool {
    let exact = numerator * pow2(3000);
    let unit = denominator * pow2((scale + 3000) as nat);
    if more {
        kept * unit < exact < (kept + 1) * unit
    } else {
        exact == kept * unit
    }
}

/// Cutting `cut` more digits off: how the cut part decides the rounding.
proof fn lemma_cut(
    kept: nat,
    more: bool,
    scale: int,
    cut: nat,
    numerator: nat,
    denominator: nat,
    quotient: nat,
    rest: nat,
    up: bool,
)
    requires
        denominator > 0,
        -3000 <= scale,
        cut >= 1,
        scale + cut >= 0,
        stands_for(kept, more, scale, numerator, denominator),
        kept == quotient * pow2(cut) + rest,
        rest < pow2(cut),
        quotient < 0x20_0000_0000_0000,
        scale + cut == 0 || quotient >= 0x10_0000_0000_0000,
        scale + cut <= 2045,
        ({
            let half = pow2((cut - 1) as nat);
            &&& rest > half ==> up
            &&& rest < half ==> !up
            &&& rest == half && more ==> up
            &&& rest == half && !more ==> up == (quotient % 2 != 0)
        }),
    ensures
        ({
            let floor = (scale + cut) * 0x10_0000_0000_0000 + quotient;
            is_nearest(
                numerator,
                denominator,
                if up {
                    floor + 1
                } else {
                    floor
                },
            )
        }),
{
    let grain = (scale + cut) as nat;
    let floor = grain * 0x10_0000_0000_0000 + quotient;
    let half = pow2((cut - 1) as nat) as int;
    let whole = pow2(cut) as int;
    let big = pow2(3000) as int;
    let w = pow2((scale + 3000) as nat) as int;
    let g = pow2(grain) as int;
    let d = denominator as int;
    let n = numerator as int;
    let q = quotient as int;
    let unit = d * w;
    lemma_pow2_unfold(cut);
    lemma_pow2_pos(3000);
    lemma_pow2_pos((scale + 3000) as nat);
    lemma_pow2_adds(grain, 3000);
    lemma_pow2_adds(cut, (scale + 3000) as nat);
    assert(g * big == whole * w);
    lemma_units_of_parts(grain, quotient);
    lemma_units_of_parts(grain, quotient + 1);
    let low = d * units(floor as int);
    let high = d * units(floor as int + 1);
    assert(low * big == q * whole * unit) by (nonlinear_arith)
        requires
            low == d * (q * g),
            g * big == whole * w,
            unit == d * w,
    ;
    assert(high * big == (q + 1) * whole * unit) by (nonlinear_arith)
        requires
            high == d * ((q + 1) * g),
            g * big == whole * w,
            unit == d * w,
    ;
    let e = n * big;
    let k = kept as int;
    let r = rest as int;
    assert(unit > 0) by (nonlinear_arith)
        requires
            unit == d * w,
            d > 0,
            w > 0,
    ;
    assert(k * unit == q * whole * unit + r * unit) by (nonlinear_arith)
        requires
            k == q * whole + r,
    ;
    assert((k + 1) * unit == k * unit + unit) by (nonlinear_arith);
    assert((q + 1) * whole * unit == q * whole * unit + 2 * (half * unit)) by (nonlinear_arith)
        requires
            whole == 2 * half,
    ;
    assert(r > half ==> r * unit >= half * unit + unit) by (nonlinear_arith)
        requires
            unit > 0,
    ;
    assert(r < half ==> r * unit + unit <= half * unit) by (nonlinear_arith)
        requires
            unit > 0,
    ;
    assert(r < whole ==> r * unit + unit <= 2 * (half * unit)) by (nonlinear_arith)
        requires
            unit > 0,
            whole == 2 * half,
    ;
    assert(0 <= r * unit) by (nonlinear_arith)
        requires
            unit > 0,
            r >= 0,
    ;
    assert(low * big <= e <= high * big);
    assert(2 * e < low * big + high * big ==> !up);
    assert(2 * e > low * big + high * big ==> up);
    assert(2 * e == low * big + high * big ==> up == (q % 2 != 0));
    assert(low <= n && n <= high) by (nonlinear_arith)
        requires
            low * big <= n * big,
            n * big <= high * big,
            big > 0,
    ;
    assert(2 * n < low + high ==> 2 * (n * big) < low * big + high * big) by (nonlinear_arith)
        requires
            big > 0,
    ;
    assert(2 * n > low + high ==> 2 * (n * big) > low * big + high * big) by (nonlinear_arith)
        requires
            big > 0,
    ;
    assert(2 * n == low + high ==> 2 * (n * big) == low * big + high * big) by (nonlinear_arith);
    assert(floor % 2 == q % 2);
    lemma_nearest_between(numerator, denominator, floor as int, up);
}

/// Nothing to cut off: the number is a double already.
proof fn lemma_fits(
    kept: nat,
    scale: int,
    pad: nat,
    numerator: nat,
    denominator: nat,
    significand: nat,
)
    requires
        denominator > 0,
        -3000 <= scale,
        0 <= scale - pad <= 2045,
        stands_for(kept, false, scale, numerator, denominator),
        significand == kept * pow2(pad),
        significand < 0x20_0000_0000_0000,
        scale - pad == 0 || significand >= 0x10_0000_0000_0000,
    ensures
        is_nearest(
            numerator,
            denominator,
            (scale - pad) * 0x10_0000_0000_0000 + significand,
        ),
{
    let grain = (scale - pad) as nat;
    let floor = grain * 0x10_0000_0000_0000 + significand;
    let big = pow2(3000) as int;
    let w = pow2((scale + 3000) as nat) as int;
    let g = pow2(grain) as int;
    let p = pow2(pad) as int;
    let d = denominator as int;
    let n = numerator as int;
    let k = kept as int;
    let s = significand as int;
    lemma_pow2_pos(3000);
    lemma_pow2_adds(grain, 3000);
    lemma_pow2_adds(pad, grain + 3000);
    assert(w == p * (g * big));
    lemma_units_of_parts(grain, significand);
    lemma_units_step(floor as int);
    assert(n == d * (s * g)) by (nonlinear_arith)
        requires
            n * big == k * (d * w),
            w == p * (g * big),
            s == k * p,
            big > 0,
    ;
    let l = units(floor as int) as int;
    let h = units(floor as int + 1) as int;
    assert(d * l < d * h) by (nonlinear_arith)
        requires
            d > 0,
            l < h,
    ;
    lemma_nearest_between(numerator, denominator, floor as int, false);
}

proof fn lemma_overflows(
    kept: nat,
    more: bool,
    scale: int,
    digits: int,
    numerator: nat,
    denominator: nat,
)
    requires
        denominator > 0,
        -3000 <= scale,
        1 <= digits,
        kept >= pow2((digits - 1) as nat),
        scale + digits - 53 >= 2046,
        stands_for(kept, more, scale, numerator, denominator),
    ensures
        is_nearest(numerator, denominator, INFINITE as int),
{
    let big = pow2(3000) as int;
    let w = pow2((scale + 3000) as nat) as int;
    let t = pow2((digits - 1) as nat) as int;
    let d = denominator as int;
    let n = numerator as int;
    let k = kept as int;
    lemma_pow2_pos(3000);
    lemma_pow2_pos((scale + 3000) as nat);
    lemma_pow2_120();
    lemma_pow2_adds(52, 2046);
    lemma_units_of_parts(2045, 0x20_0000_0000_0000);
    lemma_pow2_unfold(2046);
    let u = units(INFINITE as int) as int;
    assert(u == pow2(2098)) by {
        let p = pow2(2045) as int;
        assert(0x20_0000_0000_0000 * p == 0x10_0000_0000_0000 * (2 * p)) by (nonlinear_arith);
    }
    lemma_pow2_adds(2098, 3000);
    lemma_pow2_adds((digits - 1) as nat, (scale + 3000) as nat);
    lemma_pow2_at_least(5098, (digits - 1 + scale + 3000) as nat);
    assert(u * big <= t * w);
    assert(d * u <= n) by (nonlinear_arith)
        requires
            u * big <= t * w,
            t <= k,
            k * (d * w) <= n * big,
            d > 0,
            w > 0,
            big > 0,
    ;
    lemma_nearest_infinite(numerator, denominator);
}

/// Rounds `kept * 2^scale` (and a little more, where `more` holds).
fn round(
    kept: u128,
    more: bool,
    scale: i64,
    Ghost(numerator): Ghost<nat>,
    Ghost(denominator): Ghost<nat>,
) -> (r: u64)
    requires
        denominator > 0,
        kept < pow2(120),
        -3000 <= scale <= 5000,
        more ==> kept >= pow2(53),
        stands_for(kept as nat, more, scale as int, numerator, denominator),
    ensures
        r <= INFINITE,
        r == nearest(numerator, denominator),
        is_nearest(numerator, denominator, r as int),
{
    proof {
        lemma_pow2_120();
    }
    let digits: i64 = bit_length(kept);
    let grain: i64 = if scale + digits - 53 > 0 {
        scale + digits - 53
    } else {
        0
    };
    let r: u64;
    if kept == 0 {
        proof {
            let big = pow2(3000) as int;
            let n = numerator as int;
            lemma_pow2_pos(3000);
            assert(0 * (denominator * pow2((scale + 3000) as nat)) == 0) by (nonlinear_arith);
            assert(n == 0) by (nonlinear_arith)
                requires
                    n * big == 0,
                    big > 0,
            ;
            assert(denominator * units(0) == 0) by (nonlinear_arith)
                requires
                    units(0) == 0,
            ;
            law_rounding_keeps_doubles(denominator, 0);
            lemma_units_step(0);
            assert(denominator * units(1) >= 1) by (nonlinear_arith)
                requires
                    denominator > 0,
                    units(1) > 0,
            ;
            lemma_nearest_between(numerator, denominator, 0, false);
        }
        r = 0;
    } else if grain >= 2046 {
        proof {
            assert(kept * (denominator * pow2((scale + 3000) as nat)) <= numerator * pow2(3000));
            lemma_overflows(
                kept as nat,
                more,
                scale as int,
                digits as int,
                numerator,
                denominator,
            );
        }
        r = INFINITE;
    } else if grain <= scale {
        let pad: i64 = scale - grain;
        proof {
            if more {
                if digits <= 53 {
                    lemma_pow2_at_least(digits as nat, 53);
                }
                assert(false);
            }
        }
        let padding: u128 = power_of_two(pad);
        proof {
            let k = kept as int;
            let p = padding as int;
            lemma_pow2_adds(digits as nat, pad as nat);
            lemma_pow2_at_least((digits + pad) as nat, 53);
            let t = pow2(digits as nat) as int;
            lemma_pow2_pos(pad as nat);
            assert(k * p < t * p) by (nonlinear_arith)
                requires
                    k < t,
                    p > 0,
            ;
            if grain > 0 {
                lemma_pow2_adds((digits - 1) as nat, pad as nat);
                let s = pow2((digits - 1) as nat) as int;
                assert(k * p >= s * p) by (nonlinear_arith)
                    requires
                        k >= s,
                        p > 0,
                ;
            }
        }
        let significand: u128 = kept * padding;
        proof {
            lemma_fits(
                kept as nat,
                scale as int,
                pad as nat,
                numerator,
                denominator,
                significand as nat,
            );
        }
        r = grain as u64 * EXPONENT_STEP + significand as u64;
    } else {
        let cut: i64 = grain - scale;
        if cut > 120 {
            proof {
                lemma_pow2_at_least(120, (cut - 1) as nat);
                lemma_pow2_unfold(cut as nat);
                lemma_pow2_pos(cut as nat);
                assert(0 * pow2(cut as nat) == 0) by (nonlinear_arith);
                lemma_cut(
                    kept as nat,
                    more,
                    scale as int,
                    cut as nat,
                    numerator,
                    denominator,
                    0,
                    kept as nat,
                    false,
                );
            }
            r = 0;
        } else {
            let whole: u128 = power_of_two(cut);
            let half: u128 = power_of_two(cut - 1);
            proof {
                lemma_pow2_pos(cut as nat);
            }
            let quotient: u128 = kept / whole;
            let rest: u128 = kept % whole;
            proof {
                let k = kept as int;
                let w = whole as int;
                let q = quotient as int;
                vstd::arithmetic::div_mod::lemma_fundamental_div_mod(k, w);
                assert(k == q * w + rest) by (nonlinear_arith)
                    requires
                        k == w * q + rest,
                ;
                if digits <= cut {
                    lemma_pow2_at_least(digits as nat, cut as nat);
                    assert(q == 0) by (nonlinear_arith)
                        requires
                            k == q * w + rest,
                            k < w,
                            q >= 0,
                            rest >= 0,
                            w > 0,
                    ;
                } else {
                    lemma_pow2_adds((digits - cut) as nat, cut as nat);
                    lemma_pow2_at_least((digits - cut) as nat, 53);
                    let t = pow2((digits - cut) as nat) as int;
                    assert(q < t) by (nonlinear_arith)
                        requires
                            k == q * w + rest,
                            k < t * w,
                            rest >= 0,
                            w > 0,
                    ;
                }
                if grain > 0 {
                    lemma_pow2_adds(52, cut as nat);
                    let s = pow2(52) as int;
                    assert(q >= s) by (nonlinear_arith)
                        requires
                            k == q * w + rest,
                            k >= s * w,
                            rest < w,
                            w > 0,
                    ;
                }
            }
            let up: bool = rest > half || (rest == half && (more || quotient % 2 != 0));
            proof {
                lemma_cut(
                    kept as nat,
                    more,
                    scale as int,
                    cut as nat,
                    numerator,
                    denominator,
                    quotient as nat,
                    rest as nat,
                    up,
                );
            }
            let floor: u64 = grain as u64 * EXPONENT_STEP + quotient as u64;
            r = if up {
                floor + 1
            } else {
                floor
            };
        }
    }
    proof {
        lemma_nearest_is(numerator, denominator, r);
    }
    r
}

/// The significand and the scale of a finite magnitude.
fn parts(magnitude: u64) -> (r: (u64, i64))
    requires
        magnitude < INFINITE,
    ensures
        r.0 < 0x20_0000_0000_0000,
        r.1 == scale_of(magnitude as int),
        0 <= r.1 <= 2045,
        r.1 == 0 || r.0 >= 0x10_0000_0000_0000,
        units(magnitude as int) == r.0 * pow2(r.1 as nat),
{
    let significand: u64;
    let scale: i64;
    if magnitude < EXPONENT_STEP {
        significand = magnitude;
        scale = 0;
    } else {
        significand = magnitude % EXPONENT_STEP + EXPONENT_STEP;
        scale = (magnitude / EXPONENT_STEP) as i64 - 1;
    }
    proof {
        lemma_units_of_parts(scale as nat, significand as nat);
        assert(scale * 0x10_0000_0000_0000 + significand == magnitude);
    }
    (significand, scale)
}

/// The rounded product of two finite magnitudes.
pub open spec fn product(a: u64, b: u64) -> u64 {
    nearest(units(a as int) * units(b as int), pow2(1074))
}

/// The rounded sum of two magnitudes.
pub open spec fn sum(a: u64, b: u64) -> u64 {
    nearest(units(a as int) + units(b as int), 1)
}

/// The rounded difference of two magnitudes, the first at least the second.
pub open spec fn difference(a: u64, b: u64) -> u64 {
    if a == INFINITE {
        INFINITE
    } else {
        nearest((units(a as int) - units(b as int)) as nat, 1)
    }
}

/// The rounded quotient of two integers.
pub open spec fn quotient(dividend: nat, divisor: nat) -> u64 {
    nearest(dividend * pow2(1074), divisor)
}

/// Multiplies two magnitudes.
pub fn multiply(a: u64, b: u64) -> (r: u64)
    requires
        a < INFINITE,
        b < INFINITE,
    ensures
        r == product(a, b),
        r <= INFINITE,
{
    let (sa, ea): (u64, i64) = parts(a);
    let (sb, eb): (u64, i64) = parts(b);
    let ghost n = units(a as int) * units(b as int);
    proof {
        let x = sa as int;
        let y = sb as int;
        lemma_pow2_120();
        lemma_pow2_pos(1074);
        assert(0 <= x * y < 0x20_0000_0000_0000 * 0x20_0000_0000_0000) by (nonlinear_arith)
            requires
                0 <= x < 0x20_0000_0000_0000,
                0 <= y < 0x20_0000_0000_0000,
        ;
        let px = pow2(ea as nat) as int;
        let py = pow2(eb as nat) as int;
        let big = pow2(3000) as int;
        let d = pow2(1074) as int;
        let w = pow2((ea + eb - 1074 + 3000) as nat) as int;
        lemma_pow2_adds(ea as nat, eb as nat);
        lemma_pow2_adds((ea + eb) as nat, 3000);
        lemma_pow2_adds(1074, (ea + eb - 1074 + 3000) as nat);
        assert(px * py * big == d * w);
        assert(n * big == (x * y) * (d * w)) by (nonlinear_arith)
            requires
                n == (x * px) * (y * py),
                px * py * big == d * w,
        ;
    }
    round(sa as u128 * sb as u128, false, ea + eb - 1074, Ghost(n), Ghost(pow2(1074)))
}

/// Multiplies a finite magnitude by a small integer.
pub fn scale_by(a: u64, factor: u64) -> (r: u64)
    requires
        a < INFINITE,
        factor < 0x1_0000_0000,
    ensures
        r == nearest(factor as nat * units(a as int), 1),
        r <= INFINITE,
{
    let (significand, scale): (u64, i64) = parts(a);
    let ghost n = factor as nat * units(a as int);
    proof {
        let s = significand as int;
        let f = factor as int;
        let p = pow2(scale as nat) as int;
        let big = pow2(3000) as int;
        lemma_pow2_120();
        lemma_pow2_adds(scale as nat, 3000);
        assert(0 <= s * f < 0x20_0000_0000_0000 * 0x1_0000_0000) by (nonlinear_arith)
            requires
                0 <= s < 0x20_0000_0000_0000,
                0 <= f < 0x1_0000_0000,
        ;
        assert((f * (s * p)) * big == (s * f) * (1 * (p * big))) by (nonlinear_arith);
    }
    round(significand as u128 * factor as u128, false, scale, Ghost(n), Ghost(1))
}

/// Cuts `digits` binary digits off `value`: what is kept, and whether anything
/// was lost.
fn shift_right(value: u64, digits: i64) -> (r: (u64, bool))
    requires
        value < 0x20_0000_0000_0000,
        0 < digits <= 3000,
    ensures
        r.0 <= value,
        r.1 ==> r.0 * pow2(digits as nat) < value < (r.0 + 1) * pow2(digits as nat),
        !r.1 ==> r.0 * pow2(digits as nat) == value,
{
    proof {
        lemma_pow2_120();
        lemma_pow2_pos(digits as nat);
    }
    if digits > 53 {
        proof {
            lemma_pow2_at_least(53, digits as nat);
            assert(0 * pow2(digits as nat) == 0) by (nonlinear_arith);
            assert(1 * pow2(digits as nat) == pow2(digits as nat)) by (nonlinear_arith);
        }
        (0, value != 0)
    } else {
        let power: u128 = power_of_two(digits);
        let kept: u128 = value as u128 / power;
        let lost: u128 = value as u128 % power;
        proof {
            let v = value as int;
            let p = power as int;
            let k = kept as int;
            vstd::arithmetic::div_mod::lemma_fundamental_div_mod(v, p);
            assert(k * p + lost == v && (k + 1) * p == k * p + p) by (nonlinear_arith)
                requires
                    v == p * k + lost,
            ;
            assert(k <= v) by (nonlinear_arith)
                requires
                    k * p + lost == v,
                    p >= 1,
                    k >= 0,
                    lost >= 0,
            ;
        }
        (kept as u64, lost != 0)
    }
}

/// Adds two magnitudes.
pub fn add_magnitudes(a: u64, b: u64) -> (r: u64)
    requires
        a <= INFINITE,
        b <= INFINITE,
    ensures
        r == sum(a, b),
        r <= INFINITE,
{
    if a == INFINITE || b == INFINITE {
        proof {
            let n = units(a as int) + units(b as int);
            assert(1 * units(INFINITE as int) == units(INFINITE as int));
            lemma_nearest_infinite(n, 1);
            lemma_nearest_is(n, 1, INFINITE);
        }
        return INFINITE;
    }
    let (large, small): (u64, u64) = if a >= b {
        (a, b)
    } else {
        (b, a)
    };
    let (sl, el): (u64, i64) = parts(large);
    let (ss, es): (u64, i64) = parts(small);
    let ghost n = units(a as int) + units(b as int);
    let apart: i64 = el - es;
    proof {
        lemma_pow2_120();
    }
    if apart <= 60 {
        let power: u128 = power_of_two(apart);
        proof {
            lemma_aligned(sl as int, ss as int, el as nat, es as nat, n as int, 1);
        }
        round(sl as u128 * power + ss as u128, false, es, Ghost(n), Ghost(1))
    } else {
        let (kept, lost): (u64, bool) = shift_right(ss, apart - 60);
        let power: u128 = power_of_two(60);
        proof {
            lemma_far_apart(
                sl as int,
                ss as int,
                el as nat,
                es as nat,
                n as int,
                1,
                kept as int,
                lost,
            );
        }
        round(sl as u128 * power + kept as u128, lost, el - 60, Ghost(n), Ghost(1))
    }
}

/// Subtracts the second magnitude from the first.
pub fn subtract(a: u64, b: u64) -> (r: u64)
    requires
        b <= a <= INFINITE,
        b < INFINITE,
    ensures
        r == difference(a, b),
        r <= INFINITE,
{
    if a == INFINITE {
        return INFINITE;
    }
    let (sl, el): (u64, i64) = parts(a);
    let (ss, es): (u64, i64) = parts(b);
    proof {
        lemma_units_ordered(b as int, a as int);
        lemma_pow2_120();
    }
    let ghost n = (units(a as int) - units(b as int)) as nat;
    let apart: i64 = el - es;
    if apart <= 60 {
        let power: u128 = power_of_two(apart);
        proof {
            lemma_aligned(sl as int, ss as int, el as nat, es as nat, n as int, -1);
        }
        round(sl as u128 * power - ss as u128, false, es, Ghost(n), Ghost(1))
    } else {
        let (kept, lost): (u64, bool) = shift_right(ss, apart - 60);
        let taken: u64 = if lost {
            kept + 1
        } else {
            kept
        };
        let power: u128 = power_of_two(60);
        proof {
            lemma_far_apart(
                sl as int,
                ss as int,
                el as nat,
                es as nat,
                n as int,
                -1,
                kept as int,
                lost,
            );
        }
        round(sl as u128 * power - taken as u128, lost, el - 60, Ghost(n), Ghost(1))
    }
}

/// Two numbers with near exponents, written over the smaller one.
proof fn lemma_aligned(sl: int, ss: int, el: nat, es: nat, n: int, sign: int)
    requires
        es <= el <= es + 60,
        el <= 2045,
        0 <= sl < 0x20_0000_0000_0000,
        0 <= ss < 0x20_0000_0000_0000,
        sign == 1 || sign == -1,
        n == sl * pow2(el) + sign * (ss * pow2(es)),
        n >= 0,
    ensures
        0 <= sl * pow2((el - es) as nat) < 0x20_0000_0000_0000 * 0x1000_0000_0000_0000,
        0 <= sl * pow2((el - es) as nat) + sign * ss < pow2(120),
        stands_for((sl * pow2((el - es) as nat) + sign * ss) as nat, false, es as int, n as nat, 1),
{
    let p = pow2((el - es) as nat) as int;
    let s = pow2(es) as int;
    let big = pow2(3000) as int;
    lemma_pow2_120();
    lemma_pow2_at_least((el - es) as nat, 60);
    lemma_pow2_pos((el - es) as nat);
    lemma_pow2_pos(es);
    lemma_pow2_adds((el - es) as nat, es);
    lemma_pow2_adds(es, 3000);
    assert(0 <= sl * p < 0x20_0000_0000_0000 * 0x1000_0000_0000_0000) by (nonlinear_arith)
        requires
            0 <= sl < 0x20_0000_0000_0000,
            0 < p <= 0x1000_0000_0000_0000,
    ;
    let k = sl * p + sign * ss;
    assert(n == k * s) by (nonlinear_arith)
        requires
            n == sl * (p * s) + sign * (ss * s),
            k == sl * p + sign * ss,
    ;
    assert(k >= 0) by (nonlinear_arith)
        requires
            n == k * s,
            n >= 0,
            s > 0,
    ;
    assert(n * big == k * (1 * (s * big))) by (nonlinear_arith)
        requires
            n == k * s,
    ;
}

/// Two numbers with far exponents: the smaller one only nudges the larger.
proof fn lemma_far_apart(
    sl: int,
    ss: int,
    el: nat,
    es: nat,
    n: int,
    sign: int,
    kept: int,
    lost: bool,
)
    requires
        es + 60 < el <= 2045,
        0x10_0000_0000_0000 <= sl < 0x20_0000_0000_0000,
        0 <= ss < 0x20_0000_0000_0000,
        sign == 1 || sign == -1,
        n == sl * pow2(el) + sign * (ss * pow2(es)),
        0 <= kept <= ss,
        lost ==> kept * pow2((el - es - 60) as nat) < ss < (kept + 1) * pow2(
            (el - es - 60) as nat,
        ),
        !lost ==> kept * pow2((el - es - 60) as nat) == ss,
    ensures
        n >= 0,
        ({
            let below: int = if lost && sign == -1 { 1 } else { 0 };
            let m = sl * 0x1000_0000_0000_0000 + sign * kept - below;
            &&& pow2(53) <= m < pow2(120)
            &&& stands_for(m as nat, lost, el - 60, n as nat, 1)
        }),
{
    let t = pow2((el - es - 60) as nat) as int;
    let s = pow2(es) as int;
    let big = pow2(3000) as int;
    let c = 0x1000_0000_0000_0000int;
    lemma_pow2_120();
    lemma_pow2_pos(es);
    lemma_pow2_pos((el - es - 60) as nat);
    lemma_pow2_pos(3000);
    lemma_pow2_adds((el - es - 60) as nat, es);
    lemma_pow2_adds(60, (el - 60) as nat);
    lemma_pow2_adds((el - 60) as nat, 3000);
    let below: int = if lost && sign == -1 { 1 } else { 0 };
    let m = sl * c + sign * kept - below;
    assert(sign * kept == if sign == 1 { kept } else { -kept }) by (nonlinear_arith)
        requires
            sign == 1 || sign == -1,
    ;
    assert(m >= 0x20_0000_0000_0000);
    let g = t * s;
    assert(pow2((el - 60) as nat) == g);
    assert(n == sl * (c * g) + sign * (ss * s));
    assert(kept * g <= ss * s && (!lost ==> kept * g == ss * s) && (lost ==> kept * g < ss * s
        && ss * s < (kept + 1) * g)) by (nonlinear_arith)
        requires
            g == t * s,
            s > 0,
            lost ==> kept * t < ss && ss < (kept + 1) * t,
            !lost ==> kept * t == ss,
    ;
    assert(m * g == sl * (c * g) + sign * (kept * g) - below * g) by (nonlinear_arith)
        requires
            m == sl * c + sign * kept - below,
    ;
    assert((m + 1) * g == m * g + g && (kept + 1) * g == kept * g + g) by (nonlinear_arith);
    assert(g > 0) by (nonlinear_arith)
        requires
            g == t * s,
            s > 0,
            t > 0,
    ;
    let over = ss * s;
    let under = kept * g;
    assert(sign * over == if sign == 1 { over } else { -over }) by (nonlinear_arith)
        requires
            sign == 1 || sign == -1,
    ;
    assert(sign * under == if sign == 1 { under } else { -under }) by (nonlinear_arith)
        requires
            sign == 1 || sign == -1,
    ;
    assert(below * g == if below == 1 { g } else { 0 }) by (nonlinear_arith)
        requires
            below == 0 || below == 1,
    ;
    assert(!lost ==> n == m * g);
    assert(lost ==> m * g < n < (m + 1) * g);
    assert(m * g >= 0) by (nonlinear_arith)
        requires
            m >= 0,
            g > 0,
    ;
    assert(lost ==> m * (1 * (g * big)) < n * big && n * big < (m + 1) * (1 * (g * big)))
        by (nonlinear_arith)
        requires
            lost ==> m * g < n && n < (m + 1) * g,
            big > 0,
    ;
    assert(!lost ==> n * big == m * (1 * (g * big))) by (nonlinear_arith)
        requires
            !lost ==> n == m * g,
    ;
}

/// The double nearest to an integer.
pub fn from_integer(value: u64) -> (r: u64)
    ensures
        r == quotient(value as nat, 1),
        r <= INFINITE,
{
    let ghost n = value as nat * pow2(1074);
    proof {
        lemma_pow2_120();
        lemma_pow2_adds(1074, 3000);
        let v = value as int;
        let p = pow2(1074) as int;
        let big = pow2(3000) as int;
        assert((v * p) * big == v * (1 * (p * big))) by (nonlinear_arith);
    }
    round(value as u128, false, 1074, Ghost(n), Ghost(1))
}

/// The double nearest to a fraction below one, or to a small one above it.
pub fn from_fraction(dividend: u64, divisor: u64) -> (r: u64)
    requires
        dividend < 0x4000_0000,
        0 < divisor < 0x4000_0000,
    ensures
        r == quotient(dividend as nat, divisor as nat),
        r <= INFINITE,
{
    let power: u128 = power_of_two(90);
    proof {
        lemma_pow2_120();
        lemma_pow2_adds(30, 60);
        lemma_pow2_adds(30, 90);
        lemma2_to64();
        let x = dividend as int;
        let p = power as int;
        assert(0 <= x * p < 0x4000_0000 * p) by (nonlinear_arith)
            requires
                0 <= x < 0x4000_0000,
                p > 0,
        ;
        assert(pow2(30) == 0x4000_0000);
    }
    let scaled: u128 = dividend as u128 * power;
    let kept: u128 = scaled / divisor as u128;
    let lost: u128 = scaled % divisor as u128;
    let ghost n = dividend as nat * pow2(1074);
    proof {
        let s = scaled as int;
        let d = divisor as int;
        let k = kept as int;
        let x = dividend as int;
        let p = power as int;
        vstd::arithmetic::div_mod::lemma_fundamental_div_mod(s, d);
        assert(s == k * d + lost) by (nonlinear_arith)
            requires
                s == d * k + lost,
        ;
        assert(k <= s) by (nonlinear_arith)
            requires
                s == k * d + lost,
                d >= 1,
                k >= 0,
                lost >= 0,
        ;
        let w = pow2((984 + 3000) as nat) as int;
        let t = pow2(1074) as int;
        let big = pow2(3000) as int;
        lemma_pow2_pos(3984);
        lemma_pow2_adds(90, 984);
        lemma_pow2_adds(984, 3000);
        lemma_pow2_adds(1074, 3000);
        lemma_pow2_adds(90, 3984);
        assert(t * big == p * w);
        assert((x * t) * big == s * w) by (nonlinear_arith)
            requires
                s == x * p,
                t * big == p * w,
        ;
        assert(s * w == k * (d * w) + lost * w && (k + 1) * (d * w) == k * (d * w) + d * w)
            by (nonlinear_arith)
            requires
                s == k * d + lost,
        ;
        assert(0 <= lost * w < d * w && (lost > 0 ==> lost * w > 0)) by (nonlinear_arith)
            requires
                0 <= lost < d,
                w > 0,
        ;
        let unit = d * w;
        let exact = (x * t) * big;
        assert(n * pow2(3000) == exact);
        assert(divisor as nat * pow2((984 + 3000) as nat) == unit);
        if lost == 0 {
            assert(lost * w == 0) by (nonlinear_arith)
                requires
                    lost == 0,
            ;
            assert(exact == k * unit);
        } else {
            assert(k * unit < exact < (k + 1) * unit);
        }
        assert(stands_for(kept as nat, lost != 0, 984, n, divisor as nat));
        if lost != 0 {
            lemma_pow2_at_least(53, 60);
            assert(k >= 0x1000_0000_0000_0000) by (nonlinear_arith)
                requires
                    s == k * d + lost,
                    0 <= lost < d,
                    d < 0x4000_0000,
                    s >= p,
                    p == 0x4000_0000 * 0x1000_0000_0000_0000,
            ;
        }
    }
    round(kept, lost != 0, 984, Ghost(n), Ghost(divisor as nat))
}

/// The last double at or below a quotient that stays under 2^1024.
proof fn lemma_floor(numerator: nat, denominator: nat, above: int) -> (floor: int)
    requires
        denominator > 0,
        0 <= above <= INFINITE,
        numerator < denominator * units(above),
    ensures
        0 <= floor < above,
        denominator * units(floor) <= numerator < denominator * units(floor + 1),
    decreases above,
{
    if above == 0 {
        assert(denominator * units(0) == 0) by (nonlinear_arith)
            requires
                units(0) == 0,
        ;
        0
    } else if denominator * units(above - 1) <= numerator {
        above - 1
    } else {
        lemma_floor(numerator, denominator, above - 1)
    }
}

/// Every quotient rounds to some double, so [`nearest`] is always defined.
pub proof fn law_rounding_is_total(numerator: nat, denominator: nat)
    requires
        denominator > 0,
    ensures
        is_nearest(numerator, denominator, nearest(numerator, denominator) as int),
{
    if denominator * units(INFINITE as int) <= numerator {
        lemma_nearest_infinite(numerator, denominator);
        lemma_nearest_is(numerator, denominator, INFINITE);
    } else {
        let floor = lemma_floor(numerator, denominator, INFINITE as int);
        let twice = 2 * numerator;
        let middle = denominator * units(floor) + denominator * units(floor + 1);
        let up = twice > middle || (twice == middle && floor % 2 != 0);
        lemma_nearest_between(numerator, denominator, floor, up);
        let r = if up { floor + 1 } else { floor };
        lemma_nearest_is(numerator, denominator, r as u64);
    }
}

/// Rounding keeps the order of quotients.
pub proof fn law_rounding_is_monotone(low: nat, high: nat, denominator: nat)
    requires
        denominator > 0,
        low <= high,
    ensures
        nearest(low, denominator) <= nearest(high, denominator),
{
    law_rounding_is_total(low, denominator);
    law_rounding_is_total(high, denominator);
    let a = nearest(low, denominator) as int;
    let b = nearest(high, denominator) as int;
    if a > b {
        lemma_units_ordered(b, a);
        let d = denominator as int;
        let ua = units(a) as int;
        let ub = units(b) as int;
        assert(d * ub < d * ua) by (nonlinear_arith)
            requires
                d > 0,
                ub < ua,
        ;
        assert(distance(low, denominator, a) <= distance(low, denominator, b));
        assert(distance(high, denominator, b) <= distance(high, denominator, a));
        assert(low == high);
    }
}

/// A significand of at most 53 digits at any scale is a double.
pub proof fn lemma_representable(significand: nat, scale: nat) -> (magnitude: int)
    requires
        significand < 0x20_0000_0000_0000,
        scale <= 2045,
    ensures
        0 <= magnitude < INFINITE,
        units(magnitude) == significand * pow2(scale),
    decreases scale,
{
    if scale == 0 || significand >= 0x10_0000_0000_0000 {
        lemma_units_of_parts(scale, significand);
        (scale * 0x10_0000_0000_0000 + significand) as int
    } else {
        lemma_pow2_unfold(scale);
        let s = significand as int;
        let p = pow2((scale - 1) as nat) as int;
        assert(s * (2 * p) == (2 * s) * p) by (nonlinear_arith);
        lemma_representable(2 * significand, (scale - 1) as nat)
    }
}

/// Taking 1.0 from a double below 2^53 rounds nothing away.
pub proof fn law_subtracting_one_is_exact(magnitude: u64)
    requires
        ONE <= magnitude < 0x4340_0000_0000_0000,
    ensures
        units(difference(magnitude, ONE) as int) == units(magnitude as int) - units(ONE as int),
{
    let scale = scale_of(magnitude as int);
    let significand = (magnitude - scale * 0x10_0000_0000_0000) as nat;
    lemma_units_of_parts(scale, significand);
    lemma_units_of_parts(1022, 0x10_0000_0000_0000);
    lemma_pow2_120();
    lemma_pow2_adds(52, 1022);
    lemma_units_ordered(ONE as int, magnitude as int);
    assert(1022 <= scale <= 1074);
    let step = (1074 - scale) as nat;
    lemma_pow2_adds(step, scale);
    lemma_pow2_at_least(step, 52);
    let s = significand as int;
    let t = pow2(step) as int;
    let p = pow2(scale) as int;
    assert((s - t) * p == s * p - t * p) by (nonlinear_arith);
    let m = lemma_representable((s - t) as nat, scale);
    assert(1 * units(m) == units(m));
    law_rounding_keeps_doubles(1, m);
}

/// Integers below 2^53 convert to doubles exactly.
pub proof fn law_integers_are_exact(value: nat)
    requires
        value < 0x20_0000_0000_0000,
    ensures
        units(quotient(value, 1) as int) == value * pow2(1074),
        quotient(value, 1) < INFINITE,
{
    let m = lemma_representable(value, 1074);
    assert(1 * units(m) == units(m));
    law_rounding_keeps_doubles(1, m);
}

/// Larger addends give no smaller sum.
pub proof fn law_sums_are_monotone(a: u64, b: u64, c: u64, d: u64)
    requires
        a <= c,
        b <= d,
    ensures
        sum(a, b) <= sum(c, d),
{
    lemma_units_ordered(a as int, c as int);
    lemma_units_ordered(b as int, d as int);
    law_rounding_is_monotone(
        units(a as int) + units(b as int),
        units(c as int) + units(d as int),
        1,
    );
}

/// Larger factors give no smaller product.
pub proof fn law_products_are_monotone(a: u64, b: u64, c: u64)
    requires
        a <= b,
    ensures
        product(a, c) <= product(b, c),
{
    lemma_units_ordered(a as int, b as int);
    lemma_pow2_pos(1074);
    let x = units(a as int) as int;
    let y = units(b as int) as int;
    let z = units(c as int) as int;
    assert(x * z <= y * z) by (nonlinear_arith)
        requires
            x <= y,
            z >= 0,
    ;
    law_rounding_is_monotone(
        units(a as int) * units(c as int),
        units(b as int) * units(c as int),
        pow2(1074),
    );
}

/// Adding nothing changes nothing.
pub proof fn law_zero_is_neutral(a: u64)
    requires
        a <= INFINITE,
    ensures
        sum(a, 0) == a,
{
    let n = units(a as int) + units(0);
    assert(1 * units(a as int) == n);
    if a == INFINITE {
        lemma_nearest_infinite(n, 1);
        lemma_nearest_is(n, 1, INFINITE);
    } else {
        law_rounding_keeps_doubles(1, a as int);
    }
}

/// Nothing times a finite number is nothing.
pub proof fn law_zero_absorbs(a: u64)
    ensures
        product(0, a) == 0,
{
    lemma_pow2_pos(1074);
    let u = units(a as int) as int;
    let p = pow2(1074) as int;
    assert(0 * u == 0 && p * 0 == 0) by (nonlinear_arith);
    law_rounding_keeps_doubles(pow2(1074), 0);
}

/// The value of 1.0.
pub proof fn lemma_one()
    ensures
        units(ONE as int) == pow2(1074),
{
    lemma_pow2_120();
    lemma_units_of_parts(1022, 0x10_0000_0000_0000);
    lemma_pow2_adds(52, 1022);
}

/// Rounding is off by at most one part in 2^53. This needs a quotient that is not
/// below the normal range of doubles, or a whole number of units; and a quotient
/// beyond all doubles is only ever rounded down.
pub proof fn law_rounding_error_is_small(numerator: nat, denominator: nat)
    requires
        denominator > 0,
        numerator >= 0x10_0000_0000_0000 * denominator || denominator == 1 || numerator == 0,
    ensures
        0x20_0000_0000_0000 * (denominator * units(nearest(numerator, denominator) as int)
            - numerator) <= numerator,
        numerator < denominator * units(INFINITE as int) ==> 0x20_0000_0000_0000 * (numerator
            - denominator * units(nearest(numerator, denominator) as int)) <= numerator,
{
    let d = denominator as int;
    let r = nearest(numerator, denominator) as int;
    law_rounding_is_total(numerator, denominator);
    if numerator >= denominator * units(INFINITE as int) {
        let top = units(INFINITE as int) as int;
        let u = units(r) as int;
        lemma_units_ordered(r, INFINITE as int);
        assert(d * u <= d * top) by (nonlinear_arith)
            requires
                u <= top,
                d > 0,
        ;
    } else {
        let floor = lemma_floor(numerator, denominator, INFINITE as int);
        lemma_units_step(floor);
        let scale = scale_of(floor);
        let significand = (floor - scale * 0x10_0000_0000_0000) as nat;
        lemma_units_of_parts(scale, significand);
        let gap = pow2(scale) as int;
        let low = units(floor) as int;
        let s = significand as int;
        assert(d * (low + gap) == d * low + d * gap) by (nonlinear_arith);
        assert(2 * distance(numerator, denominator, r) <= d * gap) by {
            assert(distance(numerator, denominator, r) <= distance(numerator, denominator, floor));
            assert(distance(numerator, denominator, r) <= distance(
                numerator,
                denominator,
                floor + 1,
            ));
        }
        if floor >= 0x10_0000_0000_0000 {
            assert(0x10_0000_0000_0000 * (d * gap) <= d * low) by (nonlinear_arith)
                requires
                    low == s * gap,
                    s >= 0x10_0000_0000_0000,
                    d > 0,
                    gap > 0,
            ;
        } else if numerator == 0 {
            law_rounding_keeps_doubles(denominator, 0);
            assert(d * 0 == 0) by (nonlinear_arith);
        } else {
            assert(gap == 1) by {
                lemma_pow2_120();
            }
            assert(low == floor);
            assert(units(floor + 1) <= 0x10_0000_0000_0000);
            if denominator == 1 {
                assert(1 * units(floor) == floor && 1 * units(floor + 1) == floor + 1);
                law_rounding_keeps_doubles(1, floor);
            } else {
                assert(d * (floor + 1) <= d * 0x10_0000_0000_0000) by (nonlinear_arith)
                    requires
                        floor + 1 <= 0x10_0000_0000_0000,
                        d > 0,
                ;
            }
        }
    }
}

/// A rounded quotient is as near as a double can be, and even where two are.
pub proof fn law_nothing_is_nearer(numerator: nat, denominator: nat, other: int)
    requires
        denominator > 0,
        0 <= other <= INFINITE,
        other != nearest(numerator, denominator),
    ensures
        ({
            let r = nearest(numerator, denominator) as int;
            let off = denominator * units(r) - numerator;
            let other_off = denominator * units(other) - numerator;
            let off = if off < 0 {
                -off
            } else {
                off
            };
            let other_off = if other_off < 0 {
                -other_off
            } else {
                other_off
            };
            &&& 0 <= r <= INFINITE
            &&& off <= other_off
            &&& off == other_off ==> r % 2 == 0
        }),
{
    law_rounding_is_total(numerator, denominator);
    assert(distance(numerator, denominator, other) >= 0);
}

/// Each operation gives the nearest double to the exact result: no double is nearer
/// to a sum, a difference, a product or a quotient.
pub proof fn law_operations_round_the_exact_result(
    a: u64,
    b: u64,
    dividend: nat,
    divisor: nat,
    other: int,
)
    requires
        0 <= other <= INFINITE,
        divisor > 0,
    ensures
        ({
            let near = |n: int, d: int, r: int|
                (if d * units(r) < n {
                    n - d * units(r)
                } else {
                    d * units(r) - n
                }) <= (if d * units(other) < n {
                    n - d * units(other)
                } else {
                    d * units(other) - n
                });
            let x = units(a as int) as int;
            let y = units(b as int) as int;
            let p = pow2(1074) as int;
            &&& near(x + y, 1, sum(a, b) as int)
            &&& near(x * y, p, product(a, b) as int)
            &&& near(dividend * p, divisor as int, quotient(dividend, divisor) as int)
            &&& b <= a < INFINITE ==> near(x - y, 1, difference(a, b) as int)
        }),
{
    lemma_pow2_pos(1074);
    let x = units(a as int);
    let y = units(b as int);
    law_rounding_is_total(x + y, 1);
    law_rounding_is_total(x * y, pow2(1074));
    law_rounding_is_total(dividend * pow2(1074), divisor);
    lemma_units_ordered(b as int, a as int);
    law_rounding_is_total((x - y) as nat, 1);
    assert(distance(x + y, 1, sum(a, b) as int) <= distance(x + y, 1, other));
    assert(distance(x * y, pow2(1074), product(a, b) as int) <= distance(
        x * y,
        pow2(1074),
        other,
    ));
    assert(distance(dividend * pow2(1074), divisor, quotient(dividend, divisor) as int)
        <= distance(dividend * pow2(1074), divisor, other));
    if b <= a && a < INFINITE {
        assert(distance((x - y) as nat, 1, difference(a, b) as int) <= distance(
            (x - y) as nat,
            1,
            other,
        ));
    }
}

} // verus!
