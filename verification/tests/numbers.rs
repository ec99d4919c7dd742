//! Doubles and singles as bits, against the machine's own arithmetic.

use hazshield_ingest::ieee::{Double, Single};
use hazshield_ingest::rounding::{
    add_magnitudes, from_fraction, from_integer, multiply, scale_by, subtract,
};
use hazshield_ingest::text::decimal;

/// Magnitudes of finite doubles of all sizes.
fn samples() -> Vec<u64> {
    let mut all: Vec<u64> = vec![
        0,
        1,
        2,
        0x000f_ffff_ffff_ffff,
        0x0010_0000_0000_0000,
        0x0010_0000_0000_0001,
        1.0f64.to_bits(),
        1.0f64.to_bits() + 1,
        1.0f64.to_bits() - 1,
        5.0f64.to_bits(),
        0.1f64.to_bits(),
        0.3f64.to_bits(),
        9007199254740993.0f64.to_bits(),
        f64::MAX.to_bits(),
    ];
    let mut state: u64 = 0x9e37_79b9_7f4a_7c15;
    for _ in 0..120 {
        state = state.wrapping_mul(6364136223846793005).wrapping_add(1442695040888963407);
        let magnitude = state >> 1;
        if magnitude < 0x7ff0_0000_0000_0000 {
            all.push(magnitude);
        }
    }
    all
}

#[test]
fn products_match_the_machine() {
    for a in samples() {
        for b in samples() {
            let expected = f64::from_bits(a) * f64::from_bits(b);
            assert_eq!(multiply(a, b), expected.to_bits(), "{a:x} * {b:x}");
        }
    }
}

#[test]
fn sums_match_the_machine() {
    for a in samples() {
        for b in samples() {
            let expected = f64::from_bits(a) + f64::from_bits(b);
            assert_eq!(add_magnitudes(a, b), expected.to_bits(), "{a:x} + {b:x}");
        }
    }
}

#[test]
fn differences_match_the_machine() {
    for a in samples() {
        for b in samples() {
            if a >= b {
                let expected = f64::from_bits(a) - f64::from_bits(b);
                assert_eq!(subtract(a, b), expected.to_bits(), "{a:x} - {b:x}");
            }
        }
    }
}

#[test]
fn small_factors_match_the_machine() {
    for a in samples() {
        for factor in [2u64, 5] {
            let expected = f64::from_bits(a) * factor as f64;
            assert_eq!(scale_by(a, factor), expected.to_bits());
        }
    }
}

#[test]
fn integers_match_the_machine() {
    for n in [0u64, 1, 5, 1_000_000_000, 9007199254740993, u64::MAX, u64::MAX - 1024] {
        assert_eq!(from_integer(n), (n as f64).to_bits());
    }
}

#[test]
fn fractions_match_the_machine() {
    let billion = 1_000_000_000;
    for (n, d) in [(0u64, 1u64), (1, 3), (18, 10), (9, 10), (billion - 1, billion), (1, billion)] {
        assert_eq!(from_fraction(n, d), (n as f64 / d as f64).to_bits());
    }
}

#[test]
fn widening_matches_the_machine() {
    for bits in [
        0u32,
        1,
        0x007f_ffff,
        0x0080_0000,
        0x3f80_0000,
        0x4048_f5c3,
        0x7f7f_ffff,
        0x8000_0000,
        0x8000_0001,
        0xc048_f5c3,
        0x7f80_0000,
        0xff80_0000,
    ] {
        let widened = Single { bits }.widen();
        assert_eq!(widened.bits, (f32::from_bits(bits) as f64).to_bits(), "{bits:x}");
    }
    assert!(Single { bits: 0x7fc0_0000 }.widen().is_nan());
}

#[test]
fn finiteness_matches_the_machine() {
    for x in [0.0f32, -1.5, f32::MAX, f32::INFINITY, f32::NEG_INFINITY, f32::NAN] {
        assert_eq!(Single { bits: x.to_bits() }.is_finite(), x.is_finite());
    }
}

#[test]
fn comparisons_match_the_machine() {
    let numbers = [
        0.0f64,
        -0.0,
        1.0,
        -1.0,
        19.5,
        f64::MIN_POSITIVE,
        -f64::MAX,
        f64::INFINITY,
        f64::NEG_INFINITY,
        f64::NAN,
    ];
    for a in numbers {
        for b in numbers {
            let (x, y) = (Double { bits: a.to_bits() }, Double { bits: b.to_bits() });
            assert_eq!(x.ge(y), a >= b, "{a} >= {b}");
            assert_eq!(x.le(y), a <= b, "{a} <= {b}");
        }
    }
}

#[test]
fn numbers_print_in_decimal() {
    for n in [0u64, 9, 10, 2001, 100_000, u64::MAX] {
        assert_eq!(decimal(n), n.to_string());
    }
}
