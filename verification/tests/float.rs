//! Floating point numbers by their bits, held against the machine's own.

use sail_lance::float::{
    floor_saturating, integral_parts, is_exact_f64_to_f32, is_infinite, is_nan, is_sign_negative,
    narrow, widen_16, widen_32,
};
use sail_lance::literal::float_scalar_to_f64;
use sail_lance::scalar::Scalar;
use sail_lance::special::parse_special_float;
use sail_lance::text::{decimal_text, integral_text};

/// Doubles from all over the range.
fn doubles() -> Vec<f64> {
    let mut values = vec![
        0.0,
        0.1,
        0.5,
        1.0,
        1.5,
        2.0,
        2.5,
        1e10,
        1e19,
        1e30,
        1e38,
        3.4028234663852886e38,
        3.4028235677973366e38,
        3.4028235677973362e38,
        1e39,
        1e300,
        f64::MAX,
        f64::MIN_POSITIVE,
        5e-324,
        1e-40,
        1.1754943508222875e-38,
        1.401298464324817e-45,
        7.006492321624085e-46,
        7.006492321624086e-46,
        2.1019476964872256e-45,
        4503599627370496.5,
        9007199254740992.0,
        9223372036854775808.0,
        170141183460469231731687303715884105728.0,
        f64::INFINITY,
        f64::NAN,
        16777217.0,
        16777219.0,
    ];
    let mut seed: u64 = 0x9e37_79b9_7f4a_7c15;
    for _ in 0..2000 {
        seed ^= seed << 13;
        seed ^= seed >> 7;
        seed ^= seed << 17;
        values.push(f64::from_bits(seed));
        // Exponents near those of singles, and near those of integers.
        let fraction = seed & 0x000f_ffff_ffff_ffff;
        values.push(f64::from_bits(fraction | ((870 + seed % 300) << 52)));
        values.push(f64::from_bits(fraction | ((1020 + seed % 70) << 52)));
    }
    let negated: Vec<f64> = values.iter().map(|value| -value).collect();
    values.extend(negated);
    values
}

#[test]
fn exact_double_to_float32() {
    assert!(is_exact_f64_to_f32(0.5_f64.to_bits()));
    assert!(is_exact_f64_to_f32(f64::INFINITY.to_bits()));
    assert!(is_exact_f64_to_f32(f64::NEG_INFINITY.to_bits()));
    assert!(!is_exact_f64_to_f32(0.1_f64.to_bits()));
    assert!(!is_exact_f64_to_f32(1e40_f64.to_bits()));
}

#[test]
fn special_strings_fold() {
    assert_eq!(parse_special_float("-inf"), Some(f64::NEG_INFINITY.to_bits()));
    assert_eq!(parse_special_float("Infinity"), Some(f64::INFINITY.to_bits()));
    assert!(f64::from_bits(parse_special_float("nan").unwrap()).is_nan());
    assert_eq!(parse_special_float("0.5"), None);
}

#[test]
fn special_words_in_every_form() {
    let infinity = Some(f64::INFINITY.to_bits());
    let negative = Some(f64::NEG_INFINITY.to_bits());
    for word in ["inf", "+inf", "INF", "infinity", "+Infinity", "  inf\n", "\u{3000}inf\u{a0}"] {
        assert_eq!(parse_special_float(word), infinity, "{word:?}");
    }
    for word in ["-inf", "-INFINITY", "\t-Inf "] {
        assert_eq!(parse_special_float(word), negative, "{word:?}");
    }
    for word in ["nan", "+nan", "-nan", "NaN", " NAN "] {
        let bits = parse_special_float(word).unwrap();
        assert!(f64::from_bits(bits).is_nan(), "{word:?}");
    }
    for word in ["", " ", "in f", "infinit", "infinityy", "++inf", "- inf", "1", "\u{131}nf"] {
        assert_eq!(parse_special_float(word), None, "{word:?}");
    }
}

#[test]
fn white_space_is_what_the_standard_library_trims() {
    for c in (0..=0x10ffff_u32).filter_map(char::from_u32) {
        let found = parse_special_float(&format!("{c}inf{c}")).is_some();
        assert_eq!(found, c.is_whitespace(), "{c:?}");
    }
}

#[test]
fn doubles_are_classified() {
    for value in doubles() {
        let bits = value.to_bits();
        assert_eq!(is_nan(bits), value.is_nan());
        assert_eq!(is_infinite(bits), value.is_infinite());
        assert_eq!(is_sign_negative(bits), value.is_sign_negative());
    }
}

#[test]
fn floors_agree() {
    for value in doubles() {
        if !value.is_finite() {
            continue;
        }
        let whole = floor_saturating(value.to_bits());
        assert_eq!(whole.floor, value.floor() as i128, "{value}");
        assert_eq!(whole.integral, value.floor() == value, "{value}");
    }
}

#[test]
fn narrowing_agrees() {
    for value in doubles() {
        let single = f32::from_bits(narrow(value.to_bits()));
        let expected = value as f32;
        assert_eq!(single.is_nan(), expected.is_nan());
        if !expected.is_nan() {
            assert_eq!(single.to_bits(), expected.to_bits(), "{value}");
        }
        let exact = f64::from(expected) == value || value.is_nan();
        if !value.is_nan() {
            assert_eq!(is_exact_f64_to_f32(value.to_bits()), exact, "{value}");
        }
    }
}

#[test]
fn widening_agrees() {
    for value in doubles() {
        let single = value as f32;
        let wide = f64::from_bits(widen_32(single.to_bits()));
        if single.is_nan() {
            assert!(wide.is_nan());
        } else {
            assert_eq!(wide.to_bits(), f64::from(single).to_bits(), "{single}");
        }
    }
    for bits in 0..=u16::MAX {
        let wide = f64::from_bits(widen_16(bits));
        let expected = half::f16::from_bits(bits).to_f64();
        if expected.is_nan() {
            assert!(wide.is_nan());
        } else {
            assert_eq!(wide.to_bits(), expected.to_bits(), "{bits:#x}");
        }
    }
}

#[test]
fn integral_doubles_are_spelled_exactly() {
    for value in doubles() {
        if value.is_finite() && value.fract() == 0.0 {
            assert_eq!(integral_text(value.to_bits()), format!("{value:.1}"));
            let (mantissa, shift) = integral_parts(value.to_bits());
            assert_eq!((mantissa as f64) * 2f64.powi(shift as i32), value.abs());
        }
    }
}

#[test]
fn integers_are_spelled_in_decimal() {
    for value in [0, 1, -1, 9, 10, -10, 12345, i128::MAX, i128::MIN, u64::MAX as i128] {
        assert_eq!(decimal_text(value), value.to_string());
    }
}

#[test]
fn floating_point_literals_widen() {
    assert_eq!(
        float_scalar_to_f64(&Scalar::Float16(Some(half::f16::from_f64(0.5).to_bits()))),
        Some(Some(0.5_f64.to_bits()))
    );
    assert_eq!(
        float_scalar_to_f64(&Scalar::Float32(Some(0.1_f32.to_bits()))),
        Some(Some(f64::from(0.1_f32).to_bits()))
    );
    assert_eq!(
        float_scalar_to_f64(&Scalar::Float64(Some(0.1_f64.to_bits()))),
        Some(Some(0.1_f64.to_bits()))
    );
    assert_eq!(float_scalar_to_f64(&Scalar::Float32(None)), Some(None));
    assert_eq!(float_scalar_to_f64(&Scalar::Int8(Some(1))), None);
}
